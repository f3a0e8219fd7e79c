use audio_recorder::transcript::global_seconds;
use audio_recorder::transcript::merge_segments;
use audio_recorder::transcript::render_file_transcript;
use audio_recorder::transcript::render_footer;
use audio_recorder::transcript::render_header;
use audio_recorder::transcript::render_line;
use audio_recorder::transcript::session_footer;
use audio_recorder::transcript::session_header;
use audio_recorder::transcript::Segment;
use audio_recorder::transcript::SegmentFetch;

fn got(start_centis: u64, end_centis: u64, text: &str) -> SegmentFetch {
    SegmentFetch::Got(Segment {
        start_centis,
        end_centis,
        text: text.to_string(),
    })
}

#[test]
fn global_seconds_merges_chunk_index() {
    // chunk 2 at 5 s per chunk, 100 centiseconds in: 2*5 + 1 = 11.
    assert_eq!(global_seconds(2, 5, 100), 11);
    assert_eq!(global_seconds(2, 5, 300), 13);
    assert_eq!(global_seconds(0, 5, 0), 0);
    assert_eq!(global_seconds(0, 5, 250), 2);
}

#[test]
fn render_line_formats_mmss() {
    assert_eq!(render_line(0, 2, "hello world"), "[00:00 - 00:02] hello world\n");
    assert_eq!(render_line(11, 13, "x"), "[00:11 - 00:13] x\n");
    assert_eq!(render_line(0, 125, "a"), "[00:00 - 02:05] a\n");
    assert_eq!(render_line(59, 60, "b"), "[00:59 - 01:00] b\n");
}

#[test]
fn render_line_keeps_all_minute_digits() {
    assert_eq!(render_line(6000, 6125, "long"), "[100:00 - 102:05] long\n");
}

#[test]
fn render_line_trims_engine_padding() {
    assert_eq!(render_line(0, 1, "  hi  "), "[00:00 - 00:01] hi\n");
    assert_eq!(render_line(0, 1, "\n spaced out \n"), "[00:00 - 00:01] spaced out\n");
}

#[test]
fn merge_scenario_chunk_two() {
    // Segment {100, 300} of chunk 2 at 5 s per chunk lands at 11..13 s.
    let segs = vec![got(100, 300, "mid meeting")];
    let lines = merge_segments(2, 5, &segs);
    assert_eq!(lines, vec!["[00:11 - 00:13] mid meeting\n".to_string()]);
}

#[test]
fn merge_keeps_engine_order() {
    let segs = vec![got(0, 250, "first"), got(250, 450, "second")];
    let lines = merge_segments(0, 5, &segs);
    assert_eq!(
        lines,
        vec![
            "[00:00 - 00:02] first\n".to_string(),
            "[00:02 - 00:04] second\n".to_string(),
        ]
    );
}

#[test]
fn merge_skips_missing_segments_only() {
    let segs = vec![
        SegmentFetch::Missing,
        got(0, 100, "kept"),
        SegmentFetch::Missing,
    ];
    let lines = merge_segments(0, 5, &segs);
    assert_eq!(lines, vec!["[00:00 - 00:01] kept\n".to_string()]);
}

#[test]
fn merge_of_nothing_is_nothing() {
    let segs: Vec<SegmentFetch> = Vec::new();
    assert_eq!(merge_segments(7, 5, &segs).len(), 0);
}

#[test]
fn file_transcript_joins_all_lines() {
    // A whole file is one chunk at index zero: the engine's own offsets
    // stand, floored to seconds.
    let segs = vec![
        got(0, 250, "hello"),
        SegmentFetch::Missing,
        got(250, 500, "again"),
    ];
    assert_eq!(
        render_file_transcript(&segs),
        "[00:00 - 00:02] hello\n[00:02 - 00:05] again\n"
    );
    assert_eq!(render_file_transcript(&Vec::new()), "");
}

#[test]
fn header_and_footer_wrap_the_stamp() {
    assert_eq!(
        render_header("2024-01-02 03:04:05"),
        "Meeting Minutes - Live Transcription\nStarted: 2024-01-02 03:04:05\n\n"
    );
    assert_eq!(render_footer("2024-01-02 03:04:05"), "\nEnded: 2024-01-02 03:04:05\n");
}

#[test]
fn session_header_and_footer_use_clock_stamp() {
    let h = session_header();
    assert!(h.starts_with("Meeting Minutes - Live Transcription\nStarted: "));
    assert!(h.ends_with("\n\n"));
    let f = session_footer();
    assert!(f.starts_with("\nEnded: "));
    assert!(f.ends_with("\n"));
}

use audio_recorder::buffer::StreamingBuffer;
use audio_recorder::session::ChunkOutcome;
use audio_recorder::session::LiveSession;
use audio_recorder::transcript::Segment;
use audio_recorder::transcript::SegmentFetch;

fn got(start_centis: u64, end_centis: u64, text: &str) -> SegmentFetch {
    SegmentFetch::Got(Segment {
        start_centis,
        end_centis,
        text: text.to_string(),
    })
}

#[test]
fn scenario_one_chunk_at_engine_rate() {
    // 16 kHz capture, 5 s chunks: one full chunk of 80000 samples,
    // engine reports {0, 250, "hello world"}.
    let mut s = LiveSession::new(5, 16000);
    s.start();
    let block: Vec<i32> = vec![7; 80000];
    s.on_audio_block(&block, 1);
    let chunk = s.begin_chunk().expect("a full chunk is waiting");
    assert_eq!(chunk.len(), 80000);
    let ready = s.prepare_chunk(&chunk).expect("chunk fits the machine");
    assert_eq!(ready, chunk);
    let outcome = ChunkOutcome::Transcribed(vec![got(0, 250, "hello world")]);
    let lines = s.commit_chunk(chunk.len(), &outcome);
    assert_eq!(lines, vec!["[00:00 - 00:02] hello world\n".to_string()]);
}

#[test]
fn scenario_resample_before_dispatch() {
    // 44.1 kHz capture: the chunk must be resampled before dispatch and
    // the resampled count follows the length formula.
    let mut s = LiveSession::new(5, 44100);
    s.start();
    let block: Vec<i32> = vec![0; 80000];
    s.on_audio_block(&block, 1);
    let chunk = s.begin_chunk().expect("a full chunk is waiting");
    assert_eq!(chunk.len(), 80000);
    let ready = s.prepare_chunk(&chunk).expect("chunk fits the machine");
    assert_eq!(ready.len(), 80000 * 16000 / 44100);
}

#[test]
fn starved_scheduler_takes_nothing_until_drain() {
    // The buffer never reaches one chunk: every tick returns nothing,
    // and the drain then hands out the entire buffered content.
    let mut s = LiveSession::new(5, 16000);
    s.start();
    let block: Vec<i32> = vec![3; 1000];
    s.on_audio_block(&block, 1);
    assert!(s.begin_chunk().is_none());
    s.on_audio_block(&block, 1);
    assert!(s.begin_chunk().is_none());
    s.request_stop();
    let rest = s.drain_take();
    assert_eq!(rest, vec![3; 2000]);
    let lines = s.drain_lines(&vec![got(0, 12, "tail")]);
    assert_eq!(lines, vec!["[00:00 - 00:00] tail\n".to_string()]);
    s.finish();
}

#[test]
fn engine_failure_consumes_chunk_but_emits_nothing() {
    // A failed chunk advances cursor and index exactly like a
    // successful one; the next chunk is unaffected and its lines carry
    // the next index.
    let mut s = LiveSession::new(5, 16000);
    s.start();
    s.on_audio_block(&vec![1; 80000], 1);
    let c0 = s.begin_chunk().expect("first chunk");
    let lines0 = s.commit_chunk(c0.len(), &ChunkOutcome::EngineFailed);
    assert_eq!(lines0.len(), 0);
    // Nothing is waiting now: the failed chunk was consumed.
    assert!(s.begin_chunk().is_none());
    s.on_audio_block(&vec![2; 80000], 1);
    let c1 = s.begin_chunk().expect("second chunk");
    let lines1 = s.commit_chunk(c1.len(), &ChunkOutcome::Transcribed(vec![got(0, 100, "next")]));
    // Chunk index 1: global times start at 1 * 5 s.
    assert_eq!(lines1, vec!["[00:05 - 00:06] next\n".to_string()]);
}

#[test]
fn stop_makes_callback_drop_audio() {
    let mut s = LiveSession::new(5, 16000);
    s.start();
    s.on_audio_block(&vec![1; 500], 1);
    s.request_stop();
    // Blocks arriving after the stop request are dropped.
    s.on_audio_block(&vec![9; 500], 1);
    let rest = s.drain_take();
    assert_eq!(rest, vec![1; 500]);
}

#[test]
fn callback_downmixes_interleaved_blocks() {
    let mut s = LiveSession::new(1, 16000);
    s.start();
    // Two-channel interleaved frames are averaged to mono.
    s.on_audio_block(&vec![10, 20, 30, 50], 2);
    s.request_stop();
    let rest = s.drain_take();
    assert_eq!(rest, vec![15, 40]);
}

#[test]
fn drain_after_partial_dispatch_takes_only_the_tail() {
    // A full chunk is consumed, more audio arrives, the stop comes: the
    // drain must hand out exactly the unconsumed tail, once.
    let mut s = LiveSession::new(1, 16000);
    s.start();
    s.on_audio_block(&vec![5; 16000], 1);
    let c = s.begin_chunk().expect("one chunk");
    s.commit_chunk(c.len(), &ChunkOutcome::EngineFailed);
    s.on_audio_block(&vec![6; 300], 1);
    s.request_stop();
    let rest = s.drain_take();
    assert_eq!(rest, vec![6; 300]);
}

#[test]
fn buffer_cursor_and_tail() {
    let mut b = StreamingBuffer::new();
    b.append(&vec![1, 2, 3, 4, 5]);
    assert_eq!(b.available(), 5);
    // Below the threshold nothing is taken.
    assert!(b.snapshot_tail(6).is_none());
    let tail = b.snapshot_tail(5).expect("exactly at the threshold");
    assert_eq!(tail, vec![1, 2, 3, 4, 5]);
    b.advance_cursor(2);
    assert_eq!(b.available(), 3);
    let rest = b.take_rest();
    assert_eq!(rest, vec![3, 4, 5]);
    // A second take returns nothing: the drain takes each sample once.
    let again = b.take_rest();
    assert_eq!(again.len(), 0);
}

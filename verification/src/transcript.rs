//! The timestamp merger and the transcript's text form: engine-relative
//! centisecond timestamps of one chunk are turned into transcript-global
//! seconds from the chunk's index, and each segment becomes one
//! `[MM:SS - MM:SS] text` line. The session header and footer carry a
//! wall-clock stamp taken from the system clock.

use vstd::prelude::*;
use vstd::string::StringExecFns;
use vstd::arithmetic::div_mod::lemma_div_pos_is_pos;
use vstd::arithmetic::div_mod::lemma_mod_division_less_than_divisor;
use vstd::arithmetic::mul::lemma_mul_inequality;
use crate::arith::lemma_div_below_multiple;

verus! {

/// One timestamped phrase returned by the recognition engine for a chunk,
/// its times in hundredths of a second from the chunk's first sample.
pub struct Segment {
    pub start_centis: u64,
    pub end_centis: u64,
    pub text: String,
}

/// One engine segment as retrieved: the engine reported a segment count,
/// but fetching a single segment's text or times can still fail, and such
/// a failure must not cost the chunk its other segments.
pub enum SegmentFetch {
    Got(Segment),
    Missing,
}

/// Transcript-global time of a chunk-relative timestamp, in whole
/// seconds: chunk `k` is assumed to begin `k * chunk_seconds` into the
/// session, and the centisecond offset is floored to seconds. The
/// assumption is deliberate and known to drift: a tick that found too
/// little audio consumes no index, yet every index is still counted as a
/// full chunk of elapsed time, so timestamps lag real time from the
/// first skipped tick on.
pub open spec fn global_seconds_spec(k: int, chunk_seconds: int, centis: int) -> int {
    k * chunk_seconds + centis / 100
}

pub fn global_seconds(k: u64, chunk_seconds: u64, centis: u64) -> (r: u128)
    ensures
        r == global_seconds_spec(k as int, chunk_seconds as int, centis as int),
{
    proof {
        assert((k as int) * (chunk_seconds as int) + (centis as int) / 100 < u128::MAX)
            by (nonlinear_arith)
            requires
                0 <= k < 0x1_0000_0000_0000_0000,
                0 <= chunk_seconds < 0x1_0000_0000_0000_0000,
                0 <= centis < 0x1_0000_0000_0000_0000;
        lemma_div_pos_is_pos(centis as int, 100);
    }
    (k as u128) * (chunk_seconds as u128) + (centis as u128) / 100
}

/// The character for one decimal digit.
pub open spec fn digit_char(d: int) -> char {
    if d == 0 { '0' }
    else if d == 1 { '1' }
    else if d == 2 { '2' }
    else if d == 3 { '3' }
    else if d == 4 { '4' }
    else if d == 5 { '5' }
    else if d == 6 { '6' }
    else if d == 7 { '7' }
    else if d == 8 { '8' }
    else { '9' }
}

/// Decimal rendering of a nonnegative number, most significant digit
/// first, without leading zeros (a lone zero for zero itself).
pub open spec fn dec_chars(n: int) -> Seq<char>
    decreases n,
{
    if n < 10 {
        seq![digit_char(n)]
    } else {
        dec_chars(n / 10) + seq![digit_char(n % 10)]
    }
}

/// Decimal rendering padded on the left to at least two digits.
pub open spec fn two_pad_chars(n: int) -> Seq<char> {
    if n < 10 {
        seq!['0'] + dec_chars(n)
    } else {
        dec_chars(n)
    }
}

/// A whole-second time as `MM:SS`; minutes keep all their digits when
/// they pass two.
pub open spec fn mmss_chars(secs: int) -> Seq<char> {
    two_pad_chars(secs / 60) + seq![':'] + two_pad_chars(secs % 60)
}

/// One transcript line: both times in `MM:SS` form between brackets,
/// then the segment's text, then a line break.
pub open spec fn line_chars(gs: int, ge: int, text: Seq<char>) -> Seq<char> {
    seq!['['] + mmss_chars(gs) + seq![' ', '-', ' '] + mmss_chars(ge) + seq![']', ' ']
        + text + seq!['\n']
}

fn push_digit(out: &mut String, d: u128)
    requires
        d < 10,
    ensures
        final(out)@ == old(out)@ + seq![digit_char(d as int)],
{
    let s: &str = if d == 0 { "0" }
        else if d == 1 { "1" }
        else if d == 2 { "2" }
        else if d == 3 { "3" }
        else if d == 4 { "4" }
        else if d == 5 { "5" }
        else if d == 6 { "6" }
        else if d == 7 { "7" }
        else if d == 8 { "8" }
        else { "9" };
    proof {
        reveal_strlit("0");
        reveal_strlit("1");
        reveal_strlit("2");
        reveal_strlit("3");
        reveal_strlit("4");
        reveal_strlit("5");
        reveal_strlit("6");
        reveal_strlit("7");
        reveal_strlit("8");
        reveal_strlit("9");
        assert(s@ =~= seq![digit_char(d as int)]);
    }
    out.append(s);
}

fn push_decimal(out: &mut String, n: u128)
    ensures
        final(out)@ == old(out)@ + dec_chars(n as int),
    decreases n,
{
    if n < 10 {
        push_digit(out, n);
    } else {
        push_decimal(out, n / 10);
        let d: u128 = n % 10;
        proof {
            lemma_mod_division_less_than_divisor(n as int, 10);
        }
        push_digit(out, d);
        proof {
            assert(final(out)@ =~= old(out)@ + dec_chars(n as int));
        }
    }
}

fn push_two_pad(out: &mut String, n: u128)
    ensures
        final(out)@ == old(out)@ + two_pad_chars(n as int),
{
    if n < 10 {
        proof {
            reveal_strlit("0");
            assert("0"@ =~= seq!['0']);
        }
        out.append("0");
        push_decimal(out, n);
        proof {
            assert(final(out)@ =~= old(out)@ + two_pad_chars(n as int));
        }
    } else {
        push_decimal(out, n);
    }
}

fn push_mmss(out: &mut String, secs: u128)
    ensures
        final(out)@ == old(out)@ + mmss_chars(secs as int),
{
    let minutes: u128 = secs / 60;
    let rest: u128 = secs % 60;
    push_two_pad(out, minutes);
    proof {
        reveal_strlit(":");
        assert(":"@ =~= seq![':']);
    }
    out.append(":");
    push_two_pad(out, rest);
    proof {
        assert(final(out)@ =~= old(out)@ + mmss_chars(secs as int));
    }
}

/// What `str::trim` leaves of a text: the text without its leading and
/// trailing whitespace.
pub uninterp spec fn trimmed_of(s: Seq<char>) -> Seq<char>;

/// Relies on str::trim: whitespace is stripped from both ends only, the
/// result depending on the characters alone; an empty text stays empty.
#[verifier::external_body]
fn trim_text(s: &str) -> (r: String)
    ensures
        r@ == trimmed_of(s@),
        r@.len() <= s@.len(),
        s@.len() == 0 ==> r@.len() == 0,
{
    s.trim().to_owned()
}

/// Renders one transcript line from already-global times and the raw
/// engine text, which is trimmed as the engine pads it with spaces.
pub fn render_line(global_start: u128, global_end: u128, text: &str) -> (r: String)
    ensures
        r@ == line_chars(global_start as int, global_end as int, trimmed_of(text@)),
{
    let mut out = String::new();
    proof {
        reveal_strlit("[");
        assert("["@ =~= seq!['[']);
        reveal_strlit(" - ");
        assert(" - "@ =~= seq![' ', '-', ' ']);
        reveal_strlit("] ");
        assert("] "@ =~= seq![']', ' ']);
        reveal_strlit("\n");
        assert("\n"@ =~= seq!['\n']);
    }
    out.append("[");
    push_mmss(&mut out, global_start);
    out.append(" - ");
    push_mmss(&mut out, global_end);
    out.append("] ");
    let trimmed = trim_text(text);
    out.append(trimmed.as_str());
    out.append("\n");
    proof {
        assert(out@ =~= line_chars(
            global_start as int, global_end as int, trimmed_of(text@)));
    }
    out
}

/// The lines that a chunk's retrieved segments merge to: every segment
/// that was fetched becomes one line with its times made global from the
/// chunk index `k`; a segment whose retrieval failed is skipped and costs
/// the others nothing.
pub open spec fn merged_chars(k: int, chunk_seconds: int, segs: Seq<SegmentFetch>) -> Seq<Seq<char>>
    decreases segs.len(),
{
    if segs.len() == 0 {
        Seq::empty()
    } else {
        let head = match segs[0] {
            SegmentFetch::Got(seg) => seq![
                line_chars(
                    global_seconds_spec(k, chunk_seconds, seg.start_centis as int),
                    global_seconds_spec(k, chunk_seconds, seg.end_centis as int),
                    trimmed_of(seg.text@),
                )
            ],
            SegmentFetch::Missing => Seq::empty(),
        };
        head + merged_chars(k, chunk_seconds, segs.skip(1))
    }
}

/// Merges the segments of chunk `k` into transcript lines, in the order
/// the engine returned them.
pub fn merge_segments(k: u64, chunk_seconds: u64, segs: &Vec<SegmentFetch>) -> (lines: Vec<String>)
    ensures
        lines@.len() == merged_chars(k as int, chunk_seconds as int, segs@).len(),
        forall|i: int| 0 <= i < lines@.len()
            ==> lines@[i]@ == merged_chars(k as int, chunk_seconds as int, segs@)[i],
{
    let ghost all = merged_chars(k as int, chunk_seconds as int, segs@);
    let mut lines: Vec<String> = Vec::new();
    let mut i: usize = 0;
    proof {
        lemma_merged_prefix(k as int, chunk_seconds as int, segs@, 0);
    }
    while i < segs.len()
        invariant
            i <= segs@.len(),
            all == merged_chars(k as int, chunk_seconds as int, segs@),
            lines@.len() == merged_chars(k as int, chunk_seconds as int, segs@.take(i as int)).len(),
            forall|t: int| 0 <= t < lines@.len()
                ==> lines@[t]@ == merged_chars(k as int, chunk_seconds as int, segs@.take(i as int))[t],
        decreases segs@.len() - i,
    {
        match &segs[i] {
            SegmentFetch::Got(seg) => {
                let gs = global_seconds(k, chunk_seconds, seg.start_centis);
                let ge = global_seconds(k, chunk_seconds, seg.end_centis);
                let line = render_line(gs, ge, seg.text.as_str());
                lines.push(line);
            }
            SegmentFetch::Missing => {
            }
        }
        proof {
            lemma_merged_take_step(k as int, chunk_seconds as int, segs@, i as int);
        }
        i = i + 1;
    }
    proof {
        assert(segs@.take(segs@.len() as int) =~= segs@);
    }
    lines
}

/// Unrolls `merged_chars` one element at a time over a growing prefix.
proof fn lemma_merged_take_step(k: int, chunk_seconds: int, segs: Seq<SegmentFetch>, i: int)
    requires
        0 <= i < segs.len(),
    ensures
        merged_chars(k, chunk_seconds, segs.take(i + 1))
            == merged_chars(k, chunk_seconds, segs.take(i))
                + (match segs[i] {
                    SegmentFetch::Got(seg) => seq![
                        line_chars(
                            global_seconds_spec(k, chunk_seconds, seg.start_centis as int),
                            global_seconds_spec(k, chunk_seconds, seg.end_centis as int),
                            trimmed_of(seg.text@),
                        )
                    ],
                    SegmentFetch::Missing => Seq::empty(),
                }),
    decreases i,
{
    if i == 0 {
        assert(segs.take(0) =~= Seq::<SegmentFetch>::empty());
        assert(segs.take(1).skip(1) =~= Seq::<SegmentFetch>::empty());
        assert(merged_chars(k, chunk_seconds, segs.take(1))
            =~= merged_chars(k, chunk_seconds, segs.take(0))
                + (match segs[0] {
                    SegmentFetch::Got(seg) => seq![
                        line_chars(
                            global_seconds_spec(k, chunk_seconds, seg.start_centis as int),
                            global_seconds_spec(k, chunk_seconds, seg.end_centis as int),
                            trimmed_of(seg.text@),
                        )
                    ],
                    SegmentFetch::Missing => Seq::<Seq<char>>::empty(),
                }));
    } else {
        lemma_merged_take_step(k, chunk_seconds, segs.skip(1), i - 1);
        assert(segs.take(i + 1).skip(1) =~= segs.skip(1).take(i));
        assert(segs.take(i).skip(1) =~= segs.skip(1).take(i - 1));
        assert(segs.take(i + 1)[0] == segs[0]);
        assert(segs.take(i)[0] == segs[0]);
        assert(segs.skip(1)[i - 1] == segs[i]);
    }
}

proof fn lemma_merged_prefix(k: int, chunk_seconds: int, segs: Seq<SegmentFetch>, i: int)
    requires
        0 <= i <= segs.len(),
    ensures
        merged_chars(k, chunk_seconds, segs.take(0)).len() == 0,
{
    assert(segs.take(0) =~= Seq::<SegmentFetch>::empty());
}

/// A list of lines as one text, in order.
pub open spec fn joined_chars(lines: Seq<Seq<char>>) -> Seq<char>
    decreases lines.len(),
{
    if lines.len() == 0 {
        Seq::empty()
    } else {
        lines[0] + joined_chars(lines.skip(1))
    }
}

proof fn lemma_joined_take_step(lines: Seq<Seq<char>>, i: int)
    requires
        0 <= i < lines.len(),
    ensures
        joined_chars(lines.take(i + 1)) == joined_chars(lines.take(i)) + lines[i],
    decreases i,
{
    if i == 0 {
        assert(lines.take(0) =~= Seq::<Seq<char>>::empty());
        assert(lines.take(1).skip(1) =~= Seq::<Seq<char>>::empty());
        assert(joined_chars(lines.take(1)) =~= joined_chars(lines.take(0)) + lines[0]);
        assert(Seq::<char>::empty() + lines[0] =~= lines[0]);
    } else {
        lemma_joined_take_step(lines.skip(1), i - 1);
        assert(lines.take(i + 1).skip(1) =~= lines.skip(1).take(i));
        assert(lines.take(i).skip(1) =~= lines.skip(1).take(i - 1));
        assert(lines.take(i + 1)[0] == lines[0]);
        assert(lines.take(i)[0] == lines[0]);
        assert(lines.skip(1)[i - 1] == lines[i]);
        assert(lines[0] + (joined_chars(lines.skip(1).take(i - 1)) + lines[i])
            =~= (lines[0] + joined_chars(lines.skip(1).take(i - 1))) + lines[i]);
    }
}

/// The one-shot transcript of a whole recording taken as a single chunk
/// at index zero: every retrieved segment's line, in engine order, as
/// one text, each time the engine's own offset floored to seconds.
pub fn render_file_transcript(segs: &Vec<SegmentFetch>) -> (r: String)
    ensures
        r@ == joined_chars(merged_chars(0, 1, segs@)),
{
    let lines = merge_segments(0, 1, segs);
    let ghost all = merged_chars(0, 1, segs@);
    let mut out = String::new();
    let mut i: usize = 0;
    proof {
        assert(all.take(0) =~= Seq::<Seq<char>>::empty());
    }
    while i < lines.len()
        invariant
            i <= lines@.len(),
            all == merged_chars(0, 1, segs@),
            lines@.len() == all.len(),
            forall|t: int| 0 <= t < lines@.len() ==> lines@[t]@ == all[t],
            out@ == joined_chars(all.take(i as int)),
        decreases lines@.len() - i,
    {
        out.append(lines[i].as_str());
        proof {
            lemma_joined_take_step(all, i as int);
        }
        i = i + 1;
    }
    proof {
        assert(all.take(all.len() as int) =~= all);
    }
    out
}

/// Ordering law of the timestamp merge: a segment of an earlier chunk
/// never starts later, in global seconds, than any segment of a later
/// chunk, as long as the earlier segment's offset stays within its own
/// chunk's span.
pub proof fn lemma_global_seconds_monotone(
    k1: int, k2: int, chunk_seconds: int, centis1: int, centis2: int,
)
    requires
        0 <= k1 < k2,
        0 < chunk_seconds,
        0 <= centis1 <= 100 * chunk_seconds,
        0 <= centis2,
    ensures
        global_seconds_spec(k1, chunk_seconds, centis1)
            <= global_seconds_spec(k2, chunk_seconds, centis2),
{
    assert(centis1 <= chunk_seconds * 100) by (nonlinear_arith)
        requires centis1 <= 100 * chunk_seconds;
    lemma_div_below_multiple(centis1, chunk_seconds, 100);
    assert(k1 * chunk_seconds + chunk_seconds == (k1 + 1) * chunk_seconds) by (nonlinear_arith);
    lemma_mul_inequality(k1 + 1, k2, chunk_seconds);
    lemma_div_pos_is_pos(centis2, 100);
}

/// Relies on chrono::Local::now, formatted to a human-readable local
/// timestamp; the result depends on the clock, so nothing is promised
/// of it.
#[verifier::external_body]
fn now_stamp() -> String {
    chrono::Local::now().format("%Y-%m-%d %H:%M:%S").to_string()
}

/// The session header around a wall-clock stamp.
pub open spec fn header_chars(stamp: Seq<char>) -> Seq<char> {
    "Meeting Minutes - Live Transcription\nStarted: "@ + stamp + "\n\n"@
}

/// The session footer around a wall-clock stamp.
pub open spec fn footer_chars(stamp: Seq<char>) -> Seq<char> {
    "\nEnded: "@ + stamp + "\n"@
}

/// Builds the header text around the given stamp.
pub fn render_header(stamp: &str) -> (r: String)
    ensures
        r@ == header_chars(stamp@),
{
    let mut out = String::from_str("Meeting Minutes - Live Transcription\nStarted: ");
    out.append(stamp);
    out.append("\n\n");
    out
}

/// Builds the footer text around the given stamp.
pub fn render_footer(stamp: &str) -> (r: String)
    ensures
        r@ == footer_chars(stamp@),
{
    let mut out = String::from_str("\nEnded: ");
    out.append(stamp);
    out.append("\n");
    out
}

/// The header for a session starting now: the clock's stamp, whatever it
/// reads, in the header form.
pub fn session_header() -> (r: String)
    ensures
        exists|stamp: Seq<char>| r@ == header_chars(stamp),
{
    let stamp = now_stamp();
    let r = render_header(stamp.as_str());
    proof {
        assert(r@ == header_chars(stamp@));
    }
    r
}

/// The footer for a session ending now.
pub fn session_footer() -> (r: String)
    ensures
        exists|stamp: Seq<char>| r@ == footer_chars(stamp),
{
    let stamp = now_stamp();
    let r = render_footer(stamp.as_str());
    proof {
        assert(r@ == footer_chars(stamp@));
    }
    r
}

} // verus!

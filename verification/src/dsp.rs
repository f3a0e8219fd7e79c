//! Pure signal processing: rate conversion by linear interpolation and
//! downmixing of interleaved multi-channel frames to mono. Samples are
//! fixed-point amplitudes held in `i32`.

use vstd::prelude::*;
use vstd::arithmetic::div_mod::lemma_fundamental_div_mod;
use vstd::arithmetic::mul::lemma_mul_inequality;
use crate::arith::floor_div_i64;
use crate::arith::lemma_div_stays_in_range;
use crate::arith::lemma_mul_div_exact;
use crate::arith::lemma_div_mono;

verus! {

/// Linear interpolation between `a` and `b` at the fraction `num / den`,
/// floored: the weighted mean `(a * (den - num) + b * num) / den`.
pub open spec fn lerp_spec(a: int, b: int, num: int, den: int) -> int {
    (a * (den - num) + b * num) / den
}

/// Length of the output of rate conversion: unchanged when the rates are
/// equal, otherwise `floor(len * to / from)`.
pub open spec fn resample_len(len: int, from: int, to: int) -> int {
    if from == to {
        len
    } else {
        len * to / from
    }
}

/// Value at output index `i` of converting `s` from rate `from` to rate
/// `to`: the source position `i * from / to` is split into a whole index
/// and a fractional part, and the two neighbouring samples are blended;
/// at the tail, where no right neighbour exists, the last sample stands.
pub open spec fn resample_at(s: Seq<i32>, from: int, to: int, i: int) -> int {
    let t = i * from;
    let idx = t / to;
    let num = t % to;
    if idx + 1 < s.len() {
        lerp_spec(s[idx] as int, s[idx + 1] as int, num, to)
    } else {
        s[idx] as int
    }
}

/// Sum of `s[lo .. hi]` as an unbounded integer.
pub open spec fn sum_range(s: Seq<i32>, lo: int, hi: int) -> int
    decreases hi - lo,
{
    if lo >= hi {
        0
    } else {
        sum_range(s, lo, hi - 1) + s[hi - 1]
    }
}

/// Number of frames that `len` interleaved values make at `c` values per
/// frame, a trailing partial frame counted: `ceil(len / c)`.
pub open spec fn frame_count(len: int, c: int) -> int {
    (len + c - 1) / c
}

/// Mono value of frame `j`: the floored mean over the frame's channel
/// values, a trailing partial frame still divided by the full channel
/// count, as a capture block that ends mid-frame is averaged.
pub open spec fn frame_mean(s: Seq<i32>, c: int, j: int) -> int {
    let lo = j * c;
    let hi = if lo + c <= s.len() { lo + c } else { s.len() as int };
    sum_range(s, lo, hi) / c
}

/// The whole output of rate conversion as one sequence.
pub open spec fn resample_spec(s: Seq<i32>, from: int, to: int) -> Seq<i32> {
    Seq::new(
        resample_len(s.len() as int, from, to) as nat,
        |i: int| resample_at(s, from, to, i) as i32,
    )
}

/// The whole output of downmixing as one sequence.
pub open spec fn downmix_spec(s: Seq<i32>, c: int) -> Seq<i32> {
    Seq::new(frame_count(s.len() as int, c) as nat, |j: int| frame_mean(s, c, j) as i32)
}

/// Every output index of a rate conversion reads a source index that is
/// in bounds: for `i < floor(len * to / from)`, `i * from / to < len`.
proof fn lemma_src_index_in_bounds(len: int, from: int, to: int, i: int)
    requires
        0 < from,
        0 < to,
        0 <= i < len * to / from,
    ensures
        0 < len,
        0 <= i * from / to < len,
        0 <= i * from,
        i * from < len * to,
{
    assert(0 <= i * from) by (nonlinear_arith)
        requires 0 <= i && 0 < from;
    // From i < len*to/from: (i+1)*from <= (len*to/from)*from <= len*to.
    lemma_fundamental_div_mod(len * to, from);
    assert((len * to / from) * from <= len * to) by (nonlinear_arith)
        requires 0 < from && len * to == from * (len * to / from) + (len * to) % from && 0 <= (len * to) % from;
    lemma_mul_inequality(i + 1, len * to / from, from);
    assert((i + 1) * from <= len * to);
    assert(i * from <= len * to - from) by (nonlinear_arith)
        requires (i + 1) * from <= len * to;
    // Hence i*from/to <= (len*to - 1)/to == len - 1.
    lemma_div_mono(i * from, len * to - 1, to);
    assert(len * to - 1 == (len - 1) * to + (to - 1)) by (nonlinear_arith);
    vstd::arithmetic::div_mod::lemma_fundamental_div_mod_converse_div(
        len * to - 1, to, len - 1, to - 1);
    assert(i * from / to <= len - 1);
    vstd::arithmetic::div_mod::lemma_div_pos_is_pos(i * from, to);
    // A positive output length forces a nonempty input.
    assert(0 < len) by (nonlinear_arith)
        requires 0 < len * to / from && 0 < from && 0 < to;
}

/// Converts `samples` from `from_rate` to `to_rate` by linear
/// interpolation. Equal rates give the input back unchanged (the identity
/// law); unequal rates give exactly `floor(len * to / from)` output
/// values, each the blend of the two source samples around its source
/// position.
pub fn resample(samples: &Vec<i32>, from_rate: u32, to_rate: u32) -> (out: Vec<i32>)
    requires
        0 < from_rate,
        0 < to_rate,
        samples@.len() * (to_rate as int) < 0x8000_0000_0000_0000,
        resample_len(samples@.len() as int, from_rate as int, to_rate as int) <= usize::MAX,
    ensures
        out@.len() == resample_len(samples@.len() as int, from_rate as int, to_rate as int),
        from_rate == to_rate ==> out@ == samples@,
        forall|i: int| 0 <= i < out@.len()
            ==> out@[i] as int == resample_at(samples@, from_rate as int, to_rate as int, i),
        out@ == resample_spec(samples@, from_rate as int, to_rate as int),
{
    let ghost s = samples@;
    let ghost fromi = from_rate as int;
    let ghost toi = to_rate as int;
    if from_rate == to_rate {
        let mut out: Vec<i32> = Vec::new();
        let mut i: usize = 0;
        while i < samples.len()
            invariant
                i <= samples@.len(),
                out@ == s.subrange(0, i as int),
                s == samples@,
            decreases samples@.len() - i,
        {
            out.push(samples[i]);
            i = i + 1;
            proof {
                assert(out@ =~= s.subrange(0, i as int));
            }
        }
        proof {
            assert(out@ =~= s);
            assert forall|i: int| 0 <= i < out@.len()
                implies out@[i] as int == resample_at(s, fromi, toi, i) by {
                lemma_src_eq_rate(s, fromi, i);
            }
            assert(out@ =~= resample_spec(s, fromi, toi));
        }
        out
    } else {
        let len64: u64 = samples.len() as u64;
        let new_len64: u64 = len64 * (to_rate as u64) / (from_rate as u64);
        let new_len: usize = new_len64 as usize;
        proof {
            assert(new_len64 == s.len() * toi / fromi);
        }
        let mut out: Vec<i32> = Vec::new();
        let mut i: usize = 0;
        while i < new_len
            invariant
                s == samples@,
                fromi == from_rate as int,
                toi == to_rate as int,
                0 < fromi,
                0 < toi,
                fromi != toi,
                s.len() * toi < 0x8000_0000_0000_0000,
                new_len == s.len() * toi / fromi,
                i <= new_len,
                out@.len() == i,
                forall|j: int| 0 <= j < i ==> out@[j] as int == resample_at(s, fromi, toi, j),
            decreases new_len - i,
        {
            proof {
                lemma_src_index_in_bounds(s.len() as int, fromi, toi, i as int);
            }
            let sl: usize = samples.len();
            let t: u64 = (i as u64) * (from_rate as u64);
            let idx64: u64 = t / (to_rate as u64);
            let num: u64 = t % (to_rate as u64);
            proof {
                assert(t == (i as int) * fromi);
                assert(idx64 == (i as int) * fromi / toi);
                assert(idx64 < sl as u64);
            }
            let idx: usize = idx64 as usize;
            proof {
                assert(idx == (i as int) * fromi / toi);
                assert(num == (i as int) * fromi % toi);
                assert(idx < s.len());
                vstd::arithmetic::div_mod::lemma_mod_division_less_than_divisor(
                    (i as int) * fromi, toi);
            }
            let v: i32;
            if idx + 1 < samples.len() {
                let a: i64 = samples[idx] as i64;
                let b: i64 = samples[idx + 1] as i64;
                let w: i64 = (to_rate as i64) - (num as i64);
                proof {
                    let lo: int = if a <= b { a as int } else { b as int };
                    let hi: int = if a <= b { b as int } else { a as int };
                    assert(lo * toi <= a * w + b * (num as int) <= hi * toi) by (nonlinear_arith)
                        requires
                            w == toi - num && 0 <= num < toi,
                            lo <= a <= hi && lo <= b <= hi;
                    assert(i32::MIN * toi <= a * w + b * (num as int) <= i32::MAX * toi)
                        by (nonlinear_arith)
                        requires
                            w == toi - num && 0 <= num < toi && 0 < toi <= 0xffff_ffff,
                            i32::MIN <= a <= i32::MAX && i32::MIN <= b <= i32::MAX;
                    assert(i32::MIN * toi > i64::MIN && i32::MAX * toi < i64::MAX)
                        by (nonlinear_arith)
                        requires 0 < toi <= 0xffff_ffff;
                    assert(i64::MIN < a * w < i64::MAX) by (nonlinear_arith)
                        requires
                            i32::MIN <= a <= i32::MAX && 0 <= w <= 0xffff_ffff;
                    assert(i64::MIN < b * (num as int) < i64::MAX) by (nonlinear_arith)
                        requires
                            i32::MIN <= b <= i32::MAX && 0 <= num <= 0xffff_ffff;
                }
                let numer: i64 = a * w + b * (num as i64);
                let q: i64 = floor_div_i64(numer, to_rate as u64);
                proof {
                    let lo: int = if a <= b { a as int } else { b as int };
                    let hi: int = if a <= b { b as int } else { a as int };
                    assert(lo * toi <= numer <= hi * toi) by (nonlinear_arith)
                        requires
                            numer == a * w + b * (num as int),
                            w == toi - num && 0 <= num < toi,
                            lo <= a <= hi && lo <= b <= hi;
                    lemma_div_stays_in_range(numer as int, toi, lo, hi);
                }
                v = q as i32;
            } else {
                v = samples[idx];
            }
            out.push(v);
            i = i + 1;
        }
        proof {
            assert(out@ =~= resample_spec(s, fromi, toi));
        }
        out
    }
}

/// At equal rates the source position of index `i` is `i` itself, so the
/// pointwise description of the output agrees with the input.
proof fn lemma_src_eq_rate(s: Seq<i32>, r: int, i: int)
    requires
        0 < r,
        0 <= i < s.len(),
    ensures
        resample_at(s, r, r, i) == s[i] as int,
{
    lemma_mul_div_exact(i, r);
    vstd::arithmetic::div_mod::lemma_fundamental_div_mod_converse(i * r, r, i, 0);
    if i + 1 < s.len() {
        assert(lerp_spec(s[i] as int, s[i + 1] as int, 0, r) == s[i] as int) by {
            assert(s[i] * (r - 0) + s[i + 1] * 0 == s[i] * r) by (nonlinear_arith);
            lemma_mul_div_exact(s[i] as int, r);
        }
    }
}

/// Identity law of rate conversion: converting a sequence from a rate to
/// the same rate gives the sequence itself.
pub proof fn lemma_resample_identity(s: Seq<i32>, r: int)
    requires
        0 < r,
    ensures
        resample_len(s.len() as int, r, r) == s.len(),
        forall|i: int| 0 <= i < s.len() ==> resample_at(s, r, r, i) == s[i] as int,
{
    assert forall|i: int| 0 <= i < s.len() implies resample_at(s, r, r, i) == s[i] as int by {
        lemma_src_eq_rate(s, r, i);
    }
}

/// Length law of rate conversion: at unequal rates the output holds
/// exactly `floor(len * to / from)` samples.
pub proof fn lemma_resample_length(len: int, from: int, to: int)
    requires
        0 < from,
        0 < to,
        from != to,
    ensures
        resample_len(len, from, to) == len * to / from,
{
}

/// Downmixes interleaved frames of `channels` values each to one mono
/// sample per frame, the floored arithmetic mean of the frame's values.
/// A single channel comes back unchanged.
pub fn downmix(data: &Vec<i32>, channels: usize) -> (out: Vec<i32>)
    requires
        1 <= channels <= 0xffff,
        data@.len() + channels <= usize::MAX,
    ensures
        out@.len() == frame_count(data@.len() as int, channels as int),
        forall|j: int| 0 <= j < out@.len()
            ==> out@[j] as int == frame_mean(data@, channels as int, j),
        out@ == downmix_spec(data@, channels as int),
        channels == 1 ==> out@ == data@,
{
    let ghost s = data@;
    let ghost c = channels as int;
    let mut out: Vec<i32> = Vec::new();
    let mut pos: usize = 0;
    let mut j: usize = 0;
    proof {
        vstd::arithmetic::div_mod::lemma_basic_div(c - 1, c);
    }
    while pos < data.len()
        invariant
            s == data@,
            c == channels as int,
            s.len() + c <= usize::MAX,
            1 <= c <= 0xffff,
            pos == j * c,
            pos <= s.len() + c,
            j <= s.len(),
            out@.len() == j,
            j == (pos + c - 1) / c,
            pos >= s.len() ==> j == frame_count(s.len() as int, c),
            forall|t: int| 0 <= t < j ==> out@[t] as int == frame_mean(s, c, t),
        decreases s.len() + c - pos,
    {
        proof {
            assert(j <= j * c) by (nonlinear_arith)
                requires 0 <= j && 1 <= c;
        }
        let lo: usize = pos;
        let hi: usize = if data.len() - pos >= channels { pos + channels } else { data.len() };
        let mut k: usize = lo;
        let mut sum: i64 = 0;
        while k < hi
            invariant
                s == data@,
                c == channels as int,
                lo <= k <= hi <= s.len(),
                hi <= lo + c,
                1 <= c <= 0xffff,
                sum == sum_range(s, lo as int, k as int),
                i32::MIN * ((k - lo) as int) <= sum <= i32::MAX * ((k - lo) as int),
            decreases hi - k,
        {
            proof {
                assert(i32::MIN * ((k - lo) as int) + i32::MIN
                    == i32::MIN * ((k + 1 - lo) as int)) by (nonlinear_arith);
                assert(i32::MAX * ((k - lo) as int) + i32::MAX
                    == i32::MAX * ((k + 1 - lo) as int)) by (nonlinear_arith);
                assert(((k - lo) as int) <= 0xffff);
                assert(i32::MIN * 0xffff <= i32::MIN * ((k - lo) as int)
                    && i32::MAX * ((k - lo) as int) <= i32::MAX * 0xffff) by (nonlinear_arith)
                    requires 0 <= ((k - lo) as int) <= 0xffff;
            }
            sum = sum + (data[k] as i64);
            k = k + 1;
        }
        proof {
            assert(((hi - lo) as int) <= c);
            assert(i32::MIN * c <= i32::MIN * ((hi - lo) as int)
                && i32::MAX * ((hi - lo) as int) <= i32::MAX * c) by (nonlinear_arith)
                requires 0 <= ((hi - lo) as int) <= c && 0 < c;
            assert(i32::MIN * c > i64::MIN && i32::MAX * c < i64::MAX) by (nonlinear_arith)
                requires 0 < c <= 0xffff;
        }
        let q: i64 = floor_div_i64(sum, channels as u64);
        proof {
            lemma_div_stays_in_range(sum as int, c, i32::MIN as int, i32::MAX as int);
            assert(q == frame_mean(s, c, j as int)) by {
                assert((j * c + c <= s.len() as int) ==> hi == j * c + c);
                assert((j * c + c > s.len() as int) ==> hi == s.len());
            }
        }
        out.push(q as i32);
        proof {
            // The next frame index keeps the ceiling-count invariant.
            let p2 = pos + c;
            assert((p2 + c - 1) / c == j + 1) by {
                vstd::arithmetic::div_mod::lemma_fundamental_div_mod_converse_div(
                    (j + 1) * c + (c - 1), c, j + 1, c - 1);
                assert(p2 + c - 1 == (j + 1) * c + (c - 1)) by (nonlinear_arith)
                    requires pos == j * c && p2 == pos + c;
            }
            if p2 >= s.len() {
                lemma_div_mono(s.len() + c - 1, p2 + c - 1, c);
                lemma_div_mono(pos + c, s.len() + c - 1, c);
                assert((pos + c) / c == j + 1) by {
                    vstd::arithmetic::div_mod::lemma_fundamental_div_mod_converse_div(
                        (j + 1) * c, c, j + 1, 0);
                    assert(pos + c == (j + 1) * c) by (nonlinear_arith)
                        requires pos == j * c;
                }
                assert(frame_count(s.len() as int, c) == j + 1);
            }
        }
        pos = pos + channels;
        j = j + 1;
        proof {
            assert(pos == j * c) by (nonlinear_arith)
                requires pos == (j - 1) * c + c;
        }
    }
    proof {
        if pos == 0 {
            assert(s.len() == 0);
            assert(frame_count(0, c) == 0) by {
                vstd::arithmetic::div_mod::lemma_basic_div(c - 1, c);
            }
        }
        if c == 1 {
            assert(out@.len() == s.len()) by {
                assert(frame_count(s.len() as int, 1) == s.len()) by {
                    lemma_mul_div_exact(s.len() as int, 1);
                }
            }
            assert forall|t: int| 0 <= t < s.len() implies out@[t] == s[t] by {
                assert(out@[t] as int == frame_mean(s, 1, t));
                assert(frame_mean(s, 1, t) == s[t] as int) by {
                    assert(t * 1 == t) by (nonlinear_arith);
                    assert(sum_range(s, t, t) == 0);
                    assert(sum_range(s, t, t + 1) == s[t] as int);
                    lemma_mul_div_exact(s[t] as int, 1);
                }
            }
            assert(out@ =~= s);
        }
        assert(out@ =~= downmix_spec(s, c));
    }
    out
}

/// Sum of a constant stretch: if every value of `s[lo .. hi]` is `v`, the
/// sum over the stretch is `(hi - lo) * v`.
proof fn lemma_sum_constant(s: Seq<i32>, lo: int, hi: int, v: i32)
    requires
        0 <= lo <= hi <= s.len(),
        forall|k: int| lo <= k < hi ==> s[k] == v,
    ensures
        sum_range(s, lo, hi) == (hi - lo) * v,
    decreases hi - lo,
{
    if lo < hi {
        lemma_sum_constant(s, lo, hi - 1, v);
        assert((hi - 1 - lo) * v + v == (hi - lo) * v) by (nonlinear_arith);
    } else {
        assert((hi - lo) * v == 0) by (nonlinear_arith)
            requires hi == lo;
    }
}

/// Uniform-frame law of downmixing: a frame whose channel values are all
/// equal downmixes to that value unchanged.
pub proof fn lemma_downmix_uniform_frame(s: Seq<i32>, c: int, j: int, v: i32)
    requires
        1 <= c,
        0 <= j,
        j * c + c <= s.len(),
        forall|k: int| 0 <= k < c ==> #[trigger] s[j * c + k] == v,
    ensures
        frame_mean(s, c, j) == v,
{
    assert(0 <= j * c) by (nonlinear_arith)
        requires 0 <= j && 1 <= c;
    assert forall|k: int| j * c <= k < j * c + c implies s[k] == v by {
        assert(s[j * c + (k - j * c)] == v);
    }
    lemma_sum_constant(s, j * c, j * c + c, v);
    assert(sum_range(s, j * c, j * c + c) == c * v);
    assert(c * v == v * c) by (nonlinear_arith);
    lemma_mul_div_exact(v as int, c);
}

} // verus!

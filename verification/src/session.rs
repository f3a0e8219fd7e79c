//! The live session: the lifecycle state machine and the chunk
//! scheduler's decisions. The unverified shell owns the threads, the
//! lock, the capture stream and the recognition engine; it holds one
//! `LiveSession` behind its lock and calls in here for every decision:
//! whether a chunk is ready, what to feed the engine, and how a chunk's
//! outcome moves the cursor and the chunk index.

use vstd::prelude::*;
use crate::buffer::StreamingBuffer;
use crate::dsp::downmix;
use crate::dsp::downmix_spec;
use crate::dsp::resample;
use crate::dsp::resample_spec;
use crate::dsp::resample_len;
use crate::dsp::frame_count;
use crate::transcript::SegmentFetch;
use crate::transcript::merge_segments;
use crate::transcript::merged_chars;

verus! {

/// Where the session stands: started but not yet recording, recording,
/// stop requested, draining the leftover audio, or done.
#[derive(PartialEq, Eq, Structural, Clone, Copy, Debug)]
pub enum Phase {
    Starting,
    Recording,
    Stopping,
    Draining,
    Done,
}

/// What the recognition engine made of one dispatched chunk: its
/// segments as retrieved, or a failure of the whole chunk (engine state
/// creation or transcription), which costs that window of audio its
/// transcript but nothing else.
pub enum ChunkOutcome {
    Transcribed(Vec<SegmentFetch>),
    EngineFailed,
}

/// A live transcription session: the streaming buffer, the index of the
/// next chunk, and the lifecycle phase.
pub struct LiveSession {
    buffer: StreamingBuffer,
    chunk_index: u64,
    chunk_seconds: u64,
    capture_rate: u32,
    phase: Phase,
}

impl LiveSession {
    /// The buffer is well formed and the configuration is one the
    /// machine can hold: a positive chunk length whose sample count fits
    /// an index, and a positive capture rate.
    pub closed spec fn wf(&self) -> bool {
        &&& self.buffer.wf()
        &&& 1 <= self.chunk_seconds
        &&& self.chunk_seconds * 16000 <= usize::MAX
        &&& 0 < self.capture_rate
    }

    pub closed spec fn phase(&self) -> Phase {
        self.phase
    }

    pub closed spec fn chunk_index(&self) -> int {
        self.chunk_index as int
    }

    pub closed spec fn chunk_seconds(&self) -> int {
        self.chunk_seconds as int
    }

    pub closed spec fn capture_rate(&self) -> int {
        self.capture_rate as int
    }

    /// Every mono sample captured this session.
    pub closed spec fn all_samples(&self) -> Seq<i32> {
        self.buffer.all_samples()
    }

    /// How many leading samples chunk dispatch has consumed.
    pub closed spec fn cursor(&self) -> int {
        self.buffer.cursor()
    }

    /// The captured samples not yet dispatched to the engine.
    pub closed spec fn unprocessed(&self) -> Seq<i32> {
        self.buffer.unprocessed()
    }

    /// Samples a chunk must reach before it is dispatched: the engine's
    /// nominal rate times the chunk length.
    pub open spec fn chunk_size(&self) -> int {
        self.chunk_seconds() * 16000
    }

    /// The periodic tick takes a chunk exactly when the session is still
    /// recording and a full chunk's worth of samples is waiting.
    pub open spec fn can_take_chunk(&self) -> bool {
        self.phase() == Phase::Recording && self.unprocessed().len() >= self.chunk_size()
    }

    /// How the session's views relate: the cursor splits the captured
    /// samples, and the unprocessed part is the split's tail.
    pub proof fn lemma_views(&self)
        requires
            self.wf(),
        ensures
            0 <= self.cursor() <= self.all_samples().len(),
            self.unprocessed() == self.all_samples().subrange(
                self.cursor(), self.all_samples().len() as int),
            0 < self.chunk_size() <= usize::MAX,
    {
        self.buffer.lemma_views();
    }

    /// The phase the session is in right now.
    pub fn current_phase(&self) -> (p: Phase)
        ensures
            p == self.phase(),
    {
        self.phase
    }

    /// How many captured samples the scheduler has not consumed yet.
    pub fn pending(&self) -> (n: usize)
        requires
            self.wf(),
        ensures
            n == self.unprocessed().len(),
    {
        self.buffer.available()
    }

    /// The index the next committed chunk will carry.
    pub fn next_chunk_index(&self) -> (k: u64)
        ensures
            k == self.chunk_index(),
    {
        self.chunk_index
    }

    pub fn new(chunk_seconds: u64, capture_rate: u32) -> (s: LiveSession)
        requires
            1 <= chunk_seconds,
            chunk_seconds * 16000 <= usize::MAX,
            0 < capture_rate,
        ensures
            s.wf(),
            s.phase() == Phase::Starting,
            s.chunk_index() == 0,
            s.chunk_seconds() == chunk_seconds,
            s.capture_rate() == capture_rate,
            s.all_samples().len() == 0,
            s.cursor() == 0,
            s.unprocessed().len() == 0,
    {
        LiveSession {
            buffer: StreamingBuffer::new(),
            chunk_index: 0,
            chunk_seconds,
            capture_rate,
            phase: Phase::Starting,
        }
    }

    /// Capture and the scheduler are up: the session is recording.
    pub fn start(&mut self)
        requires
            old(self).wf(),
            old(self).phase() == Phase::Starting,
        ensures
            final(self).wf(),
            final(self).phase() == Phase::Recording,
            final(self).all_samples() == old(self).all_samples(),
            final(self).unprocessed() == old(self).unprocessed(),
            final(self).cursor() == old(self).cursor(),
            final(self).chunk_index() == old(self).chunk_index(),
            final(self).chunk_seconds() == old(self).chunk_seconds(),
            final(self).capture_rate() == old(self).capture_rate(),
    {
        self.phase = Phase::Recording;
    }

    /// The user asked to stop: the capture callback starts dropping
    /// blocks and the scheduler exits after its current tick.
    pub fn request_stop(&mut self)
        requires
            old(self).wf(),
            old(self).phase() == Phase::Recording,
        ensures
            final(self).wf(),
            final(self).phase() == Phase::Stopping,
            final(self).all_samples() == old(self).all_samples(),
            final(self).unprocessed() == old(self).unprocessed(),
            final(self).cursor() == old(self).cursor(),
            final(self).chunk_index() == old(self).chunk_index(),
            final(self).chunk_seconds() == old(self).chunk_seconds(),
            final(self).capture_rate() == old(self).capture_rate(),
    {
        self.phase = Phase::Stopping;
    }

    /// One block of raw interleaved samples from the capture callback:
    /// while the session records, the block is downmixed to mono and
    /// appended; once a stop was requested, it is dropped.
    pub fn on_audio_block(&mut self, block: &Vec<i32>, channels: usize)
        requires
            old(self).wf(),
            1 <= channels <= 0xffff,
            block@.len() + channels <= usize::MAX,
            old(self).all_samples().len() + block@.len() <= usize::MAX,
        ensures
            final(self).wf(),
            final(self).phase() == old(self).phase(),
            final(self).cursor() == old(self).cursor(),
            final(self).chunk_index() == old(self).chunk_index(),
            final(self).chunk_seconds() == old(self).chunk_seconds(),
            final(self).capture_rate() == old(self).capture_rate(),
            old(self).phase() == Phase::Recording
                ==> final(self).all_samples()
                    == old(self).all_samples() + downmix_spec(block@, channels as int),
            old(self).phase() == Phase::Recording
                ==> final(self).unprocessed()
                    == old(self).unprocessed() + downmix_spec(block@, channels as int),
            old(self).phase() != Phase::Recording
                ==> final(self).all_samples() == old(self).all_samples()
                    && final(self).unprocessed() == old(self).unprocessed(),
    {
        let is_recording = match self.phase {
            Phase::Recording => true,
            _ => false,
        };
        if is_recording {
            let mono = downmix(block, channels);
            proof {
                lemma_frames_at_most_len(block@.len() as int, channels as int);
                old(self).buffer.lemma_views();
            }
            self.buffer.append(&mono);
            proof {
                self.buffer.lemma_views();
                assert(self.buffer.unprocessed()
                    =~= old(self).buffer.unprocessed() + mono@);
            }
        }
    }

    /// The tick's first decision: if the session still records and a
    /// full chunk is waiting, a copy of every unprocessed sample is
    /// handed out; otherwise nothing is taken and nothing changes, so a
    /// tick that finds too little audio consumes no chunk index.
    pub fn begin_chunk(&self) -> (r: Option<Vec<i32>>)
        requires
            self.wf(),
        ensures
            r is Some <==> self.can_take_chunk(),
            r is Some ==> r->Some_0@ == self.unprocessed(),
    {
        let is_recording = match self.phase {
            Phase::Recording => true,
            _ => false,
        };
        if !is_recording {
            return None;
        }
        let size: u64 = self.chunk_seconds * 16000;
        self.buffer.snapshot_tail(size as usize)
    }

    /// Readies a taken chunk for the engine: resampled to the engine's
    /// 16 kHz rate when the capture rate differs, returned as it is when
    /// it matches. `None` only when the chunk is too large for the
    /// resampled length to be computed on this machine.
    pub fn prepare_chunk(&self, chunk: &Vec<i32>) -> (r: Option<Vec<i32>>)
        requires
            self.wf(),
        ensures
            r is Some <==> (chunk@.len() * 16000 < 0x8000_0000_0000_0000
                && resample_len(chunk@.len() as int, self.capture_rate(), 16000) <= usize::MAX),
            r is Some ==> r->Some_0@ == resample_spec(chunk@, self.capture_rate(), 16000),
            self.capture_rate() == 16000 && r is Some ==> r->Some_0@ == chunk@,
    {
        let len128: u128 = chunk.len() as u128;
        if len128 * 16000 >= 0x8000_0000_0000_0000u128 {
            return None;
        }
        let scaled: u64 = (chunk.len() as u64) * 16000;
        let out_len: u64 = if self.capture_rate != 16000 {
            scaled / (self.capture_rate as u64)
        } else {
            chunk.len() as u64
        };
        if out_len > (usize::MAX as u64) {
            return None;
        }
        Some(resample(chunk, self.capture_rate, 16000))
    }

    /// Books one dispatched chunk, however the engine fared: the cursor
    /// advances by the chunk's raw (pre-resample) length and the chunk
    /// index by one, identically on success and on failure, so a failed
    /// chunk is consumed and the session moves on. Only the returned
    /// lines differ: the merged transcript lines of the retrieved
    /// segments on success, none on failure.
    pub fn commit_chunk(&mut self, raw_len: usize, outcome: &ChunkOutcome) -> (lines: Vec<String>)
        requires
            old(self).wf(),
            old(self).phase() == Phase::Recording || old(self).phase() == Phase::Stopping,
            raw_len <= old(self).unprocessed().len(),
            old(self).chunk_index() < u64::MAX,
        ensures
            final(self).wf(),
            final(self).phase() == old(self).phase(),
            final(self).all_samples() == old(self).all_samples(),
            final(self).cursor() == old(self).cursor() + raw_len,
            final(self).unprocessed() == old(self).unprocessed().skip(raw_len as int),
            final(self).chunk_index() == old(self).chunk_index() + 1,
            final(self).chunk_seconds() == old(self).chunk_seconds(),
            final(self).capture_rate() == old(self).capture_rate(),
            outcome is EngineFailed ==> lines@.len() == 0,
            outcome is Transcribed ==> {
                let merged = merged_chars(
                    old(self).chunk_index(), old(self).chunk_seconds(),
                    outcome->Transcribed_0@);
                lines@.len() == merged.len()
                    && forall|i: int| 0 <= i < lines@.len() ==> lines@[i]@ == merged[i]
            },
    {
        proof {
            self.buffer.lemma_views();
        }
        let lines = match outcome {
            ChunkOutcome::Transcribed(segs) => {
                merge_segments(self.chunk_index, self.chunk_seconds, segs)
            }
            ChunkOutcome::EngineFailed => Vec::new(),
        };
        self.buffer.advance_cursor(raw_len);
        self.chunk_index = self.chunk_index + 1;
        proof {
            self.buffer.lemma_views();
            assert(self.buffer.unprocessed()
                =~= old(self).buffer.unprocessed().skip(raw_len as int));
        }
        lines
    }

    /// The drain's take: after the scheduler has exited, every remaining
    /// unprocessed sample — however few — is taken exactly once, and the
    /// cursor moves to the end, so nothing is left behind and nothing
    /// can be taken twice. The chunk index stays: the drain's lines are
    /// timestamped with the index the periodic chunks reached.
    pub fn drain_take(&mut self) -> (rest: Vec<i32>)
        requires
            old(self).wf(),
            old(self).phase() == Phase::Stopping,
        ensures
            final(self).wf(),
            final(self).phase() == Phase::Draining,
            rest@ == old(self).unprocessed(),
            final(self).all_samples() == old(self).all_samples(),
            final(self).cursor() == final(self).all_samples().len(),
            final(self).unprocessed().len() == 0,
            final(self).chunk_index() == old(self).chunk_index(),
            final(self).chunk_seconds() == old(self).chunk_seconds(),
            final(self).capture_rate() == old(self).capture_rate(),
    {
        self.phase = Phase::Draining;
        self.buffer.take_rest()
    }

    /// Merges the drain's segments with the final chunk index, carrying
    /// the periodic numbering on.
    pub fn drain_lines(&self, segs: &Vec<SegmentFetch>) -> (lines: Vec<String>)
        requires
            self.wf(),
            self.phase() == Phase::Draining,
        ensures
            ({
                let merged = merged_chars(self.chunk_index(), self.chunk_seconds(), segs@);
                lines@.len() == merged.len()
                    && forall|i: int| 0 <= i < lines@.len() ==> lines@[i]@ == merged[i]
            }),
    {
        merge_segments(self.chunk_index, self.chunk_seconds, segs)
    }

    /// The footer is written and the sink closed: the session is over.
    pub fn finish(&mut self)
        requires
            old(self).wf(),
            old(self).phase() == Phase::Draining,
        ensures
            final(self).wf(),
            final(self).phase() == Phase::Done,
            final(self).all_samples() == old(self).all_samples(),
            final(self).cursor() == old(self).cursor(),
            final(self).chunk_index() == old(self).chunk_index(),
    {
        self.phase = Phase::Done;
    }
}

/// Downmixing never yields more frames than input values, so an append
/// that had room for the raw block has room for its mono form.
proof fn lemma_frames_at_most_len(len: int, c: int)
    requires
        0 <= len,
        1 <= c,
    ensures
        frame_count(len, c) <= len,
{
    if len == 0 {
        vstd::arithmetic::div_mod::lemma_basic_div(c - 1, c);
    } else {
        assert(len + c - 1 <= len * c + (c - 1)) by (nonlinear_arith)
            requires 1 <= len && 1 <= c;
        crate::arith::lemma_div_mono(len + c - 1, len * c + (c - 1), c);
        vstd::arithmetic::div_mod::lemma_fundamental_div_mod_converse_div(
            len * c + (c - 1), c, len, c - 1);
    }
}

/// Starvation law of the scheduler: while the accumulated-but-unread
/// span stays under one chunk, no tick can take a chunk, so the cursor
/// and the chunk index stand still until the drain, which then takes the
/// whole span.
pub proof fn lemma_starved_tick_takes_nothing(s: &LiveSession)
    requires
        s.wf(),
        s.unprocessed().len() < s.chunk_size(),
    ensures
        !s.can_take_chunk(),
{
}

/// Drain-exactness law: one drain take hands out exactly the samples the
/// periodic chunks had not consumed — the processed prefix and the
/// drained tail reassemble the whole capture, with nothing duplicated
/// and nothing lost — and leaves nothing behind for a second take.
pub proof fn lemma_drain_exact(pre: &LiveSession, post: &LiveSession, rest: Seq<i32>)
    requires
        pre.wf(),
        post.wf(),
        rest == pre.unprocessed(),
        post.all_samples() == pre.all_samples(),
        post.cursor() == post.all_samples().len(),
    ensures
        pre.all_samples().subrange(0, pre.cursor()) + rest == pre.all_samples(),
        post.unprocessed().len() == 0,
{
    pre.lemma_views();
    post.lemma_views();
    assert(pre.all_samples().subrange(0, pre.cursor()) + rest =~= pre.all_samples());
}

} // verus!

//! The streaming buffer: a growing accumulator of mono samples written by
//! the capture callback, with a cursor marking how many leading samples
//! have already been dispatched to the recognition engine.

use vstd::prelude::*;

verus! {

/// Accumulated mono samples plus the count of leading samples already
/// consumed by chunk dispatch. The stored sequence only ever grows; the
/// cursor only ever advances, and never past the end.
pub struct StreamingBuffer {
    samples: Vec<i32>,
    last_processed: usize,
}

impl StreamingBuffer {
    /// The cursor never passes the end of the stored samples.
    pub closed spec fn wf(&self) -> bool {
        self.last_processed <= self.samples@.len()
    }

    /// Every sample appended since the session began.
    pub closed spec fn all_samples(&self) -> Seq<i32> {
        self.samples@
    }

    /// How many leading samples have been dispatched already.
    pub closed spec fn cursor(&self) -> int {
        self.last_processed as int
    }

    /// The samples not yet dispatched: everything from the cursor on.
    pub closed spec fn unprocessed(&self) -> Seq<i32> {
        self.samples@.subrange(self.last_processed as int, self.samples@.len() as int)
    }

    /// How the three views relate: the unprocessed part is exactly the
    /// stored samples from the cursor to the end.
    pub proof fn lemma_views(&self)
        requires
            self.wf(),
        ensures
            0 <= self.cursor() <= self.all_samples().len(),
            self.unprocessed() == self.all_samples().subrange(
                self.cursor(), self.all_samples().len() as int),
    {
    }

    pub fn new() -> (b: StreamingBuffer)
        ensures
            b.wf(),
            b.all_samples() == Seq::<i32>::empty(),
            b.cursor() == 0,
            b.unprocessed().len() == 0,
    {
        StreamingBuffer { samples: Vec::new(), last_processed: 0 }
    }

    /// How many samples are waiting between the cursor and the end.
    pub fn available(&self) -> (n: usize)
        requires
            self.wf(),
        ensures
            n == self.unprocessed().len(),
    {
        self.samples.len() - self.last_processed
    }

    /// Appends a block of mono samples at the end; the cursor stays.
    pub fn append(&mut self, block: &Vec<i32>)
        requires
            old(self).wf(),
            old(self).all_samples().len() + block@.len() <= usize::MAX,
        ensures
            final(self).wf(),
            final(self).all_samples() == old(self).all_samples() + block@,
            final(self).cursor() == old(self).cursor(),
    {
        let mut k: usize = 0;
        let ghost s0 = self.samples@;
        while k < block.len()
            invariant
                k <= block@.len(),
                s0.len() + block@.len() <= usize::MAX,
                self.samples@ == s0 + block@.subrange(0, k as int),
                self.last_processed == old(self).last_processed,
            decreases block@.len() - k,
        {
            self.samples.push(block[k]);
            k = k + 1;
            proof {
                assert(self.samples@ =~= s0 + block@.subrange(0, k as int));
            }
        }
        proof {
            assert(self.samples@ =~= s0 + block@);
        }
    }

    /// Copies out everything from the cursor to the end, but only when at
    /// least `chunk_size` samples are waiting; otherwise nothing changes
    /// and nothing is returned. Never advances the cursor itself.
    pub fn snapshot_tail(&self, chunk_size: usize) -> (r: Option<Vec<i32>>)
        requires
            self.wf(),
        ensures
            r is Some <==> self.unprocessed().len() >= chunk_size,
            r is Some ==> r->Some_0@ == self.unprocessed(),
    {
        if self.samples.len() - self.last_processed >= chunk_size {
            let mut chunk: Vec<i32> = Vec::new();
            let mut k: usize = self.last_processed;
            while k < self.samples.len()
                invariant
                    self.last_processed <= k <= self.samples@.len(),
                    chunk@ == self.samples@.subrange(self.last_processed as int, k as int),
                decreases self.samples@.len() - k,
            {
                chunk.push(self.samples[k]);
                k = k + 1;
                proof {
                    assert(chunk@ =~= self.samples@.subrange(
                        self.last_processed as int, k as int));
                }
            }
            Some(chunk)
        } else {
            None
        }
    }

    /// Moves the cursor forward by `n` consumed samples, counted at the
    /// buffer's own rate; the stored samples are untouched.
    pub fn advance_cursor(&mut self, n: usize)
        requires
            old(self).wf(),
            old(self).cursor() + n <= old(self).all_samples().len(),
        ensures
            final(self).wf(),
            final(self).all_samples() == old(self).all_samples(),
            final(self).cursor() == old(self).cursor() + n,
    {
        let end: usize = self.samples.len();
        proof {
            assert(self.last_processed + n <= end);
        }
        self.last_processed = self.last_processed + n;
    }

    /// Takes every unprocessed sample, however few, and moves the cursor
    /// to the end, so a second take returns nothing.
    pub fn take_rest(&mut self) -> (rest: Vec<i32>)
        requires
            old(self).wf(),
        ensures
            final(self).wf(),
            rest@ == old(self).unprocessed(),
            final(self).all_samples() == old(self).all_samples(),
            final(self).cursor() == final(self).all_samples().len(),
            final(self).unprocessed().len() == 0,
    {
        let mut rest: Vec<i32> = Vec::new();
        let mut k: usize = self.last_processed;
        while k < self.samples.len()
            invariant
                self.last_processed <= k <= self.samples@.len(),
                rest@ == self.samples@.subrange(self.last_processed as int, k as int),
            decreases self.samples@.len() - k,
        {
            rest.push(self.samples[k]);
            k = k + 1;
            proof {
                assert(rest@ =~= self.samples@.subrange(
                    self.last_processed as int, k as int));
            }
        }
        self.last_processed = self.samples.len();
        proof {
            assert(self.unprocessed() =~= Seq::<i32>::empty());
        }
        rest
    }
}

} // verus!

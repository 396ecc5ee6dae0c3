use vstd::prelude::*;
use std::collections::VecDeque;
use crate::config::WAVEFORM_SAMPLES;
use crate::history::last_n;

verus! {

/// The most recent `WAVEFORM_SAMPLES` input samples, for the waveform strip.
pub struct WaveformHistory<T> {
    samples: VecDeque<T>,
}

impl<T> View for WaveformHistory<T> {
    type V = Seq<T>;

    /// The stored samples, oldest first.
    closed spec fn view(&self) -> Seq<T> {
        self.samples@
    }
}

impl<T: Copy> WaveformHistory<T> {
    /// The history's internal consistency.
    pub closed spec fn wf(&self) -> bool {
        self.samples@.len() <= WAVEFORM_SAMPLES
    }

    /// An empty history.
    pub fn new() -> (h: Self)
        ensures
            h.wf(),
            h@ == Seq::<T>::empty(),
    {
        WaveformHistory { samples: VecDeque::with_capacity(WAVEFORM_SAMPLES) }
    }

    /// A history never holds more than `WAVEFORM_SAMPLES` samples.
    pub proof fn lemma_bounded(&self)
        requires
            self.wf(),
        ensures
            self@.len() <= WAVEFORM_SAMPLES,
    {
    }

    /// Number of samples held.
    pub fn len(&self) -> (n: usize)
        requires
            self.wf(),
        ensures
            n == self@.len(),
    {
        self.samples.len()
    }

    /// Forgets every sample.
    pub fn clear(&mut self)
        requires
            old(self).wf(),
        ensures
            final(self).wf(),
            final(self)@ == Seq::<T>::empty(),
    {
        self.samples.clear();
    }

    /// Appends `x` as the newest sample, dropping the oldest one when full.
    pub fn push(&mut self, x: T)
        requires
            old(self).wf(),
        ensures
            final(self).wf(),
            final(self)@ == last_n(old(self)@.push(x), WAVEFORM_SAMPLES as nat),
    {
        let ghost before = self@;
        if self.samples.len() == WAVEFORM_SAMPLES {
            let _ = self.samples.pop_front();
        }
        self.samples.push_back(x);
        assert(self@ =~= last_n(before.push(x), WAVEFORM_SAMPLES as nat));
    }

    /// Replaces the contents of `out` by the held samples, oldest first.
    pub fn copy_into(&self, out: &mut Vec<T>)
        requires
            self.wf(),
        ensures
            final(out)@ == self@,
    {
        out.clear();
        let n = self.samples.len();
        let mut i: usize = 0;
        while i < n
            invariant
                n == self@.len(),
                i <= n,
                out@ == self@.subrange(0, i as int),
            decreases n - i,
        {
            out.push(self.samples[i]);
            i = i + 1;
            assert(out@ =~= self@.subrange(0, i as int));
        }
        assert(self@.subrange(0, n as int) =~= self@);
    }
}

} // verus!

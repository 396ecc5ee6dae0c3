use vstd::prelude::*;
use crate::config::FFT_SIZE;

verus! {

/// Position in a circular buffer of `cap` slots of the `i`-th oldest of the
/// `len` most recent samples, the newest of which sits just before `write`.
pub open spec fn slot_of(write: int, len: int, i: int, cap: int) -> int {
    let start = if write >= len { write - len } else { write + cap - len };
    if start + i < cap { start + i } else { start + i - cap }
}

/// The last `n` elements of `s`, or all of `s` when it is shorter.
pub open spec fn last_n<T>(s: Seq<T>, n: nat) -> Seq<T> {
    if s.len() <= n { s } else { s.subrange(s.len() - n, s.len() as int) }
}

/// The most recent `FFT_SIZE` input samples, stored circularly.
pub struct AnalysisBuffer<T> {
    samples: Vec<T>,
    write: usize,
    len: usize,
}

impl<T> View for AnalysisBuffer<T> {
    type V = Seq<T>;

    /// The stored samples, oldest first.
    closed spec fn view(&self) -> Seq<T> {
        Seq::new(
            self.len as nat,
            |i: int| self.samples@[slot_of(self.write as int, self.len as int, i, FFT_SIZE as int)],
        )
    }
}

impl<T: Copy> AnalysisBuffer<T> {
    /// The buffer's internal consistency.
    pub closed spec fn wf(&self) -> bool {
        &&& self.samples.len() == FFT_SIZE
        &&& self.write < FFT_SIZE
        &&& self.len <= FFT_SIZE
    }

    /// An empty history whose storage is filled with `silence`.
    pub fn new(silence: T) -> (b: Self)
        ensures
            b.wf(),
            b@ == Seq::<T>::empty(),
    {
        let mut samples: Vec<T> = Vec::new();
        while samples.len() < FFT_SIZE
            invariant
                samples.len() <= FFT_SIZE,
            decreases FFT_SIZE - samples.len(),
        {
            samples.push(silence);
        }
        let b = AnalysisBuffer { samples, write: 0, len: 0 };
        assert(b@ =~= Seq::<T>::empty());
        b
    }

    /// A history never holds more than one frame.
    pub proof fn lemma_bounded(&self)
        requires
            self.wf(),
        ensures
            self@.len() <= FFT_SIZE,
    {
    }

    /// Number of samples held.
    pub fn len(&self) -> (n: usize)
        requires
            self.wf(),
        ensures
            n == self@.len(),
    {
        self.len
    }

    /// Whether a whole analysis frame is held.
    pub fn is_full(&self) -> (full: bool)
        requires
            self.wf(),
        ensures
            full == (self@.len() == FFT_SIZE),
    {
        self.len == FFT_SIZE
    }

    /// Forgets every sample.
    pub fn clear(&mut self)
        requires
            old(self).wf(),
        ensures
            final(self).wf(),
            final(self)@ == Seq::<T>::empty(),
    {
        self.write = 0;
        self.len = 0;
        assert(self@ =~= Seq::<T>::empty());
    }

    /// Appends `x` as the newest sample, dropping the oldest one when full.
    pub fn push(&mut self, x: T)
        requires
            old(self).wf(),
        ensures
            final(self).wf(),
            final(self)@ == last_n(old(self)@.push(x), FFT_SIZE as nat),
    {
        let ghost before = self@;
        let w = self.write;
        self.samples.set(w, x);
        self.write = if w + 1 == FFT_SIZE { 0 } else { w + 1 };
        if self.len < FFT_SIZE {
            self.len = self.len + 1;
        }
        proof {
            let after = self@;
            let expected = last_n(before.push(x), FFT_SIZE as nat);
            assert forall|i: int| 0 <= i < after.len() implies after[i] == expected[i] by {
                if before.len() < FFT_SIZE {
                    if i < before.len() {
                        assert(slot_of(self.write as int, self.len as int, i, FFT_SIZE as int)
                            == slot_of(w as int, before.len() as int, i, FFT_SIZE as int));
                    }
                } else {
                    if i < FFT_SIZE - 1 {
                        assert(slot_of(self.write as int, self.len as int, i, FFT_SIZE as int)
                            == slot_of(w as int, before.len() as int, i + 1, FFT_SIZE as int));
                    }
                }
            }
            assert(after =~= expected);
        }
    }

    /// Copies the held frame, oldest sample first, into `frame`.
    pub fn copy_frame(&self, frame: &mut Vec<T>)
        requires
            self.wf(),
            self@.len() == FFT_SIZE,
            old(frame).len() == FFT_SIZE,
        ensures
            final(frame)@ == self@,
    {
        let mut i: usize = 0;
        while i < FFT_SIZE
            invariant
                self.wf(),
                self@.len() == FFT_SIZE,
                frame.len() == FFT_SIZE,
                i <= FFT_SIZE,
                forall|j: int| 0 <= j < i ==> frame@[j] == self@[j],
            decreases FFT_SIZE - i,
        {
            let slot = if self.write + i < FFT_SIZE {
                self.write + i
            } else {
                self.write + i - FFT_SIZE
            };
            frame.set(i, self.samples[slot]);
            i = i + 1;
        }
        assert(frame@ =~= self@);
    }
}

} // verus!

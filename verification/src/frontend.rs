use vstd::prelude::*;
use rtrb::Consumer;
use crate::config::{FFT_HOP_SIZE, FFT_SIZE, MAX_AUDIO_BACKLOG, MAX_AUDIO_SAMPLES_PER_FRAME, WAVEFORM_SAMPLES};
use crate::history::{last_n, AnalysisBuffer};
use crate::waveform::WaveformHistory;

verus! {

/// The reading end of `rtrb`'s lock-free single-producer queue.
#[verifier::external_type_specification]
#[verifier::external_body]
#[verifier::reject_recursive_types(T)]
pub struct ExConsumer<T>(Consumer<T>);

/// The capture queue as the analysis side sees it: the reading end of the
/// lock-free queue, with a ghost record of every sample it has handed out.
#[verifier::reject_recursive_types(T)]
pub struct SampleQueue<T> {
    consumer: Consumer<T>,
    log: Ghost<Seq<T>>,
    dry: Ghost<bool>,
}

impl<T> SampleQueue<T> {
    /// Every sample taken from this queue so far, oldest first.
    pub closed spec fn taken(&self) -> Seq<T> {
        self.log@
    }

    /// Whether the last attempt to take a sample found the queue empty.
    pub closed spec fn ran_dry(&self) -> bool {
        self.dry@
    }

    /// The analysis side of a queue, from its reading end; nothing taken yet.
    pub fn new(consumer: Consumer<T>) -> (q: Self)
        ensures
            q.taken() == Seq::<T>::empty(),
            !q.ran_dry(),
    {
        SampleQueue { consumer, log: Ghost(Seq::empty()), dry: Ghost(false) }
    }

    /// `rtrb::Consumer::pop`, with its `Result` turned into an `Option`: takes
    /// the oldest queued sample when there is one. Which sample, and whether
    /// there is one, depends on the producer thread; the ghost record gains
    /// exactly the sample handed out, and notes an empty queue.
    #[verifier::external_body]
    fn pop(&mut self) -> (r: Option<T>)
        ensures
            match r {
                Some(x) => final(self).taken() == old(self).taken().push(x) && !final(self).ran_dry(),
                None => final(self).taken() == old(self).taken() && final(self).ran_dry(),
            },
    {
        self.consumer.pop().ok()
    }

    /// `rtrb::Consumer::slots`: the number of samples queued. The producer
    /// thread may add samples at any time, so nothing is claimed of it.
    #[verifier::external_body]
    fn queued(&self) -> usize {
        self.consumer.slots()
    }

    /// Throws away what is queued: takes samples until the queue is found
    /// empty (or, in the unreachable case, `usize::MAX` samples were taken),
    /// and returns how many were taken.
    pub fn discard_queued(&mut self) -> (n: usize)
        ensures
            final(self).taken().len() == old(self).taken().len() + n,
            final(self).taken().subrange(0, old(self).taken().len() as int) == old(self).taken(),
            n < usize::MAX ==> final(self).ran_dry(),
    {
        let ghost start = self.taken();
        let mut n: usize = 0;
        while n < usize::MAX
            invariant
                start == old(self).taken(),
                self.taken().len() == start.len() + n,
                self.taken().subrange(0, start.len() as int) == start,
            decreases usize::MAX - n,
        {
            let ghost before = self.taken();
            match self.pop() {
                None => {
                    return n;
                },
                Some(_) => {
                    assert(self.taken().subrange(0, start.len() as int) =~= before.subrange(
                        0,
                        start.len() as int,
                    ));
                    n = n + 1;
                },
            }
        }
        n
    }
}

/// What the analysis front end holds: the analysis history, the waveform
/// history, and the number of samples taken since the last frame.
pub struct FrontEndState<T> {
    pub history: Seq<T>,
    pub recent: Seq<T>,
    pub since: nat,
}

/// Whether taking `x` in state `s` completes an analysis frame: the history is
/// full afterwards and at least `FFT_HOP_SIZE` samples came since the last frame.
pub open spec fn frame_due<T>(s: FrontEndState<T>, x: T) -> bool {
    &&& last_n(s.history.push(x), FFT_SIZE as nat).len() == FFT_SIZE
    &&& s.since + 1 >= FFT_HOP_SIZE
}

/// The state after taking sample `x`.
pub open spec fn step<T>(s: FrontEndState<T>, x: T) -> FrontEndState<T> {
    FrontEndState {
        history: last_n(s.history.push(x), FFT_SIZE as nat),
        recent: last_n(s.recent.push(x), WAVEFORM_SAMPLES as nat),
        since: if frame_due(s, x) { 0 } else { (s.since + 1) as nat },
    }
}

/// The state after taking the samples `xs`, first to last.
pub open spec fn feed<T>(s: FrontEndState<T>, xs: Seq<T>) -> FrontEndState<T>
    decreases xs.len(),
{
    if xs.len() == 0 {
        s
    } else {
        step(feed(s, xs.drop_last()), xs.last())
    }
}

/// The state in which no sample is held.
pub open spec fn empty_state<T>() -> FrontEndState<T> {
    FrontEndState { history: Seq::empty(), recent: Seq::empty(), since: 0 }
}

/// Whether stale queued input must be thrown away before the next repaint:
/// the capture thread reported an overflow, or the queue holds more than
/// `MAX_AUDIO_BACKLOG` samples.
pub fn backlog_is_stale(overflowed: bool, queued: usize) -> (stale: bool)
    ensures
        stale == (overflowed || queued > MAX_AUDIO_BACKLOG),
{
    overflowed || queued > MAX_AUDIO_BACKLOG
}

/// Whether the input queued in `queue` is stale and must be thrown away: the
/// capture thread reported an overflow, or (asked only when it did not) the
/// queue holds more than `MAX_AUDIO_BACKLOG` samples.
pub fn stale_backlog<T>(overflowed: bool, queue: &SampleQueue<T>) -> (stale: bool)
    ensures
        overflowed ==> stale,
{
    if overflowed {
        true
    } else {
        backlog_is_stale(false, queue.queued())
    }
}

/// Keeping `last_n` twice keeps the shorter tail.
pub proof fn lemma_last_n_of_last_n<T>(s: Seq<T>, long: nat, short: nat)
    requires
        short <= long,
    ensures
        last_n(last_n(s, long), short) == last_n(s, short),
{
    assert(last_n(last_n(s, long), short) =~= last_n(s, short));
}

/// Appending then keeping a tail commutes with keeping a longer tail first.
pub proof fn lemma_last_n_push<T>(s: Seq<T>, x: T, long: nat, short: nat)
    requires
        0 < short <= long,
    ensures
        last_n(last_n(s, long).push(x), short) == last_n(s.push(x), short),
{
    let t = last_n(s, long);
    assert(last_n(t.push(x), short) =~= last_n(s.push(x), short));
}

/// The analysis history after taking `xs` holds the last `FFT_SIZE` samples of
/// the old history followed by `xs`, and the waveform the last
/// `WAVEFORM_SAMPLES` of them: each frame is the newest stretch of the samples
/// taken, in order, with nothing lost or repeated. This speaks of the samples
/// the front end was given; `AudioFrontEnd::pump` states that these are
/// exactly the samples taken from the capture queue, in order.
pub proof fn feed_keeps_newest_samples<T>(s: FrontEndState<T>, xs: Seq<T>)
    requires
        s.history.len() <= FFT_SIZE,
        s.recent.len() <= WAVEFORM_SAMPLES,
    ensures
        feed(s, xs).history == last_n(s.history + xs, FFT_SIZE as nat),
        feed(s, xs).recent == last_n(s.recent + xs, WAVEFORM_SAMPLES as nat),
    decreases xs.len(),
{
    if xs.len() == 0 {
        assert(s.history + xs =~= s.history);
        assert(s.recent + xs =~= s.recent);
    } else {
        let init = xs.drop_last();
        let x = xs.last();
        feed_keeps_newest_samples(s, init);
        lemma_last_n_push(s.history + init, x, FFT_SIZE as nat, FFT_SIZE as nat);
        lemma_last_n_push(s.recent + init, x, WAVEFORM_SAMPLES as nat, WAVEFORM_SAMPLES as nat);
        assert((s.history + init).push(x) =~= s.history + xs);
        assert((s.recent + init).push(x) =~= s.recent + xs);
    }
}

/// From a state just after a frame (full history, hop counter at zero), the
/// first `k` of the next samples complete no frame while `k < FFT_HOP_SIZE`,
/// and leave the counter at `k`.
#[verifier::spinoff_prover]
pub proof fn lemma_hop_count<T>(s: FrontEndState<T>, xs: Seq<T>, k: int)
    requires
        s.history.len() == FFT_SIZE,
        s.since == 0,
        0 <= k < FFT_HOP_SIZE,
        k <= xs.len(),
    ensures
        feed(s, xs.take(k)).since == k,
        feed(s, xs.take(k)).history.len() == FFT_SIZE,
        forall|j: int| 0 <= j < k ==> !frame_due(feed(s, xs.take(j)), #[trigger] xs[j]),
    decreases k,
{
    if k > 0 {
        lemma_hop_count(s, xs, k - 1);
        let t = xs.take(k);
        let prev = feed(s, xs.take(k - 1));
        assert(t.drop_last() =~= xs.take(k - 1));
        assert(t.last() == xs[k - 1]);
        assert(!frame_due(prev, xs[k - 1]));
        assert(feed(s, t) == step(prev, xs[k - 1]));
        assert(prev.history.push(xs[k - 1]).len() == FFT_SIZE + 1);
    } else {
        assert(xs.take(0) =~= Seq::<T>::empty());
    }
}

/// Once the history is full, frames come exactly every `FFT_HOP_SIZE`
/// samples: after a frame, the next `FFT_HOP_SIZE - 1` samples complete none
/// and the one after them completes the next frame.
pub proof fn frames_every_hop<T>(s: FrontEndState<T>, xs: Seq<T>)
    requires
        s.history.len() == FFT_SIZE,
        s.since == 0,
        xs.len() == FFT_HOP_SIZE,
    ensures
        forall|j: int| 0 <= j < FFT_HOP_SIZE - 1 ==> !frame_due(feed(s, xs.take(j)), #[trigger] xs[j]),
        frame_due(feed(s, xs.take(FFT_HOP_SIZE - 1)), xs[FFT_HOP_SIZE - 1]),
        feed(s, xs).since == 0,
{
    lemma_hop_count(s, xs, FFT_HOP_SIZE - 1);
    assert(xs.take(FFT_HOP_SIZE as int) =~= xs);
    assert(xs.take(FFT_HOP_SIZE as int).drop_last() =~= xs.take(FFT_HOP_SIZE - 1));
}

/// After a reset (or at start) frames hold only input taken since: no frame is
/// completed before `FFT_SIZE` new samples have come, and the history is
/// always the newest part of that input.
pub proof fn fresh_input_after_reset<T>(xs: Seq<T>)
    ensures
        feed(empty_state::<T>(), xs).history == last_n(xs, FFT_SIZE as nat),
        forall|k: int|
            0 <= k < xs.len() && k < FFT_SIZE - 1 ==> !frame_due(
                feed(empty_state::<T>(), xs.take(k)),
                #[trigger] xs[k],
            ),
{
    let e = empty_state::<T>();
    feed_keeps_newest_samples(e, xs);
    assert(e.history + xs =~= xs);
    assert forall|k: int| 0 <= k < xs.len() && k < FFT_SIZE - 1 implies !frame_due(feed(e, xs.take(k)), #[trigger] xs[k]) by {
        feed_keeps_newest_samples(e, xs.take(k));
        assert(e.history + xs.take(k) =~= xs.take(k));
    }
}

/// The sample path of one repaint: the analysis history, the waveform history,
/// the hop counter and the number of samples taken in this repaint.
pub struct AudioFrontEnd<T> {
    analysis: AnalysisBuffer<T>,
    waveform: WaveformHistory<T>,
    samples_since_frame: usize,
    processed: usize,
}

impl<T> View for AudioFrontEnd<T> {
    type V = FrontEndState<T>;

    closed spec fn view(&self) -> FrontEndState<T> {
        FrontEndState {
            history: self.analysis@,
            recent: self.waveform@,
            since: self.samples_since_frame as nat,
        }
    }
}

impl<T: Copy> AudioFrontEnd<T> {
    /// The front end's internal consistency. The waveform always holds the
    /// newest part of the analysis history.
    pub closed spec fn wf(&self) -> bool {
        &&& self.analysis.wf()
        &&& self.waveform.wf()
        &&& self.samples_since_frame <= self.analysis@.len()
        &&& self.analysis@.len() == FFT_SIZE ==> self.samples_since_frame < FFT_HOP_SIZE
        &&& self.waveform@ == last_n(self.analysis@, WAVEFORM_SAMPLES as nat)
        &&& self.processed <= MAX_AUDIO_SAMPLES_PER_FRAME
    }

    /// The waveform strip always shows the newest part of the analysed input.
    pub proof fn waveform_is_newest_history(&self)
        requires
            self.wf(),
        ensures
            self@.recent == last_n(self@.history, WAVEFORM_SAMPLES as nat),
            self@.history.len() <= FFT_SIZE,
    {
        self.analysis.lemma_bounded();
    }

    /// Number of samples taken from the queue in the current repaint.
    pub closed spec fn taken(&self) -> nat {
        self.processed as nat
    }

    /// An empty front end whose analysis storage is filled with `silence`.
    pub fn new(silence: T) -> (f: Self)
        ensures
            f.wf(),
            f@ == empty_state::<T>(),
            f.taken() == 0,
    {
        let f = AudioFrontEnd {
            analysis: AnalysisBuffer::new(silence),
            waveform: WaveformHistory::new(),
            samples_since_frame: 0,
            processed: 0,
        };
        assert(f.waveform@ =~= last_n(f.analysis@, WAVEFORM_SAMPLES as nat));
        f
    }

    /// Forgets all input, as after a discarded backlog.
    pub fn reset(&mut self)
        requires
            old(self).wf(),
        ensures
            final(self).wf(),
            final(self)@ == empty_state::<T>(),
            final(self).taken() == old(self).taken(),
    {
        self.analysis.clear();
        self.waveform.clear();
        self.samples_since_frame = 0;
        assert(self.waveform@ =~= last_n(self.analysis@, WAVEFORM_SAMPLES as nat));
    }

    /// Starts a repaint: no sample has been taken in it yet.
    pub fn begin_repaint(&mut self)
        requires
            old(self).wf(),
        ensures
            final(self).wf(),
            final(self)@ == old(self)@,
            final(self).taken() == 0,
    {
        self.processed = 0;
    }

    /// The waveform samples, oldest first, copied into `out`.
    pub fn copy_waveform(&self, out: &mut Vec<T>)
        requires
            self.wf(),
        ensures
            final(out)@ == self@.recent,
    {
        self.waveform.copy_into(out);
    }

    /// Number of samples in the analysis history.
    pub fn history_len(&self) -> (n: usize)
        requires
            self.wf(),
        ensures
            n == self@.history.len(),
    {
        self.analysis.len()
    }

    /// Takes one sample. When it completes an analysis frame, the frame (the
    /// last `FFT_SIZE` samples, oldest first) is written to `frame` and `true`
    /// is returned; otherwise `frame` is left as it was.
    pub fn push_sample(&mut self, x: T, frame: &mut Vec<T>) -> (ready: bool)
        requires
            old(self).wf(),
            old(frame).len() == FFT_SIZE,
        ensures
            final(self).wf(),
            final(self)@ == step(old(self)@, x),
            final(self).taken() == old(self).taken(),
            ready == frame_due(old(self)@, x),
            ready ==> final(frame)@ == final(self)@.history,
            !ready ==> final(frame)@ == old(frame)@,
            final(frame).len() == FFT_SIZE,
    {
        let ghost before = self@;
        proof {
            self.analysis.lemma_bounded();
        }
        self.analysis.push(x);
        self.waveform.push(x);
        proof {
            lemma_last_n_push(before.history, x, WAVEFORM_SAMPLES as nat, WAVEFORM_SAMPLES as nat);
            lemma_last_n_of_last_n(before.history.push(x), FFT_SIZE as nat, WAVEFORM_SAMPLES as nat);
        }
        let ready = self.analysis.is_full() && self.samples_since_frame + 1 >= FFT_HOP_SIZE;
        if ready {
            self.analysis.copy_frame(frame);
            self.samples_since_frame = 0;
        } else {
            self.samples_since_frame = self.samples_since_frame + 1;
        }
        ready
    }

    /// Takes samples from `queue` until one completes an analysis frame, the
    /// queue runs dry, or `MAX_AUDIO_SAMPLES_PER_FRAME` samples have been taken
    /// in this repaint. Returns whether a frame was completed, and the samples
    /// taken, which are exactly those the queue handed out, in order, each fed
    /// to the analysis. A completed frame is in `frame`, oldest sample first.
    pub fn pump(&mut self, queue: &mut SampleQueue<T>, frame: &mut Vec<T>) -> (res: (bool, Ghost<Seq<T>>))
        requires
            old(self).wf(),
            old(frame).len() == FFT_SIZE,
        ensures
            final(self).wf(),
            final(frame).len() == FFT_SIZE,
            ({
                let (ready, got) = res;
                let got = got@;
                &&& final(queue).taken() == old(queue).taken() + got
                &&& !ready && final(self).taken() < MAX_AUDIO_SAMPLES_PER_FRAME ==> final(queue).ran_dry()
                &&& final(self).taken() == old(self).taken() + got.len()
                &&& final(self).taken() <= MAX_AUDIO_SAMPLES_PER_FRAME
                &&& final(self)@ == feed(old(self)@, got)
                &&& forall|k: int|
                    0 <= k < got.len() && !(ready && k == got.len() - 1) ==> !frame_due(
                        feed(old(self)@, got.take(k)),
                        #[trigger] got[k],
                    )
                &&& ready ==> {
                    &&& got.len() > 0
                    &&& frame_due(feed(old(self)@, got.drop_last()), got.last())
                    &&& final(frame)@ == final(self)@.history
                }
                &&& !ready ==> final(frame)@ == old(frame)@
            }),
    {
        let ghost start = self@;
        let ghost mut popped: Seq<T> = Seq::empty();
        let ghost start_taken = self.processed as nat;
        let ghost start_frame = frame@;
        let ghost start_log = queue.taken();
        assert(popped =~= Seq::<T>::empty());
        assert(start_log + popped =~= start_log);
        while self.processed < MAX_AUDIO_SAMPLES_PER_FRAME
            invariant
                start == old(self)@,
                start_taken == old(self).taken(),
                start_frame == old(frame)@,
                start_log == old(queue).taken(),
                queue.taken() == start_log + popped,
                self.wf(),
                frame.len() == FFT_SIZE,
                frame@ == start_frame,
                self@ == feed(start, popped),
                self.processed == start_taken + popped.len(),
                forall|k: int|
                    0 <= k < popped.len() ==> !frame_due(feed(start, popped.take(k)), #[trigger] popped[k]),
            decreases MAX_AUDIO_SAMPLES_PER_FRAME - self.processed,
        {
            match queue.pop() {
                None => {
                    return (false, Ghost(popped));
                },
                Some(x) => {
                    let ghost prev = popped;
                    let ready = self.push_sample(x, frame);
                    self.processed = self.processed + 1;
                    proof {
                        popped = popped.push(x);
                        assert(start_log + popped =~= (start_log + prev).push(x));
                        assert(popped.drop_last() =~= prev);
                        assert(popped.take(prev.len() as int) =~= prev);
                        assert forall|k: int| 0 <= k < prev.len() implies popped.take(k) == prev.take(k) by {
                            assert(popped.take(k) =~= prev.take(k));
                        }
                    }
                    if ready {
                        return (true, Ghost(popped));
                    }
                },
            }
        }
        (false, Ghost(popped))
    }
}

} // verus!

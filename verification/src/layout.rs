use vstd::prelude::*;

verus! {

/// The samples `start..end` of an interleaved buffer.
#[derive(Clone, Copy, PartialEq, Eq, Debug, Structural)]
pub struct FrameRange {
    pub start: usize,
    pub end: usize,
}

/// `ranges` cuts `0..len` into consecutive audio frames of `width` samples,
/// the last of which may be shorter.
pub open spec fn is_frame_partition(ranges: Seq<FrameRange>, len: int, width: int) -> bool {
    &&& (ranges.len() == 0) == (len == 0)
    &&& ranges.len() > 0 ==> ranges[0].start == 0 && ranges.last().end == len
    &&& forall|k: int|
        0 <= k < ranges.len() ==> #[trigger] ranges[k].start < ranges[k].end && ranges[k].end
            - ranges[k].start <= width
    &&& forall|k: int|
        0 <= k < ranges.len() - 1 ==> #[trigger] ranges[k].end - ranges[k].start == width
            && ranges[k].end == ranges[k + 1].start
}

/// The frame that starts at sample `start` of an interleaved buffer of `len`
/// samples with `channels` channels (at least one): `channels` samples, or
/// what is left.
pub fn next_frame(start: usize, len: usize, channels: usize) -> (r: FrameRange)
    requires
        start < len,
    ensures
        r.start == start,
        r.end == if len - start > (if channels == 0 { 1 } else { channels as int }) {
            start + (if channels == 0 { 1 } else { channels as int })
        } else {
            len as int
        },
{
    let width = if channels == 0 { 1 } else { channels };
    let end = if len - start > width { start + width } else { len };
    FrameRange { start, end }
}

/// The frames of an interleaved buffer of `len` samples with `channels`
/// channels (at least one), in order; the last frame keeps what is left.
pub fn frame_ranges(len: usize, channels: usize) -> (ranges: Vec<FrameRange>)
    ensures
        is_frame_partition(ranges@, len as int, if channels == 0 { 1 } else { channels as int }),
{
    let width = if channels == 0 { 1 } else { channels };
    let mut ranges: Vec<FrameRange> = Vec::new();
    let mut start: usize = 0;
    while start < len
        invariant
            width >= 1,
            width == if channels == 0 { 1 } else { channels },
            start <= len,
            (ranges@.len() == 0) == (start == 0),
            ranges@.len() > 0 ==> ranges@[0].start == 0 && ranges@.last().end == start,
            forall|k: int|
                0 <= k < ranges@.len() ==> #[trigger] ranges@[k].start < ranges@[k].end
                    && ranges@[k].end - ranges@[k].start <= width,
            forall|k: int|
                0 <= k < ranges@.len() - 1 ==> #[trigger] ranges@[k].end - ranges@[k].start == width
                    && ranges@[k].end == ranges@[k + 1].start,
            ranges@.len() > 0 && start < len ==> ranges@.last().end - ranges@.last().start == width,
        decreases len - start,
    {
        let range = next_frame(start, len, channels);
        ranges.push(range);
        start = range.end;
    }
    ranges
}

/// Every sample of the buffer belongs to exactly one frame.
pub proof fn each_sample_in_one_frame(ranges: Seq<FrameRange>, len: int, width: int, i: int)
    requires
        is_frame_partition(ranges, len, width),
        0 <= i < len,
    ensures
        exists|k: int| 0 <= k < ranges.len() && #[trigger] ranges[k].start <= i < ranges[k].end,
        forall|k1: int, k2: int|
            #![trigger ranges[k1], ranges[k2]]
            0 <= k1 < ranges.len() && 0 <= k2 < ranges.len() && ranges[k1].start <= i < ranges[k1].end
                && ranges[k2].start <= i < ranges[k2].end ==> k1 == k2,
{
    lemma_starts_increase(ranges, len, width);
    lemma_holding_frame_exists(ranges, len, width, i, ranges.len() - 1);
}

/// Frame starts strictly increase and each frame ends where the next starts.
proof fn lemma_starts_increase(ranges: Seq<FrameRange>, len: int, width: int)
    requires
        is_frame_partition(ranges, len, width),
    ensures
        forall|a: int, b: int|
            #![trigger ranges[a], ranges[b]]
            0 <= a < b < ranges.len() ==> ranges[a].end <= ranges[b].start,
{
    assert forall|a: int, b: int|
        #![trigger ranges[a], ranges[b]]
        0 <= a < b < ranges.len() implies ranges[a].end <= ranges[b].start by {
        lemma_end_before(ranges, len, width, a, b);
    }
}

proof fn lemma_end_before(ranges: Seq<FrameRange>, len: int, width: int, a: int, b: int)
    requires
        is_frame_partition(ranges, len, width),
        0 <= a < b < ranges.len(),
    ensures
        ranges[a].end <= ranges[b].start,
    decreases b - a,
{
    assert(ranges[a].end == ranges[a + 1].start);
    if a + 1 < b {
        assert(ranges[a + 1].start < ranges[a + 1].end);
        lemma_end_before(ranges, len, width, a + 1, b);
    }
}

proof fn lemma_holding_frame_exists(ranges: Seq<FrameRange>, len: int, width: int, i: int, k: int)
    requires
        is_frame_partition(ranges, len, width),
        0 <= k < ranges.len(),
        ranges[0].start <= i < ranges[k].end,
    ensures
        exists|j: int| 0 <= j <= k && #[trigger] ranges[j].start <= i < ranges[j].end,
    decreases k,
{
    if ranges[k].start <= i {
        assert(ranges[k].start <= i < ranges[k].end);
    } else {
        assert(ranges[k - 1].end == ranges[k].start);
        lemma_holding_frame_exists(ranges, len, width, i, k - 1);
    }
}

/// The sample shown in screen column `x` of a waveform `width` columns wide
/// drawn from `count` samples.
pub open spec fn waveform_sample(x: int, count: int, width: int) -> int {
    x * (count - 1) / width
}

/// The sample indices shown in the `width` screen columns of the waveform
/// strip, spreading `count` samples evenly: column `x` shows sample
/// `x * (count - 1) / width`. A strip of no columns shows no sample.
pub fn waveform_sample_indices(count: usize, width: usize) -> (indices: Vec<usize>)
    requires
        count > 1,
        width * count <= usize::MAX,
    ensures
        indices@.len() == width,
        forall|x: int| 0 <= x < width ==> #[trigger] indices@[x] == waveform_sample(x, count as int, width as int),
        forall|x: int| 0 <= x < width ==> #[trigger] indices@[x] < count,
{
    let mut indices: Vec<usize> = Vec::new();
    let mut x: usize = 0;
    while x < width
        invariant
            count > 1,
            width * count <= usize::MAX,
            x <= width,
            indices@.len() == x,
            forall|j: int| 0 <= j < x ==> #[trigger] indices@[j] == waveform_sample(j, count as int, width as int),
            forall|j: int| 0 <= j < x ==> #[trigger] indices@[j] < count,
        decreases width - x,
    {
        proof {
            lemma_waveform_sample_bounds(x as int, count as int, width as int);
        }
        let i = x * (count - 1) / width;
        indices.push(i);
        x = x + 1;
    }
    indices
}

proof fn lemma_waveform_sample_bounds(x: int, count: int, width: int)
    requires
        count > 1,
        width > 0,
        0 <= x < width,
    ensures
        0 <= x * (count - 1) < width * count,
        0 <= waveform_sample(x, count, width) < count,
{
    assert(0 <= x * (count - 1) < width * count) by (nonlinear_arith)
        requires
            count > 1,
            0 <= x < width,
    ;
    assert(x * (count - 1) / width < count) by (nonlinear_arith)
        requires
            count > 1,
            width > 0,
            0 <= x < width,
    ;
    assert(0 <= x * (count - 1) / width) by (nonlinear_arith)
        requires
            count > 1,
            width > 0,
            0 <= x,
    ;
}

/// The waveform starts at the oldest sample and never goes back in time
/// from one screen column to the next.
pub proof fn waveform_columns_move_forward(x1: int, x2: int, count: int, width: int)
    requires
        count > 1,
        width > 0,
        0 <= x1 <= x2 < width,
    ensures
        waveform_sample(0, count, width) == 0,
        waveform_sample(x1, count, width) <= waveform_sample(x2, count, width),
{
    assert(x1 * (count - 1) <= x2 * (count - 1)) by (nonlinear_arith)
        requires
            count > 1,
            x1 <= x2,
    ;
    vstd::arithmetic::div_mod::lemma_div_is_ordered(x1 * (count - 1), x2 * (count - 1), width);
}

} // verus!

use vstd::prelude::*;
use crate::config::{NUM_BINS, SPEC_ROWS};

verus! {

/// One RGBA pixel.
#[derive(Clone, Copy, PartialEq, Eq, Debug, Structural)]
pub struct Rgba {
    pub r: u8,
    pub g: u8,
    pub b: u8,
    pub a: u8,
}

/// A run of consecutive image columns `start..end`.
#[derive(Clone, Copy, PartialEq, Eq, Debug, Structural)]
pub struct ColumnSpan {
    pub start: usize,
    pub end: usize,
}

/// Number of bytes of the spectrogram image.
pub open spec fn image_len() -> int {
    SPEC_ROWS * NUM_BINS * 4
}

/// Offset of the first byte of pixel (`row`, `col`); rows are `SPEC_ROWS` pixels wide.
pub open spec fn pixel_offset(row: int, col: int) -> int {
    (row * SPEC_ROWS + col) * 4
}

/// The pixel whose four bytes start at `k`.
pub open spec fn rgba_at(bytes: Seq<u8>, k: int) -> Rgba {
    Rgba { r: bytes[k], g: bytes[k + 1], b: bytes[k + 2], a: bytes[k + 3] }
}

/// Image row that shows frequency bin `bin`: the lowest bin is the last row.
pub open spec fn row_of_bin(bin: int) -> int {
    NUM_BINS - 1 - bin
}

/// The column written after column `col`.
pub open spec fn next_column(col: int) -> int {
    if col + 1 == SPEC_ROWS { 0 } else { col + 1 }
}

/// Number of columns that hold data.
pub open spec fn visible_count(col: int, filled: bool) -> int {
    if filled { SPEC_ROWS as int } else { col }
}

/// The columns that hold data, oldest first, when `col` is the next column
/// to be written.
pub open spec fn display_order(col: int, filled: bool) -> Seq<int> {
    if filled {
        Seq::new(SPEC_ROWS as nat, |i: int| if col + i < SPEC_ROWS { col + i } else { col + i - SPEC_ROWS })
    } else {
        Seq::new(col as nat, |i: int| i)
    }
}

/// The columns `start..end`, in order.
pub open spec fn span_columns(s: ColumnSpan) -> Seq<int> {
    Seq::new((s.end - s.start) as nat, |i: int| s.start + i)
}

/// The columns of `spans`, one span after the other.
pub open spec fn spans_columns(spans: Seq<ColumnSpan>) -> Seq<int>
    decreases spans.len(),
{
    if spans.len() == 0 {
        Seq::empty()
    } else {
        spans_columns(spans.drop_last()) + span_columns(spans.last())
    }
}

/// Every pixel's four bytes lie inside the image.
pub proof fn lemma_pixel_offset_bounds(row: int, col: int)
    requires
        0 <= row < NUM_BINS,
        0 <= col < SPEC_ROWS,
    ensures
        0 <= pixel_offset(row, col),
        pixel_offset(row, col) + 4 <= image_len(),
{
    assert(0 <= (row * 800 + col) * 4 && (row * 800 + col) * 4 + 4 <= 800 * 2400 * 4) by (nonlinear_arith)
        requires
            0 <= row < 2400,
            0 <= col < 800,
    ;
}

/// Distinct pixels occupy disjoint groups of four bytes.
pub proof fn lemma_pixel_offsets_apart(r1: int, c1: int, r2: int, c2: int)
    requires
        0 <= r1 < NUM_BINS,
        0 <= c1 < SPEC_ROWS,
        0 <= r2 < NUM_BINS,
        0 <= c2 < SPEC_ROWS,
        r1 != r2 || c1 != c2,
    ensures
        pixel_offset(r1, c1) + 4 <= pixel_offset(r2, c2) || pixel_offset(r2, c2) + 4 <= pixel_offset(r1, c1),
{
    assert(r1 * 800 + c1 != r2 * 800 + c2) by (nonlinear_arith)
        requires
            0 <= c1 < 800,
            0 <= c2 < 800,
            r1 != r2 || c1 != c2,
    ;
}

/// The runs of columns drawn, left to right, when `col` is the next column to
/// be written: nothing before the first frame; one run while the image is
/// filling or when the newest column is the last one; otherwise the older run
/// `col..SPEC_ROWS` followed by the newer run `0..col`.
pub open spec fn expected_spans(col: int, filled: bool) -> Seq<ColumnSpan> {
    if !filled {
        if col > 0 {
            seq![ColumnSpan { start: 0, end: col as usize }]
        } else {
            seq![]
        }
    } else if col == 0 {
        seq![ColumnSpan { start: 0, end: SPEC_ROWS }]
    } else {
        seq![ColumnSpan { start: col as usize, end: SPEC_ROWS }, ColumnSpan { start: 0, end: col as usize }]
    }
}

/// The scrolling spectrogram image: one column per analysis frame, written
/// circularly, one row per frequency bin, four bytes per pixel.
pub struct WaterfallImage {
    pos: usize,
    filled: bool,
    buffer: Vec<u8>,
    dirty: bool,
}

impl WaterfallImage {
    /// The image's internal consistency.
    pub closed spec fn wf(&self) -> bool {
        &&& self.pos < SPEC_ROWS
        &&& self.buffer.len() == image_len()
    }

    /// The column that the next frame is written to.
    pub closed spec fn column(&self) -> int {
        self.pos as int
    }

    /// Whether every column has been written since the last reset.
    pub closed spec fn is_filled(&self) -> bool {
        self.filled
    }

    /// Whether the image changed since it was last handed out for upload.
    pub closed spec fn is_dirty(&self) -> bool {
        self.dirty
    }

    /// The image bytes, row-major.
    pub closed spec fn bytes(&self) -> Seq<u8> {
        self.buffer@
    }

    /// Pixel (`row`, `col`).
    pub open spec fn pixel(&self, row: int, col: int) -> Rgba {
        rgba_at(self.bytes(), pixel_offset(row, col))
    }

    /// An all-black, transparent image with nothing written yet.
    pub fn new() -> (w: Self)
        ensures
            w.wf(),
            w.column() == 0,
            !w.is_filled(),
            !w.is_dirty(),
            w.bytes() == Seq::new(image_len() as nat, |i: int| 0u8),
    {
        let n: usize = SPEC_ROWS * NUM_BINS * 4;
        let mut buffer: Vec<u8> = Vec::new();
        while buffer.len() < n
            invariant
                n == image_len(),
                buffer.len() <= n,
                forall|i: int| 0 <= i < buffer.len() ==> buffer@[i] == 0u8,
            decreases n - buffer.len(),
        {
            buffer.push(0u8);
        }
        let w = WaterfallImage { pos: 0, filled: false, buffer, dirty: false };
        assert(w.bytes() =~= Seq::new(image_len() as nat, |i: int| 0u8));
        w
    }

    /// The column of a consistent image lies in the image.
    pub proof fn lemma_column_in_range(&self)
        requires
            self.wf(),
        ensures
            0 <= self.column() < SPEC_ROWS,
    {
    }

    /// The column that the next frame is written to.
    pub fn pos(&self) -> (c: usize)
        requires
            self.wf(),
        ensures
            c == self.column(),
    {
        self.pos
    }

    /// Whether every column has been written since the last reset.
    pub fn filled(&self) -> (f: bool)
        ensures
            f == self.is_filled(),
    {
        self.filled
    }

    /// The image bytes, row-major.
    pub fn pixels(&self) -> (p: &Vec<u8>)
        requires
            self.wf(),
        ensures
            p@ == self.bytes(),
            p@.len() == image_len(),
    {
        &self.buffer
    }

    /// Writes one frame: `colors[bin]` goes to the row of `bin` in the current
    /// column, then the column advances, wrapping around.
    pub fn push_column(&mut self, colors: &[Rgba])
        requires
            old(self).wf(),
            colors@.len() <= NUM_BINS,
        ensures
            final(self).wf(),
            final(self).column() == next_column(old(self).column()),
            0 <= final(self).column() < SPEC_ROWS,
            final(self).is_filled() == (old(self).is_filled() || final(self).column() == 0),
            final(self).is_dirty(),
            forall|row: int, col: int|
                0 <= row < NUM_BINS && 0 <= col < SPEC_ROWS ==> #[trigger] final(self).pixel(row, col)
                    == if col == old(self).column() && row_of_bin(row) < colors@.len() {
                    colors@[row_of_bin(row)]
                } else {
                    old(self).pixel(row, col)
                },
    {
        let col = self.pos;
        let n = colors.len();
        let mut bin: usize = 0;
        while bin < n
            invariant
                n == colors@.len(),
                n <= NUM_BINS,
                bin <= n,
                col == old(self).pos,
                col < SPEC_ROWS,
                self.pos == col,
                self.filled == old(self).filled,
                self.buffer.len() == image_len(),
                forall|row: int, c: int|
                    0 <= row < NUM_BINS && 0 <= c < SPEC_ROWS ==> #[trigger] self.pixel(row, c)
                        == if c == col && row_of_bin(row) < bin {
                        colors@[row_of_bin(row)]
                    } else {
                        old(self).pixel(row, c)
                    },
            decreases n - bin,
        {
            let row = NUM_BINS - 1 - bin;
            let idx = (row * SPEC_ROWS + col) * 4;
            let color = colors[bin];
            let ghost prev_self = *self;
            self.buffer.set(idx, color.r);
            self.buffer.set(idx + 1, color.g);
            self.buffer.set(idx + 2, color.b);
            self.buffer.set(idx + 3, color.a);
            proof {
                assert forall|r: int, c: int|
                    0 <= r < NUM_BINS && 0 <= c < SPEC_ROWS implies #[trigger] self.pixel(r, c)
                        == if c == col && row_of_bin(r) < bin + 1 {
                        colors@[row_of_bin(r)]
                    } else {
                        old(self).pixel(r, c)
                    } by {
                    lemma_pixel_offset_bounds(r, c);
                    if r != row || c != col {
                        lemma_pixel_offsets_apart(r, c, row as int, col as int);
                        assert(self.pixel(r, c) == prev_self.pixel(r, c));
                    }
                }
            }
            bin = bin + 1;
        }
        let ghost loop_end = *self;
        self.pos = if col + 1 == SPEC_ROWS { 0 } else { col + 1 };
        if self.pos == 0 {
            self.filled = true;
        }
        self.dirty = true;
        assert forall|row: int, c: int|
            0 <= row < NUM_BINS && 0 <= c < SPEC_ROWS implies #[trigger] self.pixel(row, c)
                == loop_end.pixel(row, c) by {}
    }

    /// Blackens the whole image and starts again from the first column.
    pub fn reset(&mut self)
        requires
            old(self).wf(),
        ensures
            final(self).wf(),
            final(self).column() == 0,
            0 <= final(self).column() < SPEC_ROWS,
            !final(self).is_filled(),
            final(self).is_dirty(),
            final(self).bytes() == Seq::new(image_len() as nat, |i: int| 0u8),
    {
        self.pos = 0;
        self.filled = false;
        let n = self.buffer.len();
        let mut i: usize = 0;
        while i < n
            invariant
                n == image_len(),
                self.buffer.len() == n,
                self.pos == 0,
                !self.filled,
                i <= n,
                forall|j: int| 0 <= j < i ==> self.buffer@[j] == 0u8,
            decreases n - i,
        {
            self.buffer.set(i, 0u8);
            i = i + 1;
        }
        self.dirty = true;
        assert(self.bytes() =~= Seq::new(image_len() as nat, |i: int| 0u8));
    }

    /// Reports whether the image changed since the previous call, and marks
    /// it as handed out.
    pub fn take_dirty(&mut self) -> (changed: bool)
        requires
            old(self).wf(),
        ensures
            final(self).wf(),
            changed == old(self).is_dirty(),
            !final(self).is_dirty(),
            final(self).column() == old(self).column(),
            final(self).is_filled() == old(self).is_filled(),
            final(self).bytes() == old(self).bytes(),
    {
        let changed = self.dirty;
        self.dirty = false;
        changed
    }

    /// Number of columns that hold data.
    pub fn visible_columns(&self) -> (n: usize)
        requires
            self.wf(),
        ensures
            n == visible_count(self.column(), self.is_filled()),
    {
        if self.filled { SPEC_ROWS } else { self.pos }
    }

    /// The runs of columns to show, left to right: their columns, one run after
    /// the other, are the written columns from oldest to newest.
    pub fn display_segments(&self) -> (spans: Vec<ColumnSpan>)
        requires
            self.wf(),
        ensures
            spans@ == expected_spans(self.column(), self.is_filled()),
            spans_columns(spans@) == display_order(self.column(), self.is_filled()),
            forall|k: int| 0 <= k < spans@.len() ==> #[trigger] spans@[k].start < spans@[k].end,
            spans@.len() <= 2,
    {
        let mut spans: Vec<ColumnSpan> = Vec::new();
        let pos = self.pos;
        if !self.filled {
            if pos > 0 {
                spans.push(ColumnSpan { start: 0, end: pos });
            }
        } else if pos == 0 {
            spans.push(ColumnSpan { start: 0, end: SPEC_ROWS });
        } else {
            spans.push(ColumnSpan { start: pos, end: SPEC_ROWS });
            spans.push(ColumnSpan { start: 0, end: pos });
        }
        proof {
            reveal_with_fuel(spans_columns, 3);
            let order = display_order(pos as int, self.filled);
            if spans@.len() == 2 {
                assert(spans@.drop_last().drop_last() =~= Seq::<ColumnSpan>::empty());
                assert(spans_columns(spans@) =~= order);
            } else if spans@.len() == 1 {
                assert(spans@.drop_last() =~= Seq::<ColumnSpan>::empty());
                assert(spans_columns(spans@) =~= order);
            } else {
                assert(spans_columns(spans@) =~= order);
            }
        }
        spans
    }
}

/// After a frame is written, its column is the newest one shown (the
/// rightmost), and exactly the written columns are shown, each once.
pub proof fn newest_column_is_rightmost(col: int, filled: bool)
    requires
        0 <= col < SPEC_ROWS,
    ensures
        ({
            let next = next_column(col);
            let now_filled = filled || next == 0;
            let order = display_order(next, now_filled);
            &&& order.len() == visible_count(next, now_filled)
            &&& order.len() > 0
            &&& order.last() == col
            &&& forall|i: int, j: int|
                #![trigger order[i], order[j]]
                0 <= i < j < order.len() ==> order[i] != order[j]
            &&& forall|i: int| 0 <= i < order.len() ==> 0 <= #[trigger] order[i] < SPEC_ROWS
        }),
{
}

/// Column and fill state after `n` frames written from `col`, `filled`.
pub open spec fn after_pushes(col: int, filled: bool, n: nat) -> (int, bool)
    decreases n,
{
    if n == 0 {
        (col, filled)
    } else {
        let (c, f) = after_pushes(col, filled, (n - 1) as nat);
        (next_column(c), f || next_column(c) == 0)
    }
}

/// From a fresh or reset image, after `n` frames the next column is
/// `n % SPEC_ROWS`, and the image is filled exactly when `n >= SPEC_ROWS`.
pub proof fn columns_follow_frame_count(n: nat)
    ensures
        after_pushes(0, false, n) == ((n % (SPEC_ROWS as nat)) as int, n >= SPEC_ROWS),
    decreases n,
{
    if n > 0 {
        columns_follow_frame_count((n - 1) as nat);
        let m = (n - 1) as nat;
        assert(m % 800 + 1 == 800 ==> n % 800 == 0 && n >= 800) by (nonlinear_arith)
            requires
                n == m + 1,
        ;
        assert(m % 800 + 1 != 800 ==> n % 800 == m % 800 + 1) by (nonlinear_arith)
            requires
                n == m + 1,
        ;
        assert(n % 800 == 0 && n > 0 ==> n >= 800) by (nonlinear_arith);
        assert(m >= 800 ==> n >= 800);
    }
}

/// Every column written since the last reset is shown, up to the width of
/// the image, oldest first with the newest at the right: after `n` frames
/// from a fresh or reset image, `min(n, SPEC_ROWS)` columns are visible and
/// the `i`-th shown is the column of frame `n - min(n, SPEC_ROWS) + i`, that
/// is column `(n - min(n, SPEC_ROWS) + i) % SPEC_ROWS`.
pub proof fn shown_columns_are_the_newest_frames(n: nat)
    ensures
        ({
            let (col, filled) = after_pushes(0, false, n);
            let shown = if n < SPEC_ROWS { n as int } else { SPEC_ROWS as int };
            let order = display_order(col, filled);
            &&& visible_count(col, filled) == shown
            &&& order.len() == shown
            &&& forall|i: int|
                0 <= i < shown ==> #[trigger] order[i] == (n - shown + i) % (SPEC_ROWS as int)
            &&& spans_columns(expected_spans(col, filled)) == order
        }),
{
    columns_follow_frame_count(n);
    let (col, filled) = after_pushes(0, false, n);
    let shown = if n < SPEC_ROWS { n as int } else { SPEC_ROWS as int };
    let order = display_order(col, filled);
    if n < SPEC_ROWS {
        assert(col == n) by (nonlinear_arith)
            requires
                col == n % 800,
                n < 800,
        ;
        assert forall|i: int| 0 <= i < shown implies #[trigger] order[i] == (n - shown + i) % (
        SPEC_ROWS as int) by {
            assert(i % 800 == i) by (nonlinear_arith)
                requires
                    0 <= i < 800,
            ;
        }
    } else {
        assert forall|i: int| 0 <= i < shown implies #[trigger] order[i] == (n - shown + i) % (
        SPEC_ROWS as int) by {
            assert(col + i < 800 ==> (n - 800 + i) % 800 == col + i) by (nonlinear_arith)
                requires
                    col == n % 800,
                    0 <= i < 800,
                    n >= 800,
            ;
            assert(col + i >= 800 ==> (n - 800 + i) % 800 == col + i - 800) by (nonlinear_arith)
                requires
                    col == n % 800,
                    0 <= i < 800,
                    n >= 800,
            ;
        }
    }
    lemma_spans_match_order(col, filled);
}

/// The spans drawn cover exactly the shown columns, in order.
proof fn lemma_spans_match_order(col: int, filled: bool)
    requires
        0 <= col < SPEC_ROWS,
    ensures
        spans_columns(expected_spans(col, filled)) == display_order(col, filled),
{
    reveal_with_fuel(spans_columns, 3);
    let spans = expected_spans(col, filled);
    if spans.len() == 2 {
        assert(spans.drop_last().drop_last() =~= Seq::<ColumnSpan>::empty());
    } else if spans.len() == 1 {
        assert(spans.drop_last() =~= Seq::<ColumnSpan>::empty());
    }
    assert(spans_columns(spans) =~= display_order(col, filled));
}

} // verus!

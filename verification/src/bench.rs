//! The benchmark program's decisions: the search for the largest cell count
//! rendered within the time limit, and the full-HD result picture.
use crate::canvas::{Canvas, pasted, buffer_ok, buffer_fits, white, spec_white};
use crate::compose::{LayoutError, cell_col, cell_row, corner_offset, lemma_slot_in_grid};
use crate::layout::{ceil_div, div_ceil};
use crate::raw::{overlay_known, blend_known};
use vstd::prelude::*;

verus! {

/// Bisection between a cell count known to render within the time limit
/// (`lower`) and one known to exceed it (`upper`).
pub struct BinarySearch {
    pub lower: u32,
    pub upper: u32,
}

impl BinarySearch {
    /// The search is over once the bounds are adjacent (or equal).
    pub open spec fn done(&self) -> bool {
        self.upper - self.lower <= 1
    }

    /// Starts from the last count that stayed within the limit and the first
    /// that exceeded it.
    pub fn new(lower: u32, upper: u32) -> (s: BinarySearch)
        requires
            lower <= upper,
        ensures
            s.lower == lower,
            s.upper == upper,
    {
        BinarySearch { lower, upper }
    }

    /// The next count to measure, the midpoint of the bounds; `None` once the
    /// search is over.
    pub fn next_probe(&self) -> (r: Option<u32>)
        requires
            self.lower <= self.upper,
        ensures
            r is None <==> self.done(),
            r matches Some(m) ==> m == (self.lower + self.upper) / 2 && self.lower < m < self.upper,
    {
        if self.upper - self.lower > 1 {
            let m = ((self.lower as u64 + self.upper as u64) / 2) as u32;
            Some(m)
        } else {
            None
        }
    }

    /// Records a measurement of `probe`: it becomes the upper bound when it
    /// exceeded the limit, the lower bound otherwise.
    pub fn record(&mut self, probe: u32, exceeded: bool)
        requires
            old(self).lower < probe < old(self).upper,
        ensures
            exceeded ==> final(self).upper == probe && final(self).lower == old(self).lower,
            !exceeded ==> final(self).lower == probe && final(self).upper == old(self).upper,
    {
        if exceeded {
            self.upper = probe;
        } else {
            self.lower = probe;
        }
    }

    /// The largest count known to render within the limit.
    pub fn result(&self) -> (r: u32)
        ensures
            r == self.lower,
    {
        self.lower
    }
}

/// Each measurement narrows the search: the bounds stay ordered, the gap
/// strictly shrinks, and the bounds keep their meaning (the upper bound has
/// exceeded the limit, the lower one has not, unless it is the starting one).
pub proof fn law_bisection_narrows(lower: u32, upper: u32, probe: u32, exceeded: bool, new_lower: u32, new_upper: u32)
    requires
        lower < probe < upper,
        exceeded ==> new_upper == probe && new_lower == lower,
        !exceeded ==> new_lower == probe && new_upper == upper,
    ensures
        new_lower < new_upper,
        new_upper - new_lower < upper - lower,
        lower <= new_lower && new_upper <= upper,
        new_upper == upper || (new_upper == probe && exceeded),
        new_lower == lower || (new_lower == probe && !exceeded),
{
}

/// Width of the result picture that the cells are wrapped to.
pub const FINAL_WIDTH: u32 = 1920;

/// Height of the result picture.
pub const FINAL_HEIGHT: u32 = 1080;

/// How many cells of width `stamp_w` fit side by side in the result
/// picture's width, and at least 1.
pub fn cells_per_row(stamp_w: u32) -> (r: u32)
    ensures
        r >= 1,
        stamp_w == 0 ==> r == 1,
        stamp_w > 0 && stamp_w <= FINAL_WIDTH ==> r == FINAL_WIDTH / stamp_w,
        stamp_w <= FINAL_WIDTH ==> r * stamp_w <= FINAL_WIDTH,
        stamp_w > FINAL_WIDTH ==> r == 1,
{
    let per_row = if stamp_w == 0 { 1 } else { FINAL_WIDTH / stamp_w };
    proof {
        if stamp_w > 0 {
            assert(stamp_w <= 1920 ==> 1920u32 / stamp_w >= 1) by (nonlinear_arith)
                requires
                    stamp_w > 0,
            ;
            assert((1920u32 / stamp_w) * stamp_w <= 1920) by (nonlinear_arith)
                requires
                    stamp_w > 0,
            ;
            assert(stamp_w > 1920 ==> 1920u32 / stamp_w == 0) by (nonlinear_arith)
                requires
                    stamp_w > 0,
            ;
        }
    }
    if per_row == 0 { 1 } else { per_row }
}

/// The wrapped picture does not fit: its size or its buffer overflows.
pub open spec fn rows_too_large(count: int, sw: int, sh: int, cols: int) -> bool {
    cols * sw > u32::MAX || ceil_div(count, cols) * sh > u32::MAX || !buffer_ok(cols * sw, ceil_div(count, cols) * sh)
}

/// Index of the `sw` x `sh` slot that pixel `p` lies in, in a grid `cols` slots wide.
pub open spec fn slot_of(p: (int, int), cols: int, sw: int, sh: int) -> int {
    (p.1 / sh) * cols + p.0 / sw
}

/// Pixel `(a, b)` of the slot of cell `i` lies in slot `i`.
pub proof fn lemma_slot_of_cell_pixel(i: int, n: int, cols: int, sw: int, sh: int, a: int, b: int)
    requires
        0 <= i < n,
        cols > 0,
        0 <= a < sw,
        0 <= b < sh,
    ensures
        slot_of((cell_col(i, cols) * sw + a, cell_row(i, cols) * sh + b), cols, sw, sh) == i,
{
    lemma_slot_in_grid(i, n, cols);
    vstd::arithmetic::div_mod::lemma_fundamental_div_mod_converse(cell_col(i, cols) * sw + a, sw, cell_col(i, cols), a);
    vstd::arithmetic::div_mod::lemma_fundamental_div_mod_converse(cell_row(i, cols) * sh + b, sh, cell_row(i, cols), b);
}

/// Wraps a one-row strip of `count` cells, each `sw` x `sh`, into rows of
/// `cols` cells on a white background: cell `i` is cut from the strip at
/// `(i * sw, 0)` and laid, blending by alpha, at
/// `(cell_col(i) * sw, cell_row(i) * sh)`. Each cell pixel is the strip pixel
/// blended over white (so an opaque strip pixel is copied exactly); slots
/// after the last cell stay white.
pub fn arrange_rows(strip: &Canvas, count: u32, sw: u32, sh: u32, cols: u32) -> (r: Result<Canvas, LayoutError>)
    requires
        strip.wf(),
        cols > 0,
        count > 0 ==> count * sw <= strip.width && sh <= strip.height,
    ensures
        r is Err <==> rows_too_large(count as int, sw as int, sh as int, cols as int),
        r matches Ok(c) ==> c.wf() && c.width == cols * sw && c.height == ceil_div(count as int, cols as int) * sh,
        r matches Ok(c) ==> forall|i: int, a: int, b: int|
            0 <= i < count && 0 <= a < sw && 0 <= b < sh ==> blend_known(
                spec_white(),
                strip@[(i * sw + a, b)],
                #[trigger] c@[(cell_col(i, cols as int) * sw + a, cell_row(i, cols as int) * sh + b)],
            ),
        r matches Ok(c) ==> forall|p: (int, int)|
            #[trigger] c@.dom().contains(p) && slot_of(p, cols as int, sw as int, sh as int) >= count ==> c@[p] == spec_white(),
{
    let rows = div_ceil(count, cols);
    let w = match cols.checked_mul(sw) {
        Some(v) => v,
        None => {
            return Err(LayoutError::TooLarge);
        },
    };
    let h = match rows.checked_mul(sh) {
        Some(v) => v,
        None => {
            return Err(LayoutError::TooLarge);
        },
    };
    if !buffer_fits(w, h) {
        return Err(LayoutError::TooLarge);
    }
    let mut canvas = Canvas::from_pixel(w, h, white());
    let mut i: u32 = 0;
    while i < count
        invariant
            i <= count,
            strip.wf(),
            cols > 0,
            count > 0 ==> count * sw <= strip.width && sh <= strip.height,
            rows == ceil_div(count as int, cols as int),
            w == cols * sw,
            h == rows * sh,
            canvas.wf(),
            canvas.width == w,
            canvas.height == h,
            forall|j: int, a: int, b: int|
                0 <= j < i && 0 <= a < sw && 0 <= b < sh ==> blend_known(
                    spec_white(),
                    strip@[(j * sw + a, b)],
                    #[trigger] canvas@[(cell_col(j, cols as int) * sw + a, cell_row(j, cols as int) * sh + b)],
                ),
            forall|p: (int, int)|
                #[trigger] canvas@.dom().contains(p) && slot_of(p, cols as int, sw as int, sh as int) >= i ==> canvas@[p]
                    == spec_white(),
        decreases count - i,
    {
        proof {
            assert(i * sw + sw <= count * sw) by (nonlinear_arith)
                requires
                    i < count,
                    sw >= 0,
            ;
            lemma_slot_in_grid(i as int, count as int, cols as int);
            let ci = cell_col(i as int, cols as int);
            let ri = cell_row(i as int, cols as int);
            assert(0 <= ci * sw && ci * sw + sw <= cols * sw) by (nonlinear_arith)
                requires
                    0 <= ci,
                    ci + 1 <= cols,
                    sw >= 0,
            ;
            assert(0 <= ri * sh && ri * sh + sh <= rows * sh) by (nonlinear_arith)
                requires
                    0 <= ri,
                    ri + 1 <= rows,
                    sh >= 0,
            ;
        }
        let cell = strip.crop(i * sw, 0, sw, sh);
        let x = (i % cols) * sw;
        let y = (i / cols) * sh;
        let ghost before = canvas@;
        canvas.overlay(&cell, x, y);
        proof {
            assert forall|p: (int, int)|
                #[trigger] canvas@.dom().contains(p) && slot_of(p, cols as int, sw as int, sh as int) >= i + 1 implies canvas@[p]
                    == spec_white() by {
                assert(overlay_known(before, cell@, x as int, y as int, canvas@, p));
                assert(before.dom().contains(p));
                if cell@.dom().contains((p.0 - x, p.1 - y)) {
                    assert(x == cell_col(i as int, cols as int) * sw && y == cell_row(i as int, cols as int) * sh);
                    lemma_slot_of_cell_pixel(i as int, count as int, cols as int, sw as int, sh as int, p.0 - x, p.1 - y);
                    assert((cell_col(i as int, cols as int) * sw + (p.0 - x), cell_row(i as int, cols as int) * sh + (p.1 - y)) == p);
                    assert(false);
                }
            }
            assert forall|j: int, a: int, b: int|
                0 <= j < i + 1 && 0 <= a < sw && 0 <= b < sh implies blend_known(
                    spec_white(),
                    strip@[(j * sw + a, b)],
                    #[trigger] canvas@[(cell_col(j, cols as int) * sw + a, cell_row(j, cols as int) * sh + b)],
                ) by {
                let p = (cell_col(j, cols as int) * sw + a, cell_row(j, cols as int) * sh + b);
                lemma_slot_in_grid(j, count as int, cols as int);
                let cj = cell_col(j, cols as int);
                let rj = cell_row(j, cols as int);
                assert(0 <= cj * sw + a < cols * sw) by (nonlinear_arith)
                    requires
                        0 <= cj,
                        cj + 1 <= cols,
                        0 <= a < sw,
                ;
                assert(0 <= rj * sh + b < rows * sh) by (nonlinear_arith)
                    requires
                        0 <= rj,
                        rj + 1 <= rows,
                        0 <= b < sh,
                ;
                assert(canvas@.dom().contains(p));
                assert(overlay_known(before, cell@, x as int, y as int, canvas@, p));
                if j == i {
                    assert((p.0 - x, p.1 - y) == (a, b));
                    assert(cell@.dom().contains((a, b)));
                    lemma_slot_of_cell_pixel(j, count as int, cols as int, sw as int, sh as int, a, b);
                    assert(before.dom().contains(p));
                    assert(before[p] == spec_white());
                } else {
                    crate::compose::lemma_other_cell_misses(cols as int, sw as int, sh as int, count as int, i as int, j, a, b);
                    assert(!cell@.dom().contains((p.0 - x, p.1 - y)));
                }
            }
        }
        i = i + 1;
    }
    Ok(canvas)
}

/// Copies the `label` into the bottom-right corner of `canvas`, 10 pixels
/// from the right and bottom edges (at the origin along a side that is too
/// short); label pixels beyond the canvas are dropped.
pub fn paste_label(canvas: &mut Canvas, label: &Canvas)
    requires
        old(canvas).wf(),
        label.wf(),
        label.width + 10 <= u32::MAX,
        label.height + 10 <= u32::MAX,
    ensures
        final(canvas).wf(),
        final(canvas).width == old(canvas).width,
        final(canvas).height == old(canvas).height,
        final(canvas)@ == pasted(
            old(canvas)@,
            label@,
            corner_offset(old(canvas).width as int, label.width as int),
            corner_offset(old(canvas).height as int, label.height as int),
        ),
{
    let x = canvas.width.saturating_sub(label.width + 10);
    let y = canvas.height.saturating_sub(label.height + 10);
    canvas.paste(label, x, y);
}

} // verus!

//! Putting rendered cells together: a strip, a grid scaled to a target size,
//! and the score label in the bottom-right corner.
use crate::canvas::{Canvas, Rgba, pasted, buffer_ok, buffer_fits, white, covers};
use crate::cell::blank;
use crate::layout::{ceil_div, div_ceil, best_columns, chosen_columns, search_overflows};
use crate::raw::{overlay_known, resamples, window_uniform, resize_keeps_flat, law_flat_image_windows};
use crate::paint::all_alpha;
use vstd::prelude::*;

verus! {

/// Why cells could not be put together.
#[derive(Clone, Copy, Debug, PartialEq, Eq, Structural)]
pub enum LayoutError {
    /// A size or a buffer length does not fit its integer type.
    TooLarge,
    /// A cell does not fit at its place in the image.
    CellDoesNotFit,
}

/// Column of cell `i` in a grid `cols` wide (cells fill rows left to right).
pub open spec fn cell_col(i: int, cols: int) -> int {
    i % cols
}

/// Row of cell `i` in a grid `cols` wide.
pub open spec fn cell_row(i: int, cols: int) -> int {
    i / cols
}

/// `m` with the first `n` cells pasted, cell `i` with its corner at
/// `(cell_col(i) * cw, cell_row(i) * ch)`, in order.
pub open spec fn paste_cells(m: Map<(int, int), Rgba>, cells: Seq<Canvas>, cols: int, cw: int, ch: int, n: nat) -> Map<
    (int, int),
    Rgba,
>
    decreases n,
{
    if n == 0 {
        m
    } else {
        let i = n - 1;
        pasted(paste_cells(m, cells, cols, cw, ch, (n - 1) as nat), cells[i]@, cell_col(i, cols) * cw, cell_row(i, cols) * ch)
    }
}

/// Each of the first `n` cells lies within a `w` x `h` image at its place.
pub open spec fn cells_fit(cells: Seq<Canvas>, cols: int, cw: int, ch: int, w: int, h: int, n: int) -> bool {
    forall|i: int|
        0 <= i < n ==> cell_col(i, cols) * cw + (#[trigger] cells[i]).width <= w && cell_row(i, cols) * ch
            + cells[i].height <= h
}

/// For `0 <= i < n`, cell `i`'s column and row lie within a `cols` x `ceil(n / cols)` grid.
pub proof fn lemma_slot_in_grid(i: int, n: int, cols: int)
    requires
        0 <= i < n,
        cols > 0,
    ensures
        0 <= cell_col(i, cols) < cols,
        0 <= cell_row(i, cols) < ceil_div(n, cols),
        i == cell_row(i, cols) * cols + cell_col(i, cols),
{
    let q = n / cols;
    let r = n % cols;
    let qi = i / cols;
    let ri = i % cols;
    assert(n == q * cols + r && 0 <= r < cols) by (nonlinear_arith)
        requires
            cols > 0,
            q == n / cols,
            r == n % cols,
    ;
    assert(i == qi * cols + ri && 0 <= ri < cols && qi >= 0) by (nonlinear_arith)
        requires
            cols > 0,
            i >= 0,
            qi == i / cols,
            ri == i % cols,
    ;
    if r == 0 {
        assert(qi < q) by (nonlinear_arith)
            requires
                i == qi * cols + ri,
                0 <= ri,
                i < n,
                n == q * cols,
                cols > 0,
        ;
    } else {
        assert(qi < q + 1) by (nonlinear_arith)
            requires
                i == qi * cols + ri,
                0 <= ri,
                i < n,
                n == q * cols + r,
                r < cols,
                cols > 0,
        ;
    }
}

/// `x` and `y` with `x * k <= v < x * k + k` and `y * k <= v < y * k + k` are equal.
proof fn lemma_same_slot(x: int, y: int, v: int, k: int)
    requires
        k > 0,
        x * k <= v < x * k + k,
        y * k <= v < y * k + k,
    ensures
        x == y,
{
    assert(x == y) by (nonlinear_arith)
        requires
            k > 0,
            x * k <= v < x * k + k,
            y * k <= v < y * k + k,
    ;
}

/// `a * k <= b * k` for `0 <= a <= b` and `k >= 0`.
proof fn lemma_mul_mono(a: int, b: int, k: int)
    requires
        0 <= a <= b,
        k >= 0,
    ensures
        a * k <= b * k,
{
    assert(a * k <= b * k) by (nonlinear_arith)
        requires
            0 <= a <= b,
            k >= 0,
    ;
}

/// Pastes the cells in order, cell `i` at `(cell_col(i) * cw, cell_row(i) * ch)`;
/// stops at the first cell that does not fit.
fn place_cells(canvas: &mut Canvas, cells: &Vec<Canvas>, cols: u32, cw: u32, ch: u32) -> (r: Result<(), LayoutError>)
    requires
        old(canvas).wf(),
        forall|i: int| 0 <= i < cells.len() ==> (#[trigger] cells@[i]).wf(),
        cols > 0,
        cells.len() <= u32::MAX,
        cols * cw <= u32::MAX,
        ceil_div(cells.len() as int, cols as int) * ch <= u32::MAX,
    ensures
        final(canvas).wf(),
        final(canvas).width == old(canvas).width,
        final(canvas).height == old(canvas).height,
        r is Ok <==> cells_fit(cells@, cols as int, cw as int, ch as int, old(canvas).width as int, old(canvas).height as int, cells.len() as int),
        r is Err ==> r == Err::<(), LayoutError>(LayoutError::CellDoesNotFit),
        r is Ok ==> final(canvas)@ == paste_cells(old(canvas)@, cells@, cols as int, cw as int, ch as int, cells.len() as nat),
{
    let ghost start = canvas@;
    let n = cells.len();
    let mut i: usize = 0;
    while i < n
        invariant
            i <= n,
            n == cells.len(),
            forall|j: int| 0 <= j < cells.len() ==> (#[trigger] cells@[j]).wf(),
            cols > 0,
            n <= u32::MAX,
            cols * cw <= u32::MAX,
            ceil_div(n as int, cols as int) * ch <= u32::MAX,
            canvas.wf(),
            canvas.width == old(canvas).width,
            canvas.height == old(canvas).height,
            start == old(canvas)@,
            cells_fit(cells@, cols as int, cw as int, ch as int, canvas.width as int, canvas.height as int, i as int),
            canvas@ == paste_cells(start, cells@, cols as int, cw as int, ch as int, i as nat),
        decreases n - i,
    {
        let k = i as u32;
        proof {
            lemma_slot_in_grid(i as int, n as int, cols as int);
            lemma_mul_mono((k % cols) as int, cols as int, cw as int);
            lemma_mul_mono((k / cols) as int, ceil_div(n as int, cols as int), ch as int);
        }
        let x = (k % cols) * cw;
        let y = (k / cols) * ch;
        match canvas.copy_from(&cells[i], x, y) {
            Ok(()) => {},
            Err(_) => {
                assert(!cells_fit(cells@, cols as int, cw as int, ch as int, canvas.width as int, canvas.height as int, n as int)) by {
                    assert(!(cell_col(i as int, cols as int) * cw + cells@[i as int].width <= canvas.width && cell_row(i as int, cols as int) * ch + cells@[i as int].height <= canvas.height));
                }
                return Err(LayoutError::CellDoesNotFit);
            },
        }
        i = i + 1;
    }
    Ok(())
}

/// Columns of the strip of `n` cells: all in one row.
pub open spec fn strip_cols(n: int) -> int {
    if n == 0 { 1 } else { n }
}

/// The strip of `n` cells is too large: its width `n * cw` does not fit in a
/// `u32`, or its buffer not in a `usize`.
pub open spec fn strip_too_large(n: int, cw: int, ch: int) -> bool {
    n * cw > u32::MAX || !buffer_ok(n * cw, ch)
}

/// The rendered cells side by side in one row on a white background, cell `i`
/// with its corner at `(i * cell_w, 0)`; the image is `cells.len() * cell_w`
/// wide and `cell_h` high.
pub fn render_many(cells: &Vec<Canvas>, cell_w: u32, cell_h: u32) -> (r: Result<Canvas, LayoutError>)
    requires
        cells.len() <= u32::MAX,
        forall|i: int| 0 <= i < cells.len() ==> (#[trigger] cells@[i]).wf(),
    ensures
        r matches Err(e) ==> (e == LayoutError::TooLarge <==> strip_too_large(cells.len() as int, cell_w as int, cell_h as int)),
        r matches Err(e) ==> (e == LayoutError::CellDoesNotFit <==> !strip_too_large(cells.len() as int, cell_w as int, cell_h as int)),
        r is Ok <==> !strip_too_large(cells.len() as int, cell_w as int, cell_h as int) && cells_fit(
            cells@,
            strip_cols(cells.len() as int),
            cell_w as int,
            cell_h as int,
            cells.len() * cell_w,
            cell_h as int,
            cells.len() as int,
        ),
        r matches Ok(c) ==> c.wf() && c.width == cells.len() * cell_w && c.height == cell_h && c@ == paste_cells(
            blank(cells.len() * cell_w, cell_h as int),
            cells@,
            strip_cols(cells.len() as int),
            cell_w as int,
            cell_h as int,
            cells.len() as nat,
        ),
{
    let n = cells.len() as u32;
    let w = match n.checked_mul(cell_w) {
        Some(v) => v,
        None => {
            return Err(LayoutError::TooLarge);
        },
    };
    if !buffer_fits(w, cell_h) {
        return Err(LayoutError::TooLarge);
    }
    let mut canvas = Canvas::from_pixel(w, cell_h, white());
    assert(canvas@ =~= blank(w as int, cell_h as int));
    let cols: u32 = if n == 0 { 1 } else { n };
    assert(n == cells.len());
    proof {
        if n > 0 {
            assert(ceil_div(n as int, n as int) == 1) by (nonlinear_arith)
                requires
                    n > 0,
            ;
            assert(ceil_div(n as int, cols as int) * cell_h <= u32::MAX);
        } else {
            assert(ceil_div(n as int, cols as int) == 0);
            assert(ceil_div(n as int, cols as int) * cell_h == 0) by (nonlinear_arith)
                requires
                    ceil_div(n as int, cols as int) == 0,
            ;
        }
    }
    match place_cells(&mut canvas, cells, cols, cell_w, cell_h) {
        Ok(()) => Ok(canvas),
        Err(e) => Err(e),
    }
}

/// Pasting keeps the extent of the image pasted onto.
proof fn lemma_paste_cells_dom(m: Map<(int, int), Rgba>, cells: Seq<Canvas>, cols: int, cw: int, ch: int, n: nat)
    ensures
        paste_cells(m, cells, cols, cw, ch, n).dom() == m.dom(),
    decreases n,
{
    if n > 0 {
        lemma_paste_cells_dom(m, cells, cols, cw, ch, (n - 1) as nat);
        let prev = paste_cells(m, cells, cols, cw, ch, (n - 1) as nat);
        let i = n - 1;
        assert(pasted(prev, cells[i]@, cell_col(i, cols) * cw, cell_row(i, cols) * ch).dom() =~= prev.dom());
    }
}

/// Cells all of size `cw` x `ch` occupy disjoint rectangles of the grid: a
/// pixel of cell `j`'s rectangle is covered by no other cell's rectangle.
pub proof fn lemma_other_cell_misses(cols: int, cw: int, ch: int, n: int, i: int, j: int, a: int, b: int)
    requires
        cols > 0,
        0 <= i < n,
        0 <= j < n,
        i != j,
        0 <= a < cw,
        0 <= b < ch,
    ensures
        !(0 <= cell_col(j, cols) * cw + a - cell_col(i, cols) * cw < cw && 0 <= cell_row(j, cols) * ch + b - cell_row(i, cols) * ch < ch),
{
    lemma_slot_in_grid(i, n, cols);
    lemma_slot_in_grid(j, n, cols);
    if 0 <= cell_col(j, cols) * cw + a - cell_col(i, cols) * cw < cw && 0 <= cell_row(j, cols) * ch + b - cell_row(i, cols) * ch < ch {
        lemma_same_slot(cell_col(i, cols), cell_col(j, cols), cell_col(j, cols) * cw + a, cw);
        lemma_same_slot(cell_row(i, cols), cell_row(j, cols), cell_row(j, cols) * ch + b, ch);
    }
}

/// When every cell is `cw` x `ch`, pixel `(a, b)` of cell `j` can be read back
/// at `(cell_col(j) * cw + a, cell_row(j) * ch + b)` after all cells are pasted.
proof fn lemma_paste_cells_reads(m: Map<(int, int), Rgba>, cells: Seq<Canvas>, cols: int, cw: int, ch: int, n: nat, j: int, a: int, b: int)
    requires
        cols > 0,
        0 <= j < n,
        0 <= a < cw,
        0 <= b < ch,
        n <= cells.len(),
        forall|i: int| 0 <= i < n ==> (#[trigger] cells[i]).wf() && cells[i].width == cw && cells[i].height == ch,
        m.dom().contains((cell_col(j, cols) * cw + a, cell_row(j, cols) * ch + b)),
    ensures
        paste_cells(m, cells, cols, cw, ch, n)[(cell_col(j, cols) * cw + a, cell_row(j, cols) * ch + b)] == cells[j]@[(a, b)],
    decreases n,
{
    let q = (cell_col(j, cols) * cw + a, cell_row(j, cols) * ch + b);
    let i = n - 1;
    let prev = paste_cells(m, cells, cols, cw, ch, (n - 1) as nat);
    lemma_paste_cells_dom(m, cells, cols, cw, ch, (n - 1) as nat);
    assert(cells[i].wf());
    if i == j {
        assert(cells[j]@.dom().contains((a, b)));
    } else {
        lemma_other_cell_misses(cols, cw, ch, n as int, i, j, a, b);
        assert(!cells[i]@.dom().contains((q.0 - cell_col(i, cols) * cw, q.1 - cell_row(i, cols) * ch)));
        lemma_paste_cells_reads(m, cells, cols, cw, ch, (n - 1) as nat, j, a, b);
    }
}

/// Cells no larger than `cw` x `ch` always fit at their places in a grid of
/// `cols` columns and `ceil(n / cols)` rows of `cw` x `ch` slots.
pub proof fn law_cells_fit_grid(cells: Seq<Canvas>, cols: int, cw: int, ch: int, n: int)
    requires
        cols > 0,
        cw >= 0,
        ch >= 0,
        0 <= n <= cells.len(),
        forall|i: int| 0 <= i < n ==> (#[trigger] cells[i]).width <= cw && cells[i].height <= ch,
    ensures
        cells_fit(cells, cols, cw, ch, cols * cw, ceil_div(n, cols) * ch, n),
{
    assert forall|i: int| 0 <= i < n implies cell_col(i, cols) * cw + (#[trigger] cells[i]).width <= cols * cw && cell_row(i, cols) * ch + cells[i].height <= ceil_div(n, cols) * ch by {
        lemma_slot_in_grid(i, n, cols);
        assert(cell_col(i, cols) * cw + cw <= cols * cw) by (nonlinear_arith)
            requires
                cell_col(i, cols) + 1 <= cols,
                cw >= 0,
        ;
        assert(cell_row(i, cols) * ch + ch <= ceil_div(n, cols) * ch) by (nonlinear_arith)
            requires
                cell_row(i, cols) + 1 <= ceil_div(n, cols),
                ch >= 0,
        ;
    }
}

/// In a grid image built from cells that are all `cw` x `ch`, every pixel of
/// every cell can be read back at its place: cell `j`'s pixel `(a, b)` is at
/// `(cell_col(j) * cw + a, cell_row(j) * ch + b)`.
pub proof fn law_grid_cells_read_back(cells: Seq<Canvas>, cols: int, cw: int, ch: int, j: int, a: int, b: int)
    requires
        cols > 0,
        0 <= j < cells.len(),
        0 <= a < cw,
        0 <= b < ch,
        forall|i: int| 0 <= i < cells.len() ==> (#[trigger] cells[i]).wf() && cells[i].width == cw && cells[i].height == ch,
    ensures
        paste_cells(blank(cols * cw, ceil_div(cells.len() as int, cols) * ch), cells, cols, cw, ch, cells.len())[(
            cell_col(j, cols) * cw + a,
            cell_row(j, cols) * ch + b,
        )] == cells[j]@[(a, b)],
{
    let n = cells.len() as int;
    lemma_slot_in_grid(j, n, cols);
    let cj = cell_col(j, cols);
    let rj = cell_row(j, cols);
    let rows = ceil_div(n, cols);
    assert(0 <= cj * cw + a < cols * cw) by (nonlinear_arith)
        requires
            0 <= cj,
            cj + 1 <= cols,
            0 <= a < cw,
    ;
    assert(0 <= rj * ch + b < rows * ch) by (nonlinear_arith)
        requires
            0 <= rj,
            rj + 1 <= rows,
            0 <= b < ch,
    ;
    lemma_paste_cells_reads(blank(cols * cw, ceil_div(n, cols) * ch), cells, cols, cw, ch, cells.len(), j, a, b);
}

/// When the canvas is at least 10 pixels larger than the label in both
/// directions, every opaque label pixel `(a, b)` shows at
/// `(width - label.width - 10 + a, height - label.height - 10 + b)`:
/// the label sits in the bottom-right corner with a 10-pixel margin.
pub proof fn law_label_bottom_right(before: Map<(int, int), Rgba>, label: Canvas, width: int, height: int, after: Map<(int, int), Rgba>, a: int, b: int)
    requires
        label.wf(),
        width >= label.width + 10,
        height >= label.height + 10,
        0 <= a < label.width,
        0 <= b < label.height,
        label@[(a, b)].a == 255,
        after.dom().contains((width - label.width - 10 + a, height - label.height - 10 + b)),
        forall|p: (int, int)|
            #[trigger] after.dom().contains(p) ==> overlay_known(
                before,
                label@,
                corner_offset(width, label.width as int),
                corner_offset(height, label.height as int),
                after,
                p,
            ),
    ensures
        after[(width - label.width - 10 + a, height - label.height - 10 + b)] == label@[(a, b)],
{
    let p = (width - label.width - 10 + a, height - label.height - 10 + b);
    assert(overlay_known(before, label@, corner_offset(width, label.width as int), corner_offset(height, label.height as int), after, p));
    assert((p.0 - corner_offset(width, label.width as int), p.1 - corner_offset(height, label.height as int)) == (a, b));
}

/// In the strip of cells that are all `cw` x `ch`, cell `j`'s pixel `(a, b)`
/// is at `(j * cw + a, b)`: the cells stand side by side in order.
pub proof fn law_strip_cells_read_back(cells: Seq<Canvas>, cw: int, ch: int, j: int, a: int, b: int)
    requires
        0 <= j < cells.len(),
        0 <= a < cw,
        0 <= b < ch,
        forall|i: int| 0 <= i < cells.len() ==> (#[trigger] cells[i]).wf() && cells[i].width == cw && cells[i].height == ch,
    ensures
        paste_cells(blank(cells.len() * cw, ch), cells, strip_cols(cells.len() as int), cw, ch, cells.len())[(j * cw + a, b)]
            == cells[j]@[(a, b)],
{
    let n = cells.len() as int;
    assert(cell_col(j, n) == j && cell_row(j, n) == 0) by (nonlinear_arith)
        requires
            0 <= j < n,
    ;
    assert(ceil_div(n, n) == 1) by (nonlinear_arith)
        requires
            n > 0,
    ;
    law_grid_cells_read_back(cells, n, cw, ch, j, a, b);
    assert(ceil_div(n, n) * ch == ch);
    assert(n * cw == cells.len() * cw);
}

/// Pasting opaque cells onto an opaque image leaves it opaque, so strips and
/// grids of opaque cells on white are opaque.
pub proof fn law_opaque_cells_give_opaque_image(m: Map<(int, int), Rgba>, cells: Seq<Canvas>, cols: int, cw: int, ch: int, n: nat)
    requires
        all_alpha(m, 255),
        n <= cells.len(),
        forall|i: int| 0 <= i < n ==> all_alpha((#[trigger] cells[i])@, 255),
    ensures
        all_alpha(paste_cells(m, cells, cols, cw, ch, n), 255),
    decreases n,
{
    if n > 0 {
        law_opaque_cells_give_opaque_image(m, cells, cols, cw, ch, (n - 1) as nat);
        let i = n - 1;
        let prev = paste_cells(m, cells, cols, cw, ch, (n - 1) as nat);
        let cur = paste_cells(m, cells, cols, cw, ch, n);
        assert(all_alpha(cells[i]@, 255));
        assert forall|p: (int, int)| #[trigger] cur.dom().contains(p) implies cur[p].a == 255 by {
            assert(prev.dom().contains(p));
        }
    }
}

/// One more cell only adds to the strip on the right: with cells all
/// `cw` x `ch`, the strip of `n + 1` cells shows the strip of the first `n`
/// in its first `n * cw` columns.
pub proof fn law_strip_append_keeps_prefix(cells: Seq<Canvas>, cw: int, ch: int, x: int, y: int)
    requires
        cells.len() >= 2,
        forall|i: int| 0 <= i < cells.len() ==> (#[trigger] cells[i]).wf() && cells[i].width == cw && cells[i].height == ch,
        0 <= x < (cells.len() - 1) * cw,
        0 <= y < ch,
    ensures
        paste_cells(blank(cells.len() * cw, ch), cells, strip_cols(cells.len() as int), cw, ch, cells.len())[(x, y)]
            == paste_cells(
            blank(cells.drop_last().len() * cw, ch),
            cells.drop_last(),
            strip_cols(cells.drop_last().len() as int),
            cw,
            ch,
            cells.drop_last().len(),
        )[(x, y)],
{
    let n = cells.len() - 1;
    let pre = cells.drop_last();
    assert(cw > 0) by (nonlinear_arith)
        requires
            0 <= x < n * cw,
            n >= 1,
    ;
    let j = x / cw;
    let a = x % cw;
    vstd::arithmetic::div_mod::lemma_fundamental_div_mod(x, cw);
    assert(0 <= a < cw);
    assert(0 <= j < n) by (nonlinear_arith)
        requires
            x == cw * j + a,
            0 <= a < cw,
            0 <= x < n * cw,
            cw > 0,
    ;
    assert(j * cw + a == x) by (nonlinear_arith)
        requires
            x == cw * j + a,
    ;
    law_strip_cells_read_back(cells, cw, ch, j, a, y);
    assert forall|i: int| 0 <= i < pre.len() implies (#[trigger] pre[i]).wf() && pre[i].width == cw && pre[i].height == ch by {
        assert(pre[i] == cells[i]);
    }
    law_strip_cells_read_back(pre, cw, ch, j, a, y);
}

/// Position of the label along one side: 10 pixels in from the far edge, or 0
/// when there is no room (`saturating_sub`).
pub open spec fn corner_offset(outer: int, inner: int) -> int {
    if outer >= inner + 10 { outer - inner - 10 } else { 0 }
}

/// Lays the `label` image over the bottom-right corner of `canvas`, 10 pixels
/// from the right and bottom edges (at the origin along a side that is too
/// short), blending by alpha.
pub fn render_overlay(canvas: &mut Canvas, label: &Canvas)
    requires
        old(canvas).wf(),
        label.wf(),
        label.width + 10 <= u32::MAX,
        label.height + 10 <= u32::MAX,
    ensures
        final(canvas).wf(),
        final(canvas).width == old(canvas).width,
        final(canvas).height == old(canvas).height,
        forall|p: (int, int)|
            #[trigger] final(canvas)@.dom().contains(p) ==> overlay_known(
                old(canvas)@,
                label@,
                corner_offset(old(canvas).width as int, label.width as int),
                corner_offset(old(canvas).height as int, label.height as int),
                final(canvas)@,
                p,
            ),
{
    let x = canvas.width.saturating_sub(label.width + 10);
    let y = canvas.height.saturating_sub(label.height + 10);
    canvas.overlay(label, x, y);
}

/// The grid of the result image: the chosen number of columns, and
/// enough rows for every cell.
pub open spec fn grid_cols(n: int, cw: int, ch: int, width: int, height: int) -> int {
    chosen_columns(n, cw, ch, width, height)
}

pub open spec fn grid_rows(n: int, cw: int, ch: int, width: int, height: int) -> int {
    ceil_div(n, grid_cols(n, cw, ch, width, height))
}

/// The grid cannot be laid out: the column search overflows, or the grid's
/// size or buffer does not fit.
pub open spec fn grid_too_large(n: int, cw: int, ch: int, width: int, height: int) -> bool {
    let cols = grid_cols(n, cw, ch, width, height);
    let rows = grid_rows(n, cw, ch, width, height);
    ||| search_overflows(n, cw, ch, width, height)
    ||| cols * cw > u32::MAX
    ||| rows * ch > u32::MAX
    ||| !buffer_ok(cols * cw, rows * ch)
}

/// The grid image of the result: the cells pasted on white at their grid places.
pub open spec fn grid_image(cells: Seq<Canvas>, cw: int, ch: int, width: int, height: int) -> Map<(int, int), Rgba> {
    let n = cells.len() as int;
    let cols = grid_cols(n, cw, ch, width, height);
    let rows = grid_rows(n, cw, ch, width, height);
    paste_cells(blank(cols * cw, rows * ch), cells, cols, cw, ch, n as nat)
}

/// Every cell fits at its place in the grid image.
pub open spec fn grid_cells_fit(cells: Seq<Canvas>, cw: int, ch: int, width: int, height: int) -> bool {
    let n = cells.len() as int;
    let cols = grid_cols(n, cw, ch, width, height);
    let rows = grid_rows(n, cw, ch, width, height);
    cells_fit(cells, cols, cw, ch, cols * cw, rows * ch, n)
}

/// Scaling the grid image to `width` x `height` needs buffers that do not fit.
pub open spec fn scale_too_large(n: int, cw: int, ch: int, width: int, height: int) -> bool {
    let cols = grid_cols(n, cw, ch, width, height);
    let rows = grid_rows(n, cw, ch, width, height);
    !buffer_ok(width, height) || (resamples(cols * cw, rows * ch, width, height) && !buffer_ok(cols * cw, height))
}

/// `m` is the grid image scaled to `width` x `height`: what the scaling is
/// known to give. It is the grid image itself when that already has the
/// size, transparent black everywhere when the grid image is empty, and
/// otherwise (within [`resize_keeps_flat`]) shows at each pixel the colour of
/// the grid image around the point it samples wherever that is one colour.
pub open spec fn scaled_grid(m: Map<(int, int), Rgba>, cells: Seq<Canvas>, cw: int, ch: int, width: int, height: int) -> bool {
    let n = cells.len() as int;
    let gw = grid_cols(n, cw, ch, width, height) * cw;
    let gh = grid_rows(n, cw, ch, width, height) * ch;
    &&& (gw == width && gh == height) ==> m == grid_image(cells, cw, ch, width, height)
    &&& (gw == 0 || gh == 0) ==> forall|p: (int, int)| #[trigger] m.dom().contains(p) ==> m[p] == (Rgba { r: 0, g: 0, b: 0, a: 0 })
    &&& resize_keeps_flat(gw, gh, width, height) ==> forall|p: (int, int), col: Rgba|
        #[trigger] window_uniform(grid_image(cells, cw, ch, width, height), gw, gh, width, height, p, col) && m.dom().contains(p)
            ==> m[p] == col
}

/// Cells all of one colour that fill every place of the grid give a scaled
/// grid image of that colour at every pixel, whatever the target size
/// (within [`resize_keeps_flat`]): the cells themselves are what is scaled.
pub proof fn law_flat_cells_scale_to_their_colour(
    m: Map<(int, int), Rgba>,
    cells: Seq<Canvas>,
    cw: int,
    ch: int,
    width: int,
    height: int,
    col: Rgba,
)
    requires
        cw > 0,
        ch > 0,
        grid_cols(cells.len() as int, cw, ch, width, height) >= 1,
        grid_cols(cells.len() as int, cw, ch, width, height) * grid_rows(cells.len() as int, cw, ch, width, height) == cells.len(),
        forall|i: int| 0 <= i < cells.len() ==> (#[trigger] cells[i]).wf() && cells[i].width == cw && cells[i].height == ch,
        forall|i: int, q: (int, int)| 0 <= i < cells.len() && #[trigger] cells[i]@.dom().contains(q) ==> cells[i]@[q] == col,
        resize_keeps_flat(
            grid_cols(cells.len() as int, cw, ch, width, height) * cw,
            grid_rows(cells.len() as int, cw, ch, width, height) * ch,
            width,
            height,
        ),
        scaled_grid(m, cells, cw, ch, width, height),
    ensures
        forall|p: (int, int)| #[trigger] m.dom().contains(p) ==> m[p] == col,
{
    let n = cells.len() as int;
    let cols = grid_cols(n, cw, ch, width, height);
    let rows = grid_rows(n, cw, ch, width, height);
    let gw = cols * cw;
    let gh = rows * ch;
    let g = grid_image(cells, cw, ch, width, height);
    lemma_paste_cells_dom(blank(gw, gh), cells, cols, cw, ch, n as nat);
    assert forall|q: (int, int)| #[trigger] g.dom().contains(q) implies g[q] == col by {
        let x = q.0;
        let y = q.1;
        assert(0 <= x < gw && 0 <= y < gh);
        let c = x / cw;
        let r = y / ch;
        let a = x % cw;
        let b = y % ch;
        vstd::arithmetic::div_mod::lemma_fundamental_div_mod(x, cw);
        vstd::arithmetic::div_mod::lemma_fundamental_div_mod(y, ch);
        assert(0 <= c < cols && 0 <= r < rows) by (nonlinear_arith)
            requires
                0 <= x < cols * cw,
                0 <= y < rows * ch,
                cw > 0,
                ch > 0,
                c == x / cw,
                r == y / ch,
        ;
        let j = r * cols + c;
        assert(0 <= j < n) by (nonlinear_arith)
            requires
                0 <= c < cols,
                0 <= r < rows,
                j == r * cols + c,
                cols * rows == n,
        ;
        vstd::arithmetic::div_mod::lemma_fundamental_div_mod_converse(j, cols, r, c);
        assert(cell_col(j, cols) == c && cell_row(j, cols) == r);
        assert(x == c * cw + a && y == r * ch + b) by (nonlinear_arith)
            requires
                x == cw * c + a,
                y == ch * r + b,
        ;
        law_grid_cells_read_back(cells, cols, cw, ch, j, a, b);
        assert(cells[j]@.dom().contains((a, b)));
    }
    law_flat_image_windows(g, gw, gh, width, height, col);
    assert forall|p: (int, int)| #[trigger] m.dom().contains(p) implies m[p] == col by {
        assert(window_uniform(g, gw, gh, width, height, p, col));
    }
}

/// The result image: the cells laid out in the grid whose shape comes
/// closest to `width` x `height` (see [`best_columns`]), on white, scaled to
/// exactly `width` x `height` with a Lanczos-3 filter, with `label` laid over
/// the bottom-right corner.
pub fn render_result(cells: &Vec<Canvas>, cell_w: u32, cell_h: u32, width: u32, height: u32, label: &Canvas) -> (r: Result<Canvas, LayoutError>)
    requires
        cells.len() <= u32::MAX,
        forall|i: int| 0 <= i < cells.len() ==> (#[trigger] cells@[i]).wf(),
        label.wf(),
        label.width + 10 <= u32::MAX,
        label.height + 10 <= u32::MAX,
    ensures
        r matches Err(e) ==> (e == LayoutError::TooLarge <==> (grid_too_large(cells.len() as int, cell_w as int, cell_h as int, width as int, height as int)
            || (grid_cells_fit(cells@, cell_w as int, cell_h as int, width as int, height as int)
            && scale_too_large(cells.len() as int, cell_w as int, cell_h as int, width as int, height as int)))),
        (r matches Err(e) && e == LayoutError::CellDoesNotFit) <==> (!grid_too_large(cells.len() as int, cell_w as int, cell_h as int, width as int, height as int)
            && !grid_cells_fit(cells@, cell_w as int, cell_h as int, width as int, height as int)),
        r is Ok <==> !grid_too_large(cells.len() as int, cell_w as int, cell_h as int, width as int, height as int)
            && grid_cells_fit(cells@, cell_w as int, cell_h as int, width as int, height as int)
            && !scale_too_large(cells.len() as int, cell_w as int, cell_h as int, width as int, height as int),
        r matches Ok(c) ==> c.wf() && c.width == width && c.height == height,
        r matches Ok(c) ==> exists|m: Map<(int, int), Rgba>|
            #[trigger] covers(m, width as int, height as int) && scaled_grid(m, cells@, cell_w as int, cell_h as int, width as int, height as int)
                && forall|p: (int, int)|
                #[trigger] c@.dom().contains(p) ==> overlay_known(
                    m,
                    label@,
                    corner_offset(width as int, label.width as int),
                    corner_offset(height as int, label.height as int),
                    c@,
                    p,
                ),
{
    let n = cells.len() as u32;
    let cols = match best_columns(n, cell_w, cell_h, width, height) {
        Some(c) => c,
        None => {
            return Err(LayoutError::TooLarge);
        },
    };
    let rows = div_ceil(n, cols);
    let gw = match cols.checked_mul(cell_w) {
        Some(v) => v,
        None => {
            return Err(LayoutError::TooLarge);
        },
    };
    let gh = match rows.checked_mul(cell_h) {
        Some(v) => v,
        None => {
            return Err(LayoutError::TooLarge);
        },
    };
    if !buffer_fits(gw, gh) {
        return Err(LayoutError::TooLarge);
    }
    let mut grid = Canvas::from_pixel(gw, gh, white());
    assert(grid@ =~= blank(gw as int, gh as int));
    match place_cells(&mut grid, cells, cols, cell_w, cell_h) {
        Ok(()) => {},
        Err(e) => {
            return Err(e);
        },
    }
    let resampled = gw > 0 && gh > 0 && (width != gw || height != gh);
    if !buffer_fits(width, height) || (resampled && !buffer_fits(gw, height)) {
        return Err(LayoutError::TooLarge);
    }
    let mut out = grid.resize(width, height);
    let ghost scaled = out@;
    render_overlay(&mut out, label);
    assert(covers(scaled, width as int, height as int));
    assert(scaled_grid(scaled, cells@, cell_w as int, cell_h as int, width as int, height as int));
    Ok(out)
}

} // verus!

//! Arranging equally sized cells on a grid.
use vstd::prelude::*;

verus! {

/// `n / d` rounded up.
pub open spec fn ceil_div(n: int, d: int) -> int {
    n / d + if n % d != 0 { 1int } else { 0int }
}

/// `n / d` rounded up (`u32::div_ceil`).
pub fn div_ceil(n: u32, d: u32) -> (q: u32)
    requires
        d > 0,
    ensures
        q == ceil_div(n as int, d as int),
{
    let q = n / d;
    if n % d != 0 {
        assert(q < n) by (nonlinear_arith)
            requires
                d > 0,
                q == n / d,
                n % d != 0,
        ;
        q + 1
    } else {
        q
    }
}

/// Horizontal extent `c * cell_w`, scaled by the target height, of a grid of
/// `c` columns: with `vertical_extent` it compares the grid's aspect ratio
/// with that of the target without dividing.
pub open spec fn horizontal_extent(c: int, cell_w: int, height: int) -> int {
    c * cell_w * height
}

/// Vertical extent of a grid of `c` columns holding `count` cells, scaled by
/// the target width.
pub open spec fn vertical_extent(count: int, c: int, cell_h: int, width: int) -> int {
    ceil_div(count, c) * cell_h * width
}

/// How far a grid of `c` columns is from the target aspect ratio.
pub open spec fn column_score(count: int, cell_w: int, cell_h: int, width: int, height: int, c: int) -> int {
    let a = horizontal_extent(c, cell_w, height);
    let b = vertical_extent(count, c, cell_h, width);
    if a >= b { a - b } else { b - a }
}

/// With `c` columns the grid is already wider than the target: wider grids are not tried.
pub open spec fn too_wide(count: int, cell_w: int, cell_h: int, width: int, height: int, c: int) -> bool {
    horizontal_extent(c, cell_w, height) > vertical_extent(count, c, cell_h, width)
}

/// Every product formed while scoring `c` columns fits in a `u32`.
pub open spec fn score_fits(count: int, cell_w: int, cell_h: int, width: int, height: int, c: int) -> bool {
    &&& c * cell_w <= u32::MAX
    &&& c * cell_w * height <= u32::MAX
    &&& ceil_div(count, c) * cell_h <= u32::MAX
    &&& ceil_div(count, c) * cell_h * width <= u32::MAX
}

/// The last column count tried: the first that is too wide, or `count`.
pub open spec fn is_search_end(count: int, cell_w: int, cell_h: int, width: int, height: int, last: int) -> bool {
    &&& 1 <= last <= count
    &&& too_wide(count, cell_w, cell_h, width, height, last) || last == count
    &&& forall|c: int| 1 <= c < last ==> !#[trigger] too_wide(count, cell_w, cell_h, width, height, c)
}

/// `cols` is the smallest column count in `1..=last` with the lowest score.
pub open spec fn is_first_best(count: int, cell_w: int, cell_h: int, width: int, height: int, cols: int, last: int) -> bool {
    &&& 1 <= cols <= last
    &&& forall|c: int|
        1 <= c < cols ==> #[trigger] column_score(count, cell_w, cell_h, width, height, c) > column_score(
            count,
            cell_w,
            cell_h,
            width,
            height,
            cols,
        )
    &&& forall|c: int|
        cols < c <= last ==> #[trigger] column_score(count, cell_w, cell_h, width, height, c) >= column_score(
            count,
            cell_w,
            cell_h,
            width,
            height,
            cols,
        )
}

/// Scoring reaches a column count whose products do not fit in a `u32`.
pub open spec fn search_overflows(count: int, cell_w: int, cell_h: int, width: int, height: int) -> bool {
    exists|c: int|
        1 <= c <= count && !#[trigger] score_fits(count, cell_w, cell_h, width, height, c) && forall|c2: int|
            1 <= c2 < c ==> !#[trigger] too_wide(count, cell_w, cell_h, width, height, c2)
}

/// The column count that [`best_columns`] settles on: 1 without cells,
/// otherwise the first count with the lowest score among those tried.
pub open spec fn chosen_columns(count: int, cell_w: int, cell_h: int, width: int, height: int) -> int {
    if count <= 0 {
        1
    } else {
        let pick = choose|cols: int, last: int|
            #[trigger] is_first_best(count, cell_w, cell_h, width, height, cols, last) && is_search_end(
                count,
                cell_w,
                cell_h,
                width,
                height,
                last,
            );
        pick.0
    }
}

/// The search stops at one place only, and one column count is first best there.
pub proof fn lemma_search_unique(count: int, cell_w: int, cell_h: int, width: int, height: int, cols: int, last: int)
    requires
        count > 0,
        is_search_end(count, cell_w, cell_h, width, height, last),
        is_first_best(count, cell_w, cell_h, width, height, cols, last),
    ensures
        chosen_columns(count, cell_w, cell_h, width, height) == cols,
{
    assert(is_first_best(count, cell_w, cell_h, width, height, cols, last) && is_search_end(count, cell_w, cell_h, width, height, last));
    let pick = choose|c: int, l: int|
        #[trigger] is_first_best(count, cell_w, cell_h, width, height, c, l) && is_search_end(count, cell_w, cell_h, width, height, l);
    let c2 = pick.0;
    let last2 = pick.1;
    if last2 < last {
        assert(!too_wide(count, cell_w, cell_h, width, height, last2));
    } else if last < last2 {
        assert(!too_wide(count, cell_w, cell_h, width, height, last));
    }
    assert(last2 == last);
    if c2 < cols {
        assert(column_score(count, cell_w, cell_h, width, height, c2) > column_score(count, cell_w, cell_h, width, height, cols));
    } else if cols < c2 {
        assert(column_score(count, cell_w, cell_h, width, height, cols) > column_score(count, cell_w, cell_h, width, height, c2));
    }
}

/// `ceil(n / d)` is the least `q` with `q * d >= n`.
proof fn lemma_ceil_div_least(n: int, d: int)
    requires
        n >= 0,
        d > 0,
    ensures
        ceil_div(n, d) >= 0,
        ceil_div(n, d) * d >= n,
        (ceil_div(n, d) - 1) * d < n || n == 0,
{
    let q = n / d;
    let r = n % d;
    assert(n == q * d + r && 0 <= r < d && q >= 0) by (nonlinear_arith)
        requires
            n >= 0,
            d > 0,
            q == n / d,
            r == n % d,
    ;
    if r == 0 {
        assert(ceil_div(n, d) * d >= n && ((ceil_div(n, d) - 1) * d < n || n == 0)) by (nonlinear_arith)
            requires
                ceil_div(n, d) == q,
                n == q * d,
                d > 0,
                q >= 0,
        ;
    } else {
        assert(ceil_div(n, d) * d >= n && (ceil_div(n, d) - 1) * d < n) by (nonlinear_arith)
            requires
                ceil_div(n, d) == q + 1,
                n == q * d + r,
                0 < r < d,
        ;
    }
}

/// More columns never need more rows.
proof fn lemma_ceil_div_antitone(n: int, c1: int, c2: int)
    requires
        n >= 0,
        0 < c1 <= c2,
    ensures
        ceil_div(n, c2) <= ceil_div(n, c1),
{
    lemma_ceil_div_least(n, c1);
    lemma_ceil_div_least(n, c2);
    let q1 = ceil_div(n, c1);
    let q2 = ceil_div(n, c2);
    if q2 > q1 && n > 0 {
        assert(q1 * c1 <= q1 * c2) by (nonlinear_arith)
            requires
                q1 >= 0,
                0 < c1 <= c2,
        ;
        assert(q1 * c2 <= (q2 - 1) * c2) by (nonlinear_arith)
            requires
                q1 <= q2 - 1,
                c2 > 0,
        ;
    }
    if n == 0 {
        assert(0int / c1 == 0 && 0int % c1 == 0 && 0int / c2 == 0 && 0int % c2 == 0) by (nonlinear_arith)
            requires
                c1 > 0,
                c2 > 0,
        ;
    }
}

/// Stopping the search at the first grid that is too wide loses nothing:
/// the column count it settles on is also the first with the lowest score
/// among all counts `1..=count`. (Wider grids only get wider and shorter, so
/// their scores only grow.)
pub proof fn law_search_stop_is_safe(count: int, cell_w: int, cell_h: int, width: int, height: int, cols: int, last: int)
    requires
        count > 0,
        cell_w >= 0,
        cell_h >= 0,
        width >= 0,
        height >= 0,
        is_search_end(count, cell_w, cell_h, width, height, last),
        is_first_best(count, cell_w, cell_h, width, height, cols, last),
    ensures
        is_first_best(count, cell_w, cell_h, width, height, cols, count),
{
    assert forall|c: int| cols < c <= count implies #[trigger] column_score(count, cell_w, cell_h, width, height, c) >= column_score(
        count,
        cell_w,
        cell_h,
        width,
        height,
        cols,
    ) by {
        if c > last {
            assert(too_wide(count, cell_w, cell_h, width, height, last));
            lemma_ceil_div_antitone(count, last, c);
            let a1 = horizontal_extent(last, cell_w, height);
            let a2 = horizontal_extent(c, cell_w, height);
            let q1 = ceil_div(count, last);
            let q2 = ceil_div(count, c);
            let b1 = vertical_extent(count, last, cell_h, width);
            let b2 = vertical_extent(count, c, cell_h, width);
            assert(a1 <= a2) by (nonlinear_arith)
                requires
                    a1 == last * cell_w * height,
                    a2 == c * cell_w * height,
                    0 < last < c,
                    cell_w >= 0,
                    height >= 0,
            ;
            assert(b2 <= b1) by (nonlinear_arith)
                requires
                    b1 == q1 * cell_h * width,
                    b2 == q2 * cell_h * width,
                    0 <= q2 <= q1,
                    cell_h >= 0,
                    width >= 0,
            ;
            assert(column_score(count, cell_w, cell_h, width, height, last) >= column_score(count, cell_w, cell_h, width, height, cols));
        }
    }
}

/// When a single row of all cells is, relative to the target, no wider than
/// it is tall (`count * cell_w * height <= cell_h * width`), the cells are
/// laid out in one row.
pub proof fn law_one_row_for_wide_target(count: int, cell_w: int, cell_h: int, width: int, height: int)
    requires
        count > 0,
        cell_w > 0,
        height > 0,
        cell_h >= 0,
        width >= 0,
        count * cell_w * height <= cell_h * width,
    ensures
        chosen_columns(count, cell_w, cell_h, width, height) == count,
{
    assert(ceil_div(count, count) == 1) by (nonlinear_arith)
        requires
            count > 0,
    ;
    assert(vertical_extent(count, count, cell_h, width) == cell_h * width) by (nonlinear_arith)
        requires
            ceil_div(count, count) == 1,
    ;
    assert forall|c: int| 1 <= c < count implies !too_wide(count, cell_w, cell_h, width, height, c) && #[trigger] column_score(
        count,
        cell_w,
        cell_h,
        width,
        height,
        c,
    ) > column_score(count, cell_w, cell_h, width, height, count) by {
        lemma_ceil_div_antitone(count, c, count);
        let q = ceil_div(count, c);
        assert(c * cell_w * height < count * cell_w * height) by (nonlinear_arith)
            requires
                1 <= c < count,
                cell_w > 0,
                height > 0,
        ;
        assert(q * cell_h * width >= cell_h * width) by (nonlinear_arith)
            requires
                q >= 1,
                cell_h >= 0,
                width >= 0,
        ;
    }
    assert forall|c: int| 1 <= c < count implies !#[trigger] too_wide(count, cell_w, cell_h, width, height, c) by {
        assert(column_score(count, cell_w, cell_h, width, height, c) > column_score(count, cell_w, cell_h, width, height, count));
    }
    assert(is_search_end(count, cell_w, cell_h, width, height, count));
    assert(is_first_best(count, cell_w, cell_h, width, height, count, count));
    lemma_search_unique(count, cell_w, cell_h, width, height, count, count);
}

/// Chooses how many columns to lay `count` cells of `cell_w` x `cell_h` out
/// in so that the grid's shape comes closest to `width` x `height`.
///
/// Column counts are tried from 1 up; the search stops after the first
/// count whose grid is wider than the target. The result is the first count
/// with the lowest score, and 1 when there are no cells. `None` when a
/// product formed on the way does not fit in a `u32`.
pub fn best_columns(count: u32, cell_w: u32, cell_h: u32, width: u32, height: u32) -> (r: Option<u32>)
    ensures
        r is None <==> search_overflows(count as int, cell_w as int, cell_h as int, width as int, height as int),
        r matches Some(cols) ==> (count == 0 ==> cols == 1),
        r matches Some(cols) ==> cols == chosen_columns(count as int, cell_w as int, cell_h as int, width as int, height as int),
        r matches Some(cols) ==> 1 <= cols && (count > 0 ==> cols <= count),
        r matches Some(cols) ==> (count > 0 ==> is_first_best(count as int, cell_w as int, cell_h as int, width as int, height as int, cols as int, count as int)),
{
    let ghost n = count as int;
    let ghost cw = cell_w as int;
    let ghost ch = cell_h as int;
    let ghost w = width as int;
    let ghost h = height as int;
    let mut best: u32 = u32::MAX;
    let mut columns: u32 = 1;
    let mut c: u32 = 1;
    if count == 0 {
        return Some(1);
    }
    loop
        invariant
            1 <= c <= count,
            n == count,
            cw == cell_w,
            ch == cell_h,
            w == width,
            h == height,
            forall|c2: int| 1 <= c2 < c ==> #[trigger] score_fits(n, cw, ch, w, h, c2),
            forall|c2: int| 1 <= c2 < c ==> !#[trigger] too_wide(n, cw, ch, w, h, c2),
            c == 1 ==> columns == 1 && best == u32::MAX,
            c > 1 ==> best == column_score(n, cw, ch, w, h, columns as int)
                && is_first_best(n, cw, ch, w, h, columns as int, c - 1),
        decreases count - c,
    {
        let a1 = match c.checked_mul(cell_w) {
            Some(v) => v,
            None => {
                assert(!score_fits(n, cw, ch, w, h, c as int));
                return None;
            },
        };
        let a = match a1.checked_mul(height) {
            Some(v) => v,
            None => {
                assert(!score_fits(n, cw, ch, w, h, c as int));
                return None;
            },
        };
        let q = div_ceil(count, c);
        let b1 = match q.checked_mul(cell_h) {
            Some(v) => v,
            None => {
                assert(!score_fits(n, cw, ch, w, h, c as int));
                return None;
            },
        };
        let b = match b1.checked_mul(width) {
            Some(v) => v,
            None => {
                assert(!score_fits(n, cw, ch, w, h, c as int));
                return None;
            },
        };
        assert(score_fits(n, cw, ch, w, h, c as int));
        let score = if a >= b { a - b } else { b - a };
        assert(score == column_score(n, cw, ch, w, h, c as int));
        if score < best {
            best = score;
            columns = c;
        }
        assert(is_first_best(n, cw, ch, w, h, columns as int, c as int));
        if a > b || c == count {
            assert(is_search_end(n, cw, ch, w, h, c as int));
            proof {
                lemma_search_unique(n, cw, ch, w, h, columns as int, c as int);
                law_search_stop_is_safe(n, cw, ch, w, h, columns as int, c as int);
            }
            assert(!search_overflows(n, cw, ch, w, h)) by {
                if search_overflows(n, cw, ch, w, h) {
                    let c3 = choose|c3: int|
                        1 <= c3 <= n && !#[trigger] score_fits(n, cw, ch, w, h, c3) && forall|c2: int|
                            1 <= c2 < c3 ==> !#[trigger] too_wide(n, cw, ch, w, h, c2);
                    if c3 > c {
                        assert(!too_wide(n, cw, ch, w, h, c as int));
                    }
                }
            }
            return Some(columns);
        }
        c = c + 1;
    }
}

} // verus!

//! One benchmark cell: the text stamp drawn several times with layered effects.
use crate::canvas::{Canvas, Rgba, in_rect, spec_white, white, covers};
use crate::paint::{Write, paint, paint_row, put_clip, all_alpha, lemma_paint_keeps_alpha, lands_on, lemma_paint_dom, lemma_paint_untouched, lemma_paint_last};
use vstd::prelude::*;

verus! {

/// The parts of the cell's effects that come from floating-point formulas,
/// worked out ahead for every channel value or source pixel they apply to.
#[derive(Clone, Debug)]
pub struct CellEffects {
    /// Glow: for each of the 49 offsets `(dx, dy)` in `-3..=3` x `-3..=3`
    /// (`dx` major), the glowing value of each channel value `0..=255`.
    pub glow: Vec<Vec<u8>>,
    /// Extrusion: for each of the 8 steps, the darkened value of each channel value.
    pub shade: Vec<Vec<u8>>,
    /// Extrusion: horizontal wave offset of each source column.
    pub wave_x: Vec<u32>,
    /// Extrusion: vertical wave offset of each source row.
    pub wave_y: Vec<u32>,
    /// Front layer: position of each source pixel (`[row][column]`) after turning and squashing.
    pub turn: Vec<Vec<(u32, u32)>>,
    /// Colour jitter: horizontal offset of each source column.
    pub jitter_x: Vec<i32>,
    /// Colour jitter: vertical offset of each source row.
    pub jitter_y: Vec<i32>,
    /// Colour jitter: rainbow colour of each source pixel (`[row][column]`).
    pub tint: Vec<Vec<(u8, u8, u8)>>,
}

impl CellEffects {
    /// The tables have the sizes that a `w` x `h` stamp needs, and hold what
    /// the formulas can give: wave offsets in `0..=5` (a rounded `5 sin` or
    /// `5 cos`, negative values cut to 0), jitter offsets in `-5..=5`, and turned
    /// positions no further than `w + h` from the base.
    pub open spec fn fits(&self, w: int, h: int) -> bool {
        &&& self.glow@.len() == 49
        &&& forall|k: int| 0 <= k < 49 ==> (#[trigger] self.glow@[k])@.len() == 256
        &&& self.shade@.len() == 8
        &&& forall|e: int| 0 <= e < 8 ==> (#[trigger] self.shade@[e])@.len() == 256
        &&& self.wave_x@.len() == w
        &&& self.wave_y@.len() == h
        &&& self.turn@.len() == h
        &&& forall|y: int| 0 <= y < h ==> (#[trigger] self.turn@[y])@.len() == w
        &&& self.jitter_x@.len() == w
        &&& self.jitter_y@.len() == h
        &&& self.tint@.len() == h
        &&& forall|y: int| 0 <= y < h ==> (#[trigger] self.tint@[y])@.len() == w
        &&& forall|x: int| 0 <= x < w ==> #[trigger] self.wave_x@[x] <= 5
        &&& forall|y: int| 0 <= y < h ==> #[trigger] self.wave_y@[y] <= 5
        &&& forall|x: int| 0 <= x < w ==> -5 <= #[trigger] self.jitter_x@[x] <= 5
        &&& forall|y: int| 0 <= y < h ==> -5 <= #[trigger] self.jitter_y@[y] <= 5
        &&& forall|x: int, y: int|
            0 <= x < w && 0 <= y < h ==> (#[trigger] self.turn@[y]@[x]).0 <= w + h && self.turn@[y]@[x].1 <= w + h
    }
}

/// One layer of the cell: each draws every stamp pixel once.
#[derive(Clone, Copy)]
pub enum Pass {
    /// Glow layer `k`, offset by `(k / 7 - 3, k % 7 - 3)`.
    Glow(u32),
    /// Extrusion step `e`, offset by `(5 e, 2 e)` and waved.
    Extrude(u32),
    /// Turned front layer with a warmer red.
    Turn,
    /// White sparkles on bright pixels.
    Sparkle,
    /// A few pixels moved 3 to the right with shifted colours.
    Shift,
    /// About one pixel in seven moved and mixed with a rainbow colour.
    Jitter,
}

/// The layers of a cell, in drawing order: 49 glow layers, 8 extrusion steps,
/// then the front, sparkle, shift and jitter layers.
pub open spec fn cell_passes() -> Seq<Pass> {
    Seq::new(49, |k: int| Pass::Glow(k as u32)) + Seq::new(8, |e: int| Pass::Extrude(e as u32)) + seq![
        Pass::Turn,
        Pass::Sparkle,
        Pass::Shift,
        Pass::Jitter,
    ]
}

/// `v + d`, at most 255.
pub open spec fn add_sat(v: u8, d: int) -> u8 {
    if v + d > 255 { 255 } else { (v + d) as u8 }
}

/// `v - d`, at least 0.
pub open spec fn sub_sat(v: u8, d: int) -> u8 {
    if v - d < 0 { 0 } else { (v - d) as u8 }
}

/// What the layer `pass` does with stamp pixel `(x, y)` when the stamp is
/// drawn at `(bx, by)` for cell number `ci`.
pub open spec fn pass_write(stamp: Canvas, fx: CellEffects, bx: int, by: int, ci: int, pass: Pass, x: int, y: int) -> Write {
    let s = stamp@[(x, y)];
    match pass {
        Pass::Glow(k) => {
            let t = fx.glow@[k as int]@;
            if stamp.width <= i32::MAX && stamp.height <= i32::MAX {
                Some((as_i32(bx) + (k / 7) - 3 + x, as_i32(by) + (k % 7) - 3 + y, Rgba { r: t[s.r as int], g: t[s.g as int], b: t[s.b as int], a: s.a }))
            } else {
                None
            }
        },
        Pass::Extrude(e) => {
            let t = fx.shade@[e as int]@;
            Some((bx + 5 * e + x + fx.wave_x@[x], by + 2 * e + y + fx.wave_y@[y], Rgba { r: t[s.r as int], g: t[s.g as int], b: t[s.b as int], a: s.a }))
        },
        Pass::Turn => {
            let d = fx.turn@[y]@[x];
            Some((bx + d.0, by + d.1, Rgba { r: add_sat(s.r, 30), g: s.g, b: s.b, a: s.a }))
        },
        Pass::Sparkle => {
            if (s.r + s.g + s.b) / 3 > 200 && (x + y + ci) % 97 == 0 {
                Some((bx + x, by + y, Rgba { r: 255, g: 255, b: 255, a: s.a }))
            } else {
                None
            }
        },
        Pass::Shift => {
            if (x + y + ci) % 101 == 0 {
                Some((bx + x + 3, by + y, Rgba { r: sub_sat(s.r, 10), g: sub_sat(s.g, 10), b: add_sat(s.b, 10), a: s.a }))
            } else {
                None
            }
        },
        Pass::Jitter => {
            if (x + y + ci) % 7 == 0 && stamp.width <= i32::MAX && stamp.height <= i32::MAX {
                let t = fx.tint@[y]@[x];
                Some((as_i32(bx) + x + fx.jitter_x@[x], as_i32(by) + y + fx.jitter_y@[y], Rgba {
                    r: ((s.r + t.0) / 2) as u8,
                    g: ((s.g + t.1) / 2) as u8,
                    b: ((s.b + t.2) / 2) as u8,
                    a: s.a,
                }))
            } else {
                None
            }
        },
    }
}

/// The writes of one layer, as a function of the source pixel.
pub open spec fn pass_fn(stamp: Canvas, fx: CellEffects, bx: int, by: int, ci: int, pass: Pass) -> spec_fn(int, int) -> Write {
    |x: int, y: int| pass_write(stamp, fx, bx, by, ci, pass, x, y)
}

/// The image after drawing the layers `passes` in order.
pub open spec fn apply_passes(m: Map<(int, int), Rgba>, stamp: Canvas, fx: CellEffects, bx: int, by: int, ci: int, passes: Seq<Pass>) -> Map<
    (int, int),
    Rgba,
>
    decreases passes.len(),
{
    if passes.len() == 0 {
        m
    } else {
        paint(
            apply_passes(m, stamp, fx, bx, by, ci, passes.drop_last()),
            pass_fn(stamp, fx, bx, by, ci, passes.last()),
            stamp.width as nat,
            stamp.height as nat,
        )
    }
}

/// A white image of the given size.
pub open spec fn blank(w: int, h: int) -> Map<(int, int), Rgba> {
    Map::new(|p: (int, int)| in_rect(w, h, p), |p: (int, int)| spec_white())
}

/// The cell drawn from `stamp` at `(bx, by)`: a white image of the stamp's size
/// with every layer of [`cell_passes`] drawn on it.
pub open spec fn cell_image(stamp: Canvas, fx: CellEffects, bx: int, by: int, ci: int) -> Map<(int, int), Rgba> {
    apply_passes(blank(stamp.width as int, stamp.height as int), stamp, fx, bx, by, ci, cell_passes())
}

/// `v` is an `i32` value.
pub open spec fn in_i32(v: int) -> bool {
    i32::MIN <= v <= i32::MAX
}

/// The `i32` that `v as i32` gives for a `u32` value `v`.
pub open spec fn as_i32(v: int) -> int {
    if v <= i32::MAX { v } else { v - 0x1_0000_0000 }
}

/// Stamp pixel `(x, y)` sparkles.
pub open spec fn sparkles(stamp: Canvas, ci: int, x: int, y: int) -> bool {
    let s = stamp@[(x, y)];
    (s.r + s.g + s.b) / 3 > 200 && (x + y + ci) % 97 == 0
}

/// No position computed for stamp column `x` (glow, in `i32`, and
/// extrusion, in `u32`) leaves its type.
pub open spec fn column_fits(fx: CellEffects, bx: int, x: int) -> bool {
    &&& in_i32(as_i32(bx) - 3 + as_i32(x))
    &&& in_i32(as_i32(bx) + 3 + as_i32(x))
    &&& bx + 35 + x + fx.wave_x@[x] <= u32::MAX
}

/// No position computed for stamp row `y` leaves its type.
pub open spec fn row_fits(fx: CellEffects, by: int, y: int) -> bool {
    &&& in_i32(as_i32(by) - 3 + as_i32(y))
    &&& in_i32(as_i32(by) + 3 + as_i32(y))
    &&& by + 14 + y + fx.wave_y@[y] <= u32::MAX
}

/// No position computed for stamp pixel `(x, y)` by the front, sparkle,
/// shift and jitter layers leaves its type.
pub open spec fn pixel_fits(stamp: Canvas, fx: CellEffects, bx: int, by: int, ci: int, x: int, y: int) -> bool {
    &&& bx + fx.turn@[y]@[x].0 <= u32::MAX
    &&& by + fx.turn@[y]@[x].1 <= u32::MAX
    &&& sparkles(stamp, ci, x, y) ==> bx + x <= u32::MAX && by + y <= u32::MAX
    &&& (x + y + ci) % 101 == 0 ==> bx + x + 3 <= u32::MAX && by + y <= u32::MAX
    &&& (x + y + ci) % 7 == 0 ==> {
        &&& in_i32(as_i32(bx) + as_i32(x))
        &&& in_i32(as_i32(bx) + as_i32(x) + fx.jitter_x@[x])
        &&& in_i32(as_i32(by) + as_i32(y))
        &&& in_i32(as_i32(by) + as_i32(y) + fx.jitter_y@[y])
    }
}

/// No integer computed while drawing the cell leaves its type (in
/// fixed-width arithmetic the positions would overflow otherwise).
pub open spec fn cell_fits(stamp: Canvas, fx: CellEffects, bx: int, by: int, ci: int) -> bool {
    let w = stamp.width as int;
    let h = stamp.height as int;
    &&& bx + 35 <= u32::MAX
    &&& by + 14 <= u32::MAX
    &&& w > 0 && h > 0 ==> {
        &&& in_i32(as_i32(bx) - 3) && in_i32(as_i32(bx) + 3)
        &&& in_i32(as_i32(by) - 3) && in_i32(as_i32(by) + 3)
        &&& (w - 1) + (h - 1) + ci <= u32::MAX
        &&& forall|x: int| 0 <= x < w ==> #[trigger] column_fits(fx, bx, x)
        &&& forall|y: int| 0 <= y < h ==> #[trigger] row_fits(fx, by, y)
        &&& forall|x: int, y: int| 0 <= x < w && 0 <= y < h ==> #[trigger] pixel_fits(stamp, fx, bx, by, ci, x, y)
    }
}

/// A layer that [`cell_passes`] can hold.
pub open spec fn pass_ok(pass: Pass) -> bool {
    match pass {
        Pass::Glow(k) => k < 49,
        Pass::Extrude(e) => e < 8,
        _ => true,
    }
}

/// Lifts a computed write to the spec's integers.
pub open spec fn lift(o: Option<(i64, i64, Rgba)>) -> Write {
    match o {
        Some(t) => Some((t.0 as int, t.1 as int, t.2)),
        None => None,
    }
}

/// `v as i32`, widened to `i64`.
fn signed(v: u32) -> (r: i64)
    ensures
        r == as_i32(v as int),
{
    if v <= 0x7fff_ffff {
        v as i64
    } else {
        v as i64 - 0x1_0000_0000
    }
}

/// What layer `pass` does with stamp pixel `(x, y)`.
fn pass_write_exec(stamp: &Canvas, fx: &CellEffects, base_x: u32, base_y: u32, ci: u32, pass: Pass, x: u32, y: u32) -> (r: Option<(i64, i64, Rgba)>)
    requires
        stamp.wf(),
        fx.fits(stamp.width as int, stamp.height as int),
        cell_fits(*stamp, *fx, base_x as int, base_y as int, ci as int),
        pass_ok(pass),
        x < stamp.width,
        y < stamp.height,
    ensures
        lift(r) == pass_write(*stamp, *fx, base_x as int, base_y as int, ci as int, pass, x as int, y as int),
{
    let s = stamp.get_pixel(x, y);
    let bx = base_x as i64;
    let by = base_y as i64;
    let bxi = signed(base_x);
    let byi = signed(base_y);
    let small = stamp.width <= 0x7fff_ffff && stamp.height <= 0x7fff_ffff;
    match pass {
        Pass::Glow(k) => {
            if !small {
                return None;
            }
            let t = &fx.glow[k as usize];
            let c = Rgba { r: t[s.r as usize], g: t[s.g as usize], b: t[s.b as usize], a: s.a };
            Some((bxi + (k / 7) as i64 - 3 + x as i64, byi + (k % 7) as i64 - 3 + y as i64, c))
        },
        Pass::Extrude(e) => {
            let t = &fx.shade[e as usize];
            let c = Rgba { r: t[s.r as usize], g: t[s.g as usize], b: t[s.b as usize], a: s.a };
            Some((
                bx + 5 * (e as i64) + x as i64 + fx.wave_x[x as usize] as i64,
                by + 2 * (e as i64) + y as i64 + fx.wave_y[y as usize] as i64,
                c,
            ))
        },
        Pass::Turn => {
            let d = fx.turn[y as usize][x as usize];
            Some((bx + d.0 as i64, by + d.1 as i64, Rgba { r: s.r.saturating_add(30), g: s.g, b: s.b, a: s.a }))
        },
        Pass::Sparkle => {
            let lum: u32 = (s.r as u32 + s.g as u32 + s.b as u32) / 3;
            if lum > 200 && (x as u64 + y as u64 + ci as u64) % 97 == 0 {
                Some((bx + x as i64, by + y as i64, Rgba { r: 255, g: 255, b: 255, a: s.a }))
            } else {
                None
            }
        },
        Pass::Shift => {
            if (x as u64 + y as u64 + ci as u64) % 101 == 0 {
                let nb: u8 = if s.b >= 245 { 255 } else { s.b + 10 };
                let c = Rgba { r: s.r.saturating_sub(10), g: s.g.saturating_sub(10), b: nb, a: s.a };
                Some((bx + x as i64 + 3, by + y as i64, c))
            } else {
                None
            }
        },
        Pass::Jitter => {
            if (x as u64 + y as u64 + ci as u64) % 7 == 0 && small {
                let t = fx.tint[y as usize][x as usize];
                let c = Rgba {
                    r: ((s.r as u16 + t.0 as u16) / 2) as u8,
                    g: ((s.g as u16 + t.1 as u16) / 2) as u8,
                    b: ((s.b as u16 + t.2 as u16) / 2) as u8,
                    a: s.a,
                };
                Some((
                    bxi + x as i64 + fx.jitter_x[x as usize] as i64,
                    byi + y as i64 + fx.jitter_y[y as usize] as i64,
                    c,
                ))
            } else {
                None
            }
        },
    }
}

/// Draws one layer: every stamp pixel in row-major order.
fn run_pass(canvas: &mut Canvas, stamp: &Canvas, fx: &CellEffects, base_x: u32, base_y: u32, ci: u32, pass: Pass)
    requires
        old(canvas).wf(),
        stamp.wf(),
        fx.fits(stamp.width as int, stamp.height as int),
        cell_fits(*stamp, *fx, base_x as int, base_y as int, ci as int),
        pass_ok(pass),
    ensures
        final(canvas).wf(),
        final(canvas).width == old(canvas).width,
        final(canvas).height == old(canvas).height,
        final(canvas)@ == paint(
            old(canvas)@,
            pass_fn(*stamp, *fx, base_x as int, base_y as int, ci as int, pass),
            stamp.width as nat,
            stamp.height as nat,
        ),
{
    let ghost f = pass_fn(*stamp, *fx, base_x as int, base_y as int, ci as int, pass);
    let ghost start = canvas@;
    let w = stamp.width;
    let h = stamp.height;
    let mut y: u32 = 0;
    while y < h
        invariant
            y <= h,
            w == stamp.width,
            h == stamp.height,
            stamp.wf(),
            fx.fits(stamp.width as int, stamp.height as int),
            cell_fits(*stamp, *fx, base_x as int, base_y as int, ci as int),
            pass_ok(pass),
            f == pass_fn(*stamp, *fx, base_x as int, base_y as int, ci as int, pass),
            canvas.wf(),
            canvas.width == old(canvas).width,
            canvas.height == old(canvas).height,
            start == old(canvas)@,
            canvas@ == paint(start, f, w as nat, y as nat),
        decreases h - y,
    {
        let ghost row_start = canvas@;
        let mut x: u32 = 0;
        while x < w
            invariant
                x <= w,
                y < h,
                w == stamp.width,
                h == stamp.height,
                stamp.wf(),
                fx.fits(stamp.width as int, stamp.height as int),
                cell_fits(*stamp, *fx, base_x as int, base_y as int, ci as int),
                pass_ok(pass),
                f == pass_fn(*stamp, *fx, base_x as int, base_y as int, ci as int, pass),
                canvas.wf(),
                canvas.width == old(canvas).width,
                canvas.height == old(canvas).height,
                row_start == paint(start, f, w as nat, y as nat),
                canvas@ == paint_row(row_start, f, y as int, x as nat),
            decreases w - x,
        {
            let wr = pass_write_exec(stamp, fx, base_x, base_y, ci, pass, x, y);
            match wr {
                Some((px, py, c)) => {
                    canvas.put_clip(px, py, c);
                },
                None => {},
            }
            assert(f(x as int, y as int) == lift(wr));
            x = x + 1;
        }
        y = y + 1;
    }
}

/// The `k`-th layer of [`cell_passes`].
fn pass_at(k: usize) -> (p: Pass)
    requires
        k < 61,
    ensures
        p == cell_passes()[k as int],
        pass_ok(p),
{
    if k < 49 {
        Pass::Glow(k as u32)
    } else if k < 57 {
        Pass::Extrude((k - 49) as u32)
    } else if k == 57 {
        Pass::Turn
    } else if k == 58 {
        Pass::Sparkle
    } else if k == 59 {
        Pass::Shift
    } else {
        Pass::Jitter
    }
}

/// Draws cell number `cell_index` from the text stamp, placed at
/// `(base_x, base_y)` on a white canvas of the stamp's size.
///
/// The layers, in order: a faint glow around the text (49 offsets), an
/// extrusion of 8 progressively darker waved copies, a turned and squashed
/// front copy with a warmer red, white sparkles on bright pixels, a few pixels
/// moved right with shifted colours, and about one pixel in seven moved and
/// mixed with a rainbow colour. Pixels drawn outside the canvas are dropped.
pub fn render_cell(stamp: &Canvas, base_x: u32, base_y: u32, cell_index: u32, fx: &CellEffects) -> (c: Canvas)
    requires
        stamp.wf(),
        fx.fits(stamp.width as int, stamp.height as int),
        cell_fits(*stamp, *fx, base_x as int, base_y as int, cell_index as int),
    ensures
        c.wf(),
        c.width == stamp.width,
        c.height == stamp.height,
        c@ == cell_image(*stamp, *fx, base_x as int, base_y as int, cell_index as int),
{
    let mut canvas = Canvas::from_pixel(stamp.width, stamp.height, white());
    let ghost start = canvas@;
    assert(start =~= blank(stamp.width as int, stamp.height as int));
    let mut k: usize = 0;
    while k < 61
        invariant
            k <= 61,
            stamp.wf(),
            fx.fits(stamp.width as int, stamp.height as int),
            cell_fits(*stamp, *fx, base_x as int, base_y as int, cell_index as int),
            canvas.wf(),
            canvas.width == stamp.width,
            canvas.height == stamp.height,
            start == blank(stamp.width as int, stamp.height as int),
            canvas@ == apply_passes(start, *stamp, *fx, base_x as int, base_y as int, cell_index as int, cell_passes().take(k as int)),
        decreases 61 - k,
    {
        let pass = pass_at(k);
        run_pass(&mut canvas, stamp, fx, base_x, base_y, cell_index, pass);
        assert(cell_passes().take(k + 1).drop_last() =~= cell_passes().take(k as int));
        k = k + 1;
    }
    assert(cell_passes().len() == 61);
    assert(cell_passes().take(61) =~= cell_passes());
    canvas
}

proof fn lemma_passes_keep_alpha(m: Map<(int, int), Rgba>, stamp: Canvas, fx: CellEffects, bx: int, by: int, ci: int, passes: Seq<Pass>)
    requires
        stamp.wf(),
        all_alpha(stamp@, 255),
        all_alpha(m, 255),
    ensures
        all_alpha(apply_passes(m, stamp, fx, bx, by, ci, passes), 255),
        apply_passes(m, stamp, fx, bx, by, ci, passes).dom() == m.dom(),
    decreases passes.len(),
{
    if passes.len() > 0 {
        lemma_passes_keep_alpha(m, stamp, fx, bx, by, ci, passes.drop_last());
        let f = pass_fn(stamp, fx, bx, by, ci, passes.last());
        assert forall|x: int, y: int| 0 <= x < stamp.width && 0 <= y < stamp.height implies (#[trigger] f(x, y) matches Some(t) ==> t.2.a == 255) by {
            assert(stamp@.dom().contains((x, y)));
        }
        lemma_paint_keeps_alpha(
            apply_passes(m, stamp, fx, bx, by, ci, passes.drop_last()),
            f,
            stamp.width as nat,
            stamp.height as nat,
            stamp.height as nat,
            255,
        );
    }
}

/// A cell drawn from a stamp whose pixels are all opaque is opaque
/// everywhere, and covers exactly the stamp's rectangle.
pub proof fn law_opaque_stamp_gives_opaque_cell(stamp: Canvas, fx: CellEffects, bx: int, by: int, ci: int)
    requires
        stamp.wf(),
        all_alpha(stamp@, 255),
    ensures
        all_alpha(cell_image(stamp, fx, bx, by, ci), 255),
        cell_image(stamp, fx, bx, by, ci).dom() == stamp@.dom(),
{
    let m = blank(stamp.width as int, stamp.height as int);
    lemma_passes_keep_alpha(m, stamp, fx, bx, by, ci, cell_passes());
    assert(m.dom() =~= stamp@.dom());
}

/// Where extrusion step `e` draws stamp pixel `(x, y)` for a cell drawn at
/// `(bx, by)`: `5 e` right and `2 e` down, plus the waves of its column and row.
pub open spec fn extrusion_target(fx: CellEffects, bx: int, by: int, e: int, x: int, y: int) -> (int, int) {
    (bx + 5 * e + x + fx.wave_x@[x], by + 2 * e + y + fx.wave_y@[y])
}

/// Stamp colour `s` darkened through the table `t`, channel by channel.
pub open spec fn shaded(t: Seq<u8>, s: Rgba) -> Rgba {
    Rgba { r: t[s.r as int], g: t[s.g as int], b: t[s.b as int], a: s.a }
}

/// No write of the cell after that of layer `k` from stamp pixel `(x, y)`
/// (the later stamp pixels of that layer in row-major order, and every stamp
/// pixel of the later layers) lands on pixel `t`.
pub open spec fn no_later_write(stamp: Canvas, fx: CellEffects, bx: int, by: int, ci: int, k: int, x: int, y: int, t: (int, int)) -> bool {
    forall|j: int, u: int, v: int|
        k <= j < 61 && 0 <= u < stamp.width && 0 <= v < stamp.height && (j > k || v > y || (v == y && u > x)) ==> !lands_on(
            #[trigger] pass_write(stamp, fx, bx, by, ci, cell_passes()[j], u, v),
            t,
        )
}

proof fn lemma_passes_dom(m: Map<(int, int), Rgba>, stamp: Canvas, fx: CellEffects, bx: int, by: int, ci: int, passes: Seq<Pass>)
    ensures
        apply_passes(m, stamp, fx, bx, by, ci, passes).dom() == m.dom(),
    decreases passes.len(),
{
    if passes.len() > 0 {
        lemma_passes_dom(m, stamp, fx, bx, by, ci, passes.drop_last());
        lemma_paint_dom(
            apply_passes(m, stamp, fx, bx, by, ci, passes.drop_last()),
            pass_fn(stamp, fx, bx, by, ci, passes.last()),
            stamp.width as nat,
            stamp.height as nat,
        );
    }
}

/// Drawing the first `k + 1` layers is drawing the first `k`, then layer `k`.
proof fn lemma_passes_step(m: Map<(int, int), Rgba>, stamp: Canvas, fx: CellEffects, bx: int, by: int, ci: int, passes: Seq<Pass>, k: int)
    requires
        0 <= k < passes.len(),
    ensures
        apply_passes(m, stamp, fx, bx, by, ci, passes.take(k + 1)) == paint(
            apply_passes(m, stamp, fx, bx, by, ci, passes.take(k)),
            pass_fn(stamp, fx, bx, by, ci, passes[k]),
            stamp.width as nat,
            stamp.height as nat,
        ),
{
    assert(passes.take(k + 1).drop_last() =~= passes.take(k));
    assert(passes.take(k + 1).last() == passes[k]);
}

/// Layers `k..61` leave pixel `t` alone when none of their writes lands on it.
proof fn lemma_later_layers_untouched(stamp: Canvas, fx: CellEffects, bx: int, by: int, ci: int, k: int, x: int, y: int, t: (int, int), k0: int)
    requires
        k0 < k <= 61,
        0 <= k0,
        in_rect(stamp.width as int, stamp.height as int, t),
        no_later_write(stamp, fx, bx, by, ci, k0, x, y, t),
    ensures
        cell_image(stamp, fx, bx, by, ci)[t] == apply_passes(
            blank(stamp.width as int, stamp.height as int),
            stamp,
            fx,
            bx,
            by,
            ci,
            cell_passes().take(k),
        )[t],
    decreases 61 - k,
{
    let b = blank(stamp.width as int, stamp.height as int);
    if k == 61 {
        assert(cell_passes().take(61) =~= cell_passes());
    } else {
        lemma_later_layers_untouched(stamp, fx, bx, by, ci, k + 1, x, y, t, k0);
        lemma_passes_step(b, stamp, fx, bx, by, ci, cell_passes(), k);
        let prev = apply_passes(b, stamp, fx, bx, by, ci, cell_passes().take(k));
        lemma_passes_dom(b, stamp, fx, bx, by, ci, cell_passes().take(k));
        let f = pass_fn(stamp, fx, bx, by, ci, cell_passes()[k]);
        assert forall|u: int, v: int| 0 <= u < stamp.width && 0 <= v < stamp.height implies !lands_on(#[trigger] f(u, v), t) by {
            assert(!lands_on(pass_write(stamp, fx, bx, by, ci, cell_passes()[k], u, v), t));
        }
        lemma_paint_untouched(prev, f, stamp.width as nat, stamp.height as nat, t);
    }
}

/// Extrusion darkens: a pixel of the cell that extrusion step `e` reaches
/// from stamp pixel `(x, y)` (at `5 e` right and `2 e` down, plus the waves)
/// and that nothing drawn afterwards reaches shows the stamp pixel's colour
/// with each channel mapped through the step's table `fx.shade[e]`, its
/// alpha kept.
pub proof fn law_extrusion_darkens(stamp: Canvas, fx: CellEffects, bx: int, by: int, ci: int, e: int, x: int, y: int)
    requires
        stamp.wf(),
        fx.fits(stamp.width as int, stamp.height as int),
        0 <= e < 8,
        0 <= x < stamp.width,
        0 <= y < stamp.height,
        in_rect(stamp.width as int, stamp.height as int, extrusion_target(fx, bx, by, e, x, y)),
        no_later_write(stamp, fx, bx, by, ci, 49 + e, x, y, extrusion_target(fx, bx, by, e, x, y)),
    ensures
        cell_image(stamp, fx, bx, by, ci)[extrusion_target(fx, bx, by, e, x, y)] == shaded(fx.shade@[e]@, stamp@[(x, y)]),
{
    let t = extrusion_target(fx, bx, by, e, x, y);
    let k0 = 49 + e;
    let b = blank(stamp.width as int, stamp.height as int);
    let passes = cell_passes();
    assert(passes[k0] == Pass::Extrude(e as u32));
    lemma_passes_step(b, stamp, fx, bx, by, ci, passes, k0);
    let prev = apply_passes(b, stamp, fx, bx, by, ci, passes.take(k0));
    lemma_passes_dom(b, stamp, fx, bx, by, ci, passes.take(k0));
    let f = pass_fn(stamp, fx, bx, by, ci, passes[k0]);
    let c = shaded(fx.shade@[e]@, stamp@[(x, y)]);
    assert(f(x, y) == Some((t.0, t.1, c)));
    assert forall|u: int, v: int|
        0 <= u < stamp.width && 0 <= v < stamp.height && (v > y || (v == y && u > x)) implies !lands_on(#[trigger] f(u, v), t) by {
        assert(!lands_on(pass_write(stamp, fx, bx, by, ci, passes[k0], u, v), t));
    }
    lemma_paint_last(prev, f, stamp.width as nat, stamp.height as nat, x, y, t, c);
    lemma_later_layers_untouched(stamp, fx, bx, by, ci, k0 + 1, x, y, t, k0);
}

impl CellEffects {
    /// Whether the tables have the sizes that a `w` x `h` stamp needs.
    pub fn fits_stamp(&self, w: u32, h: u32) -> (r: bool)
        ensures
            r == self.fits(w as int, h as int),
    {
        if self.glow.len() != 49 || self.shade.len() != 8 || self.wave_x.len() != w as usize || self.wave_y.len() != h as usize
            || self.turn.len() != h as usize || self.jitter_x.len() != w as usize || self.jitter_y.len() != h as usize
            || self.tint.len() != h as usize {
            return false;
        }
        let mut k: usize = 0;
        while k < 49
            invariant
                k <= 49,
                self.glow@.len() == 49,
                forall|j: int| 0 <= j < k ==> (#[trigger] self.glow@[j])@.len() == 256,
            decreases 49 - k,
        {
            if self.glow[k].len() != 256 {
                return false;
            }
            k = k + 1;
        }
        let mut e: usize = 0;
        while e < 8
            invariant
                e <= 8,
                self.shade@.len() == 8,
                forall|j: int| 0 <= j < e ==> (#[trigger] self.shade@[j])@.len() == 256,
            decreases 8 - e,
        {
            if self.shade[e].len() != 256 {
                return false;
            }
            e = e + 1;
        }
        let mut x: usize = 0;
        while x < w as usize
            invariant
                x <= w,
                self.wave_x@.len() == w,
                self.jitter_x@.len() == w,
                forall|j: int| 0 <= j < x ==> #[trigger] self.wave_x@[j] <= 5,
                forall|j: int| 0 <= j < x ==> -5 <= #[trigger] self.jitter_x@[j] <= 5,
            decreases w - x,
        {
            if self.wave_x[x] > 5 || self.jitter_x[x] < -5 || self.jitter_x[x] > 5 {
                return false;
            }
            x = x + 1;
        }
        let mut y: usize = 0;
        while y < h as usize
            invariant
                y <= h,
                self.wave_y@.len() == h,
                self.jitter_y@.len() == h,
                forall|j: int| 0 <= j < y ==> #[trigger] self.wave_y@[j] <= 5,
                forall|j: int| 0 <= j < y ==> -5 <= #[trigger] self.jitter_y@[j] <= 5,
            decreases h - y,
        {
            if self.wave_y[y] > 5 || self.jitter_y[y] < -5 || self.jitter_y[y] > 5 {
                return false;
            }
            y = y + 1;
        }
        let reach: u64 = w as u64 + h as u64;
        let mut y: usize = 0;
        while y < h as usize
            invariant
                y <= h,
                reach == w + h,
                self.turn@.len() == h,
                self.tint@.len() == h,
                forall|j: int| 0 <= j < y ==> (#[trigger] self.turn@[j])@.len() == w,
                forall|j: int| 0 <= j < y ==> (#[trigger] self.tint@[j])@.len() == w,
                forall|i: int, j: int|
                    0 <= i < w && 0 <= j < y ==> (#[trigger] self.turn@[j]@[i]).0 <= w + h && self.turn@[j]@[i].1 <= w + h,
            decreases h - y,
        {
            if self.turn[y].len() != w as usize || self.tint[y].len() != w as usize {
                return false;
            }
            let row = &self.turn[y];
            let mut x: usize = 0;
            while x < w as usize
                invariant
                    x <= w,
                    y < h,
                    reach == w + h,
                    row@ == self.turn@[y as int]@,
                    row@.len() == w,
                    forall|i: int| 0 <= i < x ==> (#[trigger] row@[i]).0 <= w + h && row@[i].1 <= w + h,
                decreases w - x,
            {
                let d = row[x];
                if d.0 as u64 > reach || d.1 as u64 > reach {
                    return false;
                }
                x = x + 1;
            }
            assert forall|i: int, j: int|
                0 <= i < w && 0 <= j < y + 1 implies (#[trigger] self.turn@[j]@[i]).0 <= w + h && self.turn@[j]@[i].1 <= w + h by {
                if j == y {
                    assert(row@[i] == self.turn@[j]@[i]);
                }
            }
            y = y + 1;
        }
        true
    }
}

fn fits_i32(v: i64) -> (r: bool)
    ensures
        r == in_i32(v as int),
{
    -0x8000_0000 <= v && v <= 0x7fff_ffff
}

/// Whether no position computed for stamp pixel `(x, y)` leaves its type
/// (see [`pixel_fits`]).
fn check_pixel_fits(stamp: &Canvas, fx: &CellEffects, base_x: u32, base_y: u32, ci: u32, x: u32, y: u32) -> (r: bool)
    requires
        stamp.wf(),
        fx.fits(stamp.width as int, stamp.height as int),
        x < stamp.width,
        y < stamp.height,
    ensures
        r == pixel_fits(*stamp, *fx, base_x as int, base_y as int, ci as int, x as int, y as int),
{
    let bx = base_x as i64;
    let by = base_y as i64;
    let d = fx.turn[y as usize][x as usize];
    if bx + d.0 as i64 > 0xffff_ffff || by + d.1 as i64 > 0xffff_ffff {
        return false;
    }
    let s = stamp.get_pixel(x, y);
    let lum: u32 = (s.r as u32 + s.g as u32 + s.b as u32) / 3;
    let sum: u64 = x as u64 + y as u64 + ci as u64;
    if lum > 200 && sum % 97 == 0 && (bx + x as i64 > 0xffff_ffff || by + y as i64 > 0xffff_ffff) {
        return false;
    }
    if sum % 101 == 0 && (bx + x as i64 + 3 > 0xffff_ffff || by + y as i64 > 0xffff_ffff) {
        return false;
    }
    if sum % 7 == 0 {
        let jx0 = signed(base_x) + signed(x);
        let jy0 = signed(base_y) + signed(y);
        let jx = jx0 + fx.jitter_x[x as usize] as i64;
        let jy = jy0 + fx.jitter_y[y as usize] as i64;
        if !fits_i32(jx0) || !fits_i32(jx) || !fits_i32(jy0) || !fits_i32(jy) {
            return false;
        }
    }
    true
}

/// Whether no integer computed while drawing the cell leaves its type (see
/// [`cell_fits`]).
pub fn check_cell_fits(stamp: &Canvas, fx: &CellEffects, base_x: u32, base_y: u32, ci: u32) -> (r: bool)
    requires
        stamp.wf(),
        fx.fits(stamp.width as int, stamp.height as int),
    ensures
        r == cell_fits(*stamp, *fx, base_x as int, base_y as int, ci as int),
{
    let w = stamp.width;
    let h = stamp.height;
    let bx = base_x as i64;
    let by = base_y as i64;
    if bx + 35 > 0xffff_ffff || by + 14 > 0xffff_ffff {
        return false;
    }
    if w == 0 || h == 0 {
        return true;
    }
    let bxi = signed(base_x);
    let byi = signed(base_y);
    if !fits_i32(bxi - 3) || !fits_i32(bxi + 3) || !fits_i32(byi - 3) || !fits_i32(byi + 3) {
        return false;
    }
    if (w as u64 - 1) + (h as u64 - 1) + ci as u64 > 0xffff_ffff {
        return false;
    }
    let mut x: u32 = 0;
    while x < w
        invariant
            x <= w,
            w == stamp.width,
            h == stamp.height,
            w > 0 && h > 0,
            fx.wave_x@.len() == w,
            bx == base_x,
            bxi == as_i32(base_x as int),
            forall|j: int| 0 <= j < x ==> #[trigger] column_fits(*fx, base_x as int, j),
        decreases w - x,
    {
        let xi = signed(x);
        if !fits_i32(bxi - 3 + xi) || !fits_i32(bxi + 3 + xi) || bx + 35 + x as i64 + fx.wave_x[x as usize] as i64 > 0xffff_ffff {
            assert(!column_fits(*fx, base_x as int, x as int));
            return false;
        }
        x = x + 1;
    }
    let mut y: u32 = 0;
    while y < h
        invariant
            y <= h,
            w == stamp.width,
            h == stamp.height,
            w > 0 && h > 0,
            fx.wave_y@.len() == h,
            by == base_y,
            byi == as_i32(base_y as int),
            forall|j: int| 0 <= j < y ==> #[trigger] row_fits(*fx, base_y as int, j),
        decreases h - y,
    {
        let yi = signed(y);
        if !fits_i32(byi - 3 + yi) || !fits_i32(byi + 3 + yi) || by + 14 + y as i64 + fx.wave_y[y as usize] as i64 > 0xffff_ffff {
            assert(!row_fits(*fx, base_y as int, y as int));
            return false;
        }
        y = y + 1;
    }
    let mut y: u32 = 0;
    while y < h
        invariant
            y <= h,
            w == stamp.width,
            h == stamp.height,
            stamp.wf(),
            fx.fits(stamp.width as int, stamp.height as int),
            forall|x2: int, y2: int|
                0 <= x2 < w && 0 <= y2 < y ==> #[trigger] pixel_fits(*stamp, *fx, base_x as int, base_y as int, ci as int, x2, y2),
        decreases h - y,
    {
        let mut x: u32 = 0;
        while x < w
            invariant
                x <= w,
                y < h,
                w == stamp.width,
                h == stamp.height,
                stamp.wf(),
                fx.fits(stamp.width as int, stamp.height as int),
                forall|x2: int, y2: int|
                    0 <= x2 < w && 0 <= y2 < y ==> #[trigger] pixel_fits(*stamp, *fx, base_x as int, base_y as int, ci as int, x2, y2),
                forall|x2: int| 0 <= x2 < x ==> #[trigger] pixel_fits(*stamp, *fx, base_x as int, base_y as int, ci as int, x2, y as int),
            decreases w - x,
        {
            if !check_pixel_fits(stamp, fx, base_x, base_y, ci, x, y) {
                return false;
            }
            x = x + 1;
        }
        y = y + 1;
    }
    true
}

/// Effects tables that hold what the formulas give never push a position out
/// of its type while the base lies 64 pixels plus the stamp's size short of
/// `i32::MAX` on each axis and the cell number leaves room for `w + h` in a
/// `u32`: such a cell can always be drawn, at any of those bases.
pub proof fn law_cell_fits_within_bounds(stamp: Canvas, fx: CellEffects, bx: int, by: int, ci: int)
    requires
        stamp.wf(),
        fx.fits(stamp.width as int, stamp.height as int),
        0 <= bx,
        0 <= by,
        0 <= ci,
        bx + stamp.width + 64 <= i32::MAX,
        by + stamp.height + 64 <= i32::MAX,
        ci + stamp.width + stamp.height <= u32::MAX,
    ensures
        cell_fits(stamp, fx, bx, by, ci),
{
    let w = stamp.width as int;
    let h = stamp.height as int;
    assert(as_i32(bx) == bx && as_i32(by) == by);
    assert forall|x: int| 0 <= x < w implies #[trigger] column_fits(fx, bx, x) by {
        assert(as_i32(x) == x);
        assert(fx.wave_x@[x] <= 5);
    }
    assert forall|y: int| 0 <= y < h implies #[trigger] row_fits(fx, by, y) by {
        assert(as_i32(y) == y);
        assert(fx.wave_y@[y] <= 5);
    }
    assert forall|x: int, y: int| 0 <= x < w && 0 <= y < h implies #[trigger] pixel_fits(stamp, fx, bx, by, ci, x, y) by {
        assert(as_i32(x) == x && as_i32(y) == y);
        assert(fx.turn@[y]@[x].0 <= w + h && fx.turn@[y]@[x].1 <= w + h);
        assert(-5 <= fx.jitter_x@[x] <= 5 && -5 <= fx.jitter_y@[y] <= 5);
    }
}

/// A write moved by `(dx, dy)`.
pub open spec fn shift_write(wr: Write, dx: int, dy: int) -> Write {
    match wr {
        Some(t) => Some((t.0 + dx, t.1 + dy, t.2)),
        None => None,
    }
}

/// Within the part of the image at or beyond `(dx, dy)`, `m1` shows `m0`
/// moved by `(dx, dy)`; both cover the same `w` x `h` rectangle.
pub open spec fn shows_moved(m1: Map<(int, int), Rgba>, m0: Map<(int, int), Rgba>, w: int, h: int, dx: int, dy: int) -> bool {
    &&& covers(m1, w, h)
    &&& covers(m0, w, h)
    &&& forall|p: (int, int)|
        #[trigger] m1.dom().contains(p) && p.0 >= dx && p.1 >= dy ==> m1[p] == m0[(p.0 - dx, p.1 - dy)]
}

proof fn lemma_put_clip_moved(m1: Map<(int, int), Rgba>, m0: Map<(int, int), Rgba>, w: int, h: int, dx: int, dy: int, wr: Write)
    requires
        dx >= 0,
        dy >= 0,
        shows_moved(m1, m0, w, h, dx, dy),
    ensures
        shows_moved(put_clip(m1, shift_write(wr, dx, dy)), put_clip(m0, wr), w, h, dx, dy),
{
    let n1 = put_clip(m1, shift_write(wr, dx, dy));
    let n0 = put_clip(m0, wr);
    assert(n1.dom() =~= m1.dom());
    assert(n0.dom() =~= m0.dom());
    assert forall|p: (int, int)| #[trigger] n1.dom().contains(p) && p.0 >= dx && p.1 >= dy implies n1[p] == n0[(p.0 - dx, p.1 - dy)] by {
        assert(m0.dom().contains((p.0 - dx, p.1 - dy)));
        assert(m1.dom().contains(p));
    }
}

proof fn lemma_paint_row_moved(
    m1: Map<(int, int), Rgba>,
    m0: Map<(int, int), Rgba>,
    f1: spec_fn(int, int) -> Write,
    f0: spec_fn(int, int) -> Write,
    w: int,
    h: int,
    dx: int,
    dy: int,
    y: int,
    n: nat,
)
    requires
        dx >= 0,
        dy >= 0,
        shows_moved(m1, m0, w, h, dx, dy),
        forall|x: int| 0 <= x < n ==> #[trigger] f1(x, y) == shift_write(f0(x, y), dx, dy),
    ensures
        shows_moved(paint_row(m1, f1, y, n), paint_row(m0, f0, y, n), w, h, dx, dy),
    decreases n,
{
    if n > 0 {
        lemma_paint_row_moved(m1, m0, f1, f0, w, h, dx, dy, y, (n - 1) as nat);
        assert(f1(n - 1, y) == shift_write(f0(n - 1, y), dx, dy));
        lemma_put_clip_moved(paint_row(m1, f1, y, (n - 1) as nat), paint_row(m0, f0, y, (n - 1) as nat), w, h, dx, dy, f0(n - 1, y));
    }
}

proof fn lemma_paint_moved(
    m1: Map<(int, int), Rgba>,
    m0: Map<(int, int), Rgba>,
    f1: spec_fn(int, int) -> Write,
    f0: spec_fn(int, int) -> Write,
    w: int,
    h: int,
    dx: int,
    dy: int,
    sw: nat,
    n: nat,
)
    requires
        dx >= 0,
        dy >= 0,
        shows_moved(m1, m0, w, h, dx, dy),
        forall|x: int, y: int| #[trigger] f1(x, y) == shift_write(f0(x, y), dx, dy),
    ensures
        shows_moved(paint(m1, f1, sw, n), paint(m0, f0, sw, n), w, h, dx, dy),
    decreases n,
{
    if n > 0 {
        lemma_paint_moved(m1, m0, f1, f0, w, h, dx, dy, sw, (n - 1) as nat);
        lemma_paint_row_moved(paint(m1, f1, sw, (n - 1) as nat), paint(m0, f0, sw, (n - 1) as nat), f1, f0, w, h, dx, dy, n - 1, sw);
    }
}

/// Each layer drawn at base `(bx, by)` writes what it writes at base `(0, 0)`,
/// moved by `(bx, by)`.
proof fn lemma_pass_moved(stamp: Canvas, fx: CellEffects, bx: int, by: int, ci: int, pass: Pass)
    requires
        0 <= bx <= i32::MAX,
        0 <= by <= i32::MAX,
    ensures
        forall|x: int, y: int|
            #[trigger] pass_fn(stamp, fx, bx, by, ci, pass)(x, y) == shift_write(pass_fn(stamp, fx, 0, 0, ci, pass)(x, y), bx, by),
{
    assert forall|x: int, y: int|
        #[trigger] pass_fn(stamp, fx, bx, by, ci, pass)(x, y) == shift_write(pass_fn(stamp, fx, 0, 0, ci, pass)(x, y), bx, by) by {
        assert(as_i32(bx) == bx && as_i32(by) == by && as_i32(0) == 0);
    }
}

proof fn lemma_passes_moved(stamp: Canvas, fx: CellEffects, bx: int, by: int, ci: int, passes: Seq<Pass>)
    requires
        0 <= bx <= i32::MAX,
        0 <= by <= i32::MAX,
    ensures
        shows_moved(
            apply_passes(blank(stamp.width as int, stamp.height as int), stamp, fx, bx, by, ci, passes),
            apply_passes(blank(stamp.width as int, stamp.height as int), stamp, fx, 0, 0, ci, passes),
            stamp.width as int,
            stamp.height as int,
            bx,
            by,
        ),
    decreases passes.len(),
{
    let b = blank(stamp.width as int, stamp.height as int);
    if passes.len() == 0 {
        assert(shows_moved(b, b, stamp.width as int, stamp.height as int, bx, by)) by {
            assert forall|p: (int, int)| #[trigger] b.dom().contains(p) && p.0 >= bx && p.1 >= by implies b[p] == b[(p.0 - bx, p.1 - by)] by {
                assert(b.dom().contains((p.0 - bx, p.1 - by)));
            }
        }
    } else {
        lemma_passes_moved(stamp, fx, bx, by, ci, passes.drop_last());
        lemma_pass_moved(stamp, fx, bx, by, ci, passes.last());
        lemma_paint_moved(
            apply_passes(b, stamp, fx, bx, by, ci, passes.drop_last()),
            apply_passes(b, stamp, fx, 0, 0, ci, passes.drop_last()),
            pass_fn(stamp, fx, bx, by, ci, passes.last()),
            pass_fn(stamp, fx, 0, 0, ci, passes.last()),
            stamp.width as int,
            stamp.height as int,
            bx,
            by,
            stamp.width as nat,
            stamp.height as nat,
        );
    }
}

/// Moving the base only moves the drawing: every pixel of the cell drawn at
/// `(bx, by)` at or beyond the base shows the pixel of the cell drawn at
/// `(0, 0)` that lies `(bx, by)` before it.
pub proof fn law_cell_moves_with_base(stamp: Canvas, fx: CellEffects, bx: int, by: int, ci: int)
    requires
        0 <= bx <= i32::MAX,
        0 <= by <= i32::MAX,
    ensures
        forall|p: (int, int)|
            #[trigger] cell_image(stamp, fx, bx, by, ci).dom().contains(p) && p.0 >= bx && p.1 >= by ==> cell_image(
                stamp,
                fx,
                bx,
                by,
                ci,
            )[p] == cell_image(stamp, fx, 0, 0, ci)[(p.0 - bx, p.1 - by)],
{
    lemma_passes_moved(stamp, fx, bx, by, ci, cell_passes());
}

/// Cell number `cell_index` drawn at the origin: the cell on its own.
pub fn render_one(stamp: &Canvas, cell_index: u32, fx: &CellEffects) -> (c: Canvas)
    requires
        stamp.wf(),
        fx.fits(stamp.width as int, stamp.height as int),
        cell_fits(*stamp, *fx, 0, 0, cell_index as int),
    ensures
        c.wf(),
        c.width == stamp.width,
        c.height == stamp.height,
        c@ == cell_image(*stamp, *fx, 0, 0, cell_index as int),
{
    render_cell(stamp, 0, 0, cell_index, fx)
}

} // verus!

//! Drawing pixel by pixel: writes that land outside the image are dropped.
use crate::canvas::{Canvas, Rgba};
use vstd::prelude::*;

verus! {

/// A request to set pixel `(x, y)` to a colour, or no request.
pub type Write = Option<(int, int, Rgba)>;

/// The image after one write: the pixel changes when it lies inside the image.
pub open spec fn put_clip(m: Map<(int, int), Rgba>, wr: Write) -> Map<(int, int), Rgba> {
    match wr {
        Some(t) => if m.dom().contains((t.0, t.1)) {
            m.insert((t.0, t.1), t.2)
        } else {
            m
        },
        None => m,
    }
}

/// The writes `f(0, y)`, ..., `f(n - 1, y)` of one source row, in order.
pub open spec fn paint_row(
    m: Map<(int, int), Rgba>,
    f: spec_fn(int, int) -> Write,
    y: int,
    n: nat,
) -> Map<(int, int), Rgba>
    decreases n,
{
    if n == 0 {
        m
    } else {
        put_clip(paint_row(m, f, y, (n - 1) as nat), f(n - 1, y))
    }
}

/// The writes of source rows `0..n`, each `w` pixels wide, in row-major order
/// (the order in which a source image's pixels are enumerated).
pub open spec fn paint(m: Map<(int, int), Rgba>, f: spec_fn(int, int) -> Write, w: nat, n: nat) -> Map<
    (int, int),
    Rgba,
>
    decreases n,
{
    if n == 0 {
        m
    } else {
        paint_row(paint(m, f, w, (n - 1) as nat), f, n - 1, w)
    }
}

/// The writes of a list, in order.
pub open spec fn paint_list(m: Map<(int, int), Rgba>, ws: Seq<Write>) -> Map<(int, int), Rgba>
    decreases ws.len(),
{
    if ws.len() == 0 {
        m
    } else {
        put_clip(paint_list(m, ws.drop_last()), ws.last())
    }
}

/// Every pixel of `m` has alpha `a`.
pub open spec fn all_alpha(m: Map<(int, int), Rgba>, a: u8) -> bool {
    forall|p: (int, int)| #[trigger] m.dom().contains(p) ==> m[p].a == a
}

/// No source pixel of a `w` x `h` source writes a colour whose alpha is not `a`.
pub open spec fn writes_alpha(f: spec_fn(int, int) -> Write, w: nat, h: nat, a: u8) -> bool {
    forall|x: int, y: int| 0 <= x < w && 0 <= y < h ==> (#[trigger] f(x, y) matches Some(t) ==> t.2.a == a)
}

pub proof fn lemma_put_clip_keeps(m: Map<(int, int), Rgba>, wr: Write, a: u8)
    requires
        all_alpha(m, a),
        wr matches Some(t) ==> t.2.a == a,
    ensures
        all_alpha(put_clip(m, wr), a),
        put_clip(m, wr).dom() == m.dom(),
{
}

proof fn lemma_paint_row_keeps(m: Map<(int, int), Rgba>, f: spec_fn(int, int) -> Write, w: nat, h: nat, y: int, n: nat, a: u8)
    requires
        all_alpha(m, a),
        writes_alpha(f, w, h, a),
        0 <= y < h,
        n <= w,
    ensures
        all_alpha(paint_row(m, f, y, n), a),
        paint_row(m, f, y, n).dom() == m.dom(),
    decreases n,
{
    if n > 0 {
        lemma_paint_row_keeps(m, f, w, h, y, (n - 1) as nat, a);
        assert(f(n - 1, y) matches Some(t) ==> t.2.a == a);
        lemma_put_clip_keeps(paint_row(m, f, y, (n - 1) as nat), f(n - 1, y), a);
    }
}

/// Painting a source whose every write has alpha `a` onto an image whose
/// every pixel has alpha `a` keeps every pixel's alpha `a`, and the image's extent.
pub proof fn lemma_paint_keeps_alpha(m: Map<(int, int), Rgba>, f: spec_fn(int, int) -> Write, w: nat, h: nat, n: nat, a: u8)
    requires
        all_alpha(m, a),
        writes_alpha(f, w, h, a),
        n <= h,
    ensures
        all_alpha(paint(m, f, w, n), a),
        paint(m, f, w, n).dom() == m.dom(),
    decreases n,
{
    if n > 0 {
        lemma_paint_keeps_alpha(m, f, w, h, (n - 1) as nat, a);
        lemma_paint_row_keeps(paint(m, f, w, (n - 1) as nat), f, w, h, n - 1, w, a);
    }
}

/// Write `wr` lands on pixel `t`.
pub open spec fn lands_on(wr: Write, t: (int, int)) -> bool {
    wr matches Some(u) && u.0 == t.0 && u.1 == t.1
}

/// Painting keeps the extent of the image painted on.
pub proof fn lemma_paint_row_dom(m: Map<(int, int), Rgba>, f: spec_fn(int, int) -> Write, y: int, n: nat)
    ensures
        paint_row(m, f, y, n).dom() == m.dom(),
    decreases n,
{
    if n > 0 {
        lemma_paint_row_dom(m, f, y, (n - 1) as nat);
        let prev = paint_row(m, f, y, (n - 1) as nat);
        assert(put_clip(prev, f(n - 1, y)).dom() =~= prev.dom());
    }
}

pub proof fn lemma_paint_dom(m: Map<(int, int), Rgba>, f: spec_fn(int, int) -> Write, w: nat, n: nat)
    ensures
        paint(m, f, w, n).dom() == m.dom(),
    decreases n,
{
    if n > 0 {
        lemma_paint_dom(m, f, w, (n - 1) as nat);
        lemma_paint_row_dom(paint(m, f, w, (n - 1) as nat), f, n - 1, w);
    }
}

/// A pixel that none of the writes `f(0, y)`, ..., `f(n - 1, y)` lands on keeps its colour.
proof fn lemma_paint_row_untouched(m: Map<(int, int), Rgba>, f: spec_fn(int, int) -> Write, y: int, n: nat, t: (int, int))
    requires
        m.dom().contains(t),
        forall|u: int| 0 <= u < n ==> !lands_on(#[trigger] f(u, y), t),
    ensures
        paint_row(m, f, y, n)[t] == m[t],
    decreases n,
{
    if n > 0 {
        lemma_paint_row_untouched(m, f, y, (n - 1) as nat, t);
        lemma_paint_row_dom(m, f, y, (n - 1) as nat);
        assert(!lands_on(f(n - 1, y), t));
    }
}

/// A pixel that no write of a `w`-wide source's first `n` rows lands on keeps its colour.
pub proof fn lemma_paint_untouched(m: Map<(int, int), Rgba>, f: spec_fn(int, int) -> Write, w: nat, n: nat, t: (int, int))
    requires
        m.dom().contains(t),
        forall|u: int, v: int| 0 <= u < w && 0 <= v < n ==> !lands_on(#[trigger] f(u, v), t),
    ensures
        paint(m, f, w, n)[t] == m[t],
    decreases n,
{
    if n > 0 {
        lemma_paint_untouched(m, f, w, (n - 1) as nat, t);
        lemma_paint_dom(m, f, w, (n - 1) as nat);
        assert forall|u: int| 0 <= u < w implies !lands_on(#[trigger] f(u, n - 1), t) by {
            assert(!lands_on(f(u, n - 1), t));
        }
        lemma_paint_row_untouched(paint(m, f, w, (n - 1) as nat), f, n - 1, w, t);
    }
}

proof fn lemma_paint_row_last(m: Map<(int, int), Rgba>, f: spec_fn(int, int) -> Write, y: int, n: nat, x: int, t: (int, int), c: Rgba)
    requires
        m.dom().contains(t),
        0 <= x < n,
        f(x, y) == Some((t.0, t.1, c)),
        forall|u: int| x < u < n ==> !lands_on(#[trigger] f(u, y), t),
    ensures
        paint_row(m, f, y, n)[t] == c,
    decreases n,
{
    lemma_paint_row_dom(m, f, y, (n - 1) as nat);
    if n - 1 > x {
        lemma_paint_row_last(m, f, y, (n - 1) as nat, x, t, c);
        assert(!lands_on(f(n - 1, y), t));
    }
}

/// The colour of a pixel after painting is that of the last write, in
/// row-major source order, that lands on it.
pub proof fn lemma_paint_last(m: Map<(int, int), Rgba>, f: spec_fn(int, int) -> Write, w: nat, n: nat, x: int, y: int, t: (int, int), c: Rgba)
    requires
        m.dom().contains(t),
        0 <= x < w,
        0 <= y < n,
        f(x, y) == Some((t.0, t.1, c)),
        forall|u: int, v: int| 0 <= u < w && 0 <= v < n && (v > y || (v == y && u > x)) ==> !lands_on(#[trigger] f(u, v), t),
    ensures
        paint(m, f, w, n)[t] == c,
    decreases n,
{
    lemma_paint_dom(m, f, w, (n - 1) as nat);
    let prev = paint(m, f, w, (n - 1) as nat);
    if n - 1 > y {
        lemma_paint_last(m, f, w, (n - 1) as nat, x, y, t, c);
        assert forall|u: int| 0 <= u < w implies !lands_on(#[trigger] f(u, n - 1), t) by {
            assert(!lands_on(f(u, n - 1), t));
        }
        lemma_paint_row_untouched(prev, f, n - 1, w, t);
    } else {
        assert forall|u: int| x < u < w implies !lands_on(#[trigger] f(u, y), t) by {
            assert(!lands_on(f(u, y), t));
        }
        lemma_paint_row_last(prev, f, y, w, x, t, c);
    }
}

impl Canvas {
    /// Sets pixel `(x, y)` when it lies inside the image; otherwise nothing changes.
    pub fn put_clip(&mut self, x: i64, y: i64, p: Rgba)
        requires
            old(self).wf(),
        ensures
            final(self).wf(),
            final(self).width == old(self).width,
            final(self).height == old(self).height,
            final(self)@ == put_clip(old(self)@, Some((x as int, y as int, p))),
    {
        if 0 <= x && x < self.width as i64 && 0 <= y && y < self.height as i64 {
            self.put_pixel(x as u32, y as u32, p);
        }
    }
}

} // verus!

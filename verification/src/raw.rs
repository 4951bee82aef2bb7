//! Raw RGBA bytes, and the `image` crate's resampling and alpha blending on them.
use crate::canvas::{Canvas, Rgba, in_rect, flat_index, lemma_flat_index, buffer_ok, covers};
use vstd::prelude::*;

verus! {

/// Pixel number `i` of a buffer holding four bytes (R, G, B, A) per pixel.
pub open spec fn rgba_at(raw: Seq<u8>, i: int) -> Rgba {
    Rgba { r: raw[4 * i], g: raw[4 * i + 1], b: raw[4 * i + 2], a: raw[4 * i + 3] }
}

/// The `w` x `h` image stored row by row in `raw` (the `image` crate's layout).
pub open spec fn raw_view(raw: Seq<u8>, w: int, h: int) -> Map<(int, int), Rgba> {
    Map::new(|p: (int, int)| in_rect(w, h, p), |p: (int, int)| rgba_at(raw, flat_index(w, p.0, p.1)))
}

impl Canvas {
    /// The image's bytes, four per pixel, row by row (`ImageBuffer::into_raw`).
    pub fn to_raw(&self) -> (raw: Vec<u8>)
        requires
            self.wf(),
        ensures
            raw.len() == 4 * self.width * self.height,
            raw_view(raw@, self.width as int, self.height as int) == self@,
    {
        let n = self.pixels.len();
        assert(4 * self.width * self.height == 4 * (self.width * self.height)) by (nonlinear_arith);
        let mut raw: Vec<u8> = Vec::with_capacity(4 * n);
        let mut i: usize = 0;
        while i < n
            invariant
                i <= n,
                n == self.pixels.len(),
                self.wf(),
                raw.len() == 4 * i,
                forall|j: int| 0 <= j < i ==> #[trigger] rgba_at(raw@, j) == self.pixels@[j],
            decreases n - i,
        {
            let p = self.pixels[i];
            let ghost before = raw@;
            raw.push(p.r);
            raw.push(p.g);
            raw.push(p.b);
            raw.push(p.a);
            assert forall|j: int| 0 <= j < i + 1 implies #[trigger] rgba_at(raw@, j) == self.pixels@[j] by {
                if j < i {
                    assert(rgba_at(before, j) == self.pixels@[j]);
                }
            }
            i = i + 1;
        }
        proof {
            let w = self.width as int;
            let h = self.height as int;
            assert forall|p: (int, int)| #[trigger] in_rect(w, h, p) implies raw_view(raw@, w, h)[p] == self@[p] by {
                lemma_flat_index(w, h, p.0, p.1);
            }
        }
        assert(raw_view(raw@, self.width as int, self.height as int) =~= self@);
        raw
    }

    /// The `w` x `h` image whose bytes, four per pixel, are `raw`
    /// (`ImageBuffer::from_raw`).
    pub fn from_raw(w: u32, h: u32, raw: &Vec<u8>) -> (c: Canvas)
        requires
            raw.len() == 4 * w * h,
            buffer_ok(w as int, h as int),
        ensures
            c.wf(),
            c.width == w,
            c.height == h,
            c@ == raw_view(raw@, w as int, h as int),
    {
        assert(4 * w * h == 4 * (w * h)) by (nonlinear_arith);
        let n: usize = raw.len() / 4;
        assert(n == w * h);
        let mut pixels: Vec<Rgba> = Vec::with_capacity(n);
        let mut i: usize = 0;
        while i < n
            invariant
                i <= n,
                4 * n == raw.len(),
                pixels.len() == i,
                forall|j: int| 0 <= j < i ==> #[trigger] pixels@[j] == rgba_at(raw@, j),
            decreases n - i,
        {
            let p = Rgba { r: raw[4 * i], g: raw[4 * i + 1], b: raw[4 * i + 2], a: raw[4 * i + 3] };
            pixels.push(p);
            i = i + 1;
        }
        let c = Canvas { width: w, height: h, pixels };
        proof {
            assert forall|p: (int, int)| #[trigger] in_rect(w as int, h as int, p) implies c@[p] == raw_view(raw@, w as int, h as int)[p] by {
                lemma_flat_index(w as int, h as int, p.0, p.1);
            }
        }
        assert(c@ =~= raw_view(raw@, w as int, h as int));
        c
    }
}

/// Resizing a `w` x `h` image to `new_w` x `new_h` resamples it (and needs
/// an intermediate `w` x `new_h` buffer): the source is not empty and the
/// size changes.
pub open spec fn resamples(w: int, h: int, new_w: int, new_h: int) -> bool {
    w > 0 && h > 0 && (new_w != w || new_h != h)
}

/// Source index `i` (of `n`) lies within reach of the Lanczos-3 filter for
/// output index `o` (of `m`): its centre `i + 1/2` is at most
/// `3 max(n / m, 1) + 2` away from the point `(o + 1/2) n / m` that output `o`
/// samples (the filter's support, `3 max(n / m, 1)`, plus room for the
/// rounding of the window's ends).
pub open spec fn in_reach(i: int, o: int, n: int, m: int) -> bool {
    let bound = 6 * (if n > m { n } else { m }) + 4 * m;
    -bound <= (2 * i + 1) * m - (2 * o + 1) * n <= bound
}

/// Every pixel of the `w` x `h` image `src` within reach of pixel `p` of a
/// `nw` x `nh` resize of it has colour `c`.
pub open spec fn window_uniform(src: Map<(int, int), Rgba>, w: int, h: int, nw: int, nh: int, p: (int, int), c: Rgba) -> bool {
    forall|q: (int, int)|
        in_rect(w, h, q) && in_reach(q.0, p.0, w, nw) && in_reach(q.1, p.1, h, nh) ==> #[trigger] src[q] == c
}

/// Every pixel of a resize has a source pixel within its reach (the one
/// under the point it samples), so a window is never empty.
pub proof fn law_window_holds_a_pixel(w: int, h: int, nw: int, nh: int, p: (int, int))
    requires
        w >= 1,
        h >= 1,
        in_rect(nw, nh, p),
    ensures
        exists|q: (int, int)| in_rect(w, h, q) && in_reach(q.0, p.0, w, nw) && in_reach(q.1, p.1, h, nh),
{
    let i = ((2 * p.0 + 1) * w) / (2 * nw);
    let j = ((2 * p.1 + 1) * h) / (2 * nh);
    lemma_sample_in_reach(p.0, w, nw);
    lemma_sample_in_reach(p.1, h, nh);
    assert(in_rect(w, h, (i, j)));
}

/// The source index under the point that output `o` samples is in reach.
proof fn lemma_sample_in_reach(o: int, n: int, m: int)
    requires
        n >= 1,
        0 <= o < m,
    ensures
        0 <= ((2 * o + 1) * n) / (2 * m) < n,
        in_reach(((2 * o + 1) * n) / (2 * m), o, n, m),
{
    let a = (2 * o + 1) * n;
    let i = a / (2 * m);
    assert(a >= 0 && a < 2 * m * n) by (nonlinear_arith)
        requires
            n >= 1,
            0 <= o < m,
            a == (2 * o + 1) * n,
    ;
    assert(0 <= i < n && 2 * m * i <= a < 2 * m * i + 2 * m) by (nonlinear_arith)
        requires
            0 <= a < 2 * m * n,
            m >= 1,
            i == a / (2 * m),
    ;
    assert((2 * i + 1) * m == 2 * m * i + m) by (nonlinear_arith);
}

/// Every window of a one-colour image is uniform in that colour, so a resize
/// (within [`resize_keeps_flat`]) keeps a one-colour image in its colour.
pub proof fn law_flat_image_windows(src: Map<(int, int), Rgba>, w: int, h: int, nw: int, nh: int, col: Rgba)
    requires
        covers(src, w, h),
        forall|q: (int, int)| #[trigger] src.dom().contains(q) ==> src[q] == col,
    ensures
        forall|p: (int, int)| #[trigger] window_uniform(src, w, h, nw, nh, p, col),
{
    assert forall|p: (int, int)| #[trigger] window_uniform(src, w, h, nw, nh, p, col) by {
        assert forall|q: (int, int)| in_rect(w, h, q) && in_reach(q.0, p.0, w, nw) && in_reach(q.1, p.1, h, nh) implies #[trigger] src[q] == col by {
            assert(src.dom().contains(q));
        }
    }
}

/// Sizes for which resampling is stated to keep the colour of a uniform
/// window: no side longer than 2^20 pixels, and no side shrunk more than
/// 64 times.
pub open spec fn resize_keeps_flat(w: int, h: int, nw: int, nh: int) -> bool {
    &&& 1 <= w <= 0x10_0000 && 1 <= h <= 0x10_0000
    &&& nw <= 0x10_0000 && nh <= 0x10_0000
    &&& w <= 64 * nw && h <= 64 * nh
}

/// `imageops::resize` with the `Lanczos3` filter, on raw RGBA bytes.
///
/// Claims what the crate's source shows: the result has the new size; it is
/// an exact copy when the size does not change, and all zero when the source
/// is empty. Otherwise each output pixel is a weighted sum of the source
/// pixels in a window around the point it samples (a vertical pass into `f32`,
/// then a horizontal one), with the weights divided by their sum, clamped and
/// rounded to the nearest integer per channel. The window is
/// `[floor(c - s), ceil(c + s))` for the centre `c = (o + 1/2) n / m` and the
/// support `s = 3 max(n / m, 1)`, so it lies within [`in_reach`]. When every
/// pixel of both windows has one colour, the sum gives that colour up to the
/// rounding of `f32`, which for sides up to 2^20 and at most 64-fold shrinking
/// (at most 390 weights of a kernel whose sum is never small next to the sum
/// of its absolute values) stays far below one half, so rounding gives the
/// colour back exactly. The resampled colours of windows that are not uniform
/// depend on `sin` in `f32` and are not stated.
#[verifier::external_body]
fn resize_raw(raw: Vec<u8>, w: u32, h: u32, new_w: u32, new_h: u32) -> (r: Vec<u8>)
    requires
        raw.len() == 4 * w * h,
        buffer_ok(w as int, h as int),
        buffer_ok(new_w as int, new_h as int),
        resamples(w as int, h as int, new_w as int, new_h as int) ==> buffer_ok(w as int, new_h as int),
    ensures
        r.len() == 4 * new_w * new_h,
        (new_w == w && new_h == h) ==> r@ == raw@,
        (w == 0 || h == 0) ==> forall|i: int| 0 <= i < r.len() ==> r@[i] == 0,
        resize_keeps_flat(w as int, h as int, new_w as int, new_h as int) ==> forall|p: (int, int), c: Rgba|
            #[trigger] window_uniform(raw_view(raw@, w as int, h as int), w as int, h as int, new_w as int, new_h as int, p, c)
                && in_rect(new_w as int, new_h as int, p) ==> raw_view(r@, new_w as int, new_h as int)[p] == c,
{
    let img = image::RgbaImage::from_raw(w, h, raw).unwrap();
    image::imageops::resize(&img, new_w, new_h, image::imageops::FilterType::Lanczos3).into_raw()
}

/// The channels (R, G, B, A) of a pixel.
pub open spec fn channels(p: Rgba) -> (u8, u8, u8, u8) {
    (p.r, p.g, p.b, p.a)
}

/// The channels that `Rgba::blend` gives for a pixel with channels `top`
/// laid over one with channels `bottom` (source-over alpha compositing in
/// `f32`, which depends on the two pixels alone).
pub uninterp spec fn blend_rgba(bottom: (u8, u8, u8, u8), top: (u8, u8, u8, u8)) -> (u8, u8, u8, u8);

/// `top` blended over `bottom`.
pub open spec fn blended(bottom: Rgba, top: Rgba) -> Rgba {
    let t = blend_rgba(channels(bottom), channels(top));
    Rgba { r: t.0, g: t.1, b: t.2, a: t.3 }
}

/// What blending `top` over one bottom pixel `before` gives: the blend of the
/// two; in particular a transparent top pixel leaves `before`, an opaque one
/// replaces it.
pub open spec fn blend_known(before: Rgba, top: Rgba, after: Rgba) -> bool {
    &&& after == blended(before, top)
    &&& top.a == 0 ==> after == before
    &&& top.a == 255 ==> after == top
}

/// What laying `top` with its corner at `(x, y)` over image `before` gives at
/// pixel `p`: pixels that `top` covers are blended, the others keep their colour.
pub open spec fn overlay_known(before: Map<(int, int), Rgba>, top: Map<(int, int), Rgba>, x: int, y: int, after: Map<(int, int), Rgba>, p: (int, int)) -> bool {
    if top.dom().contains((p.0 - x, p.1 - y)) {
        blend_known(before[p], top[(p.0 - x, p.1 - y)], after[p])
    } else {
        after[p] == before[p]
    }
}

/// `imageops::overlay` (alpha blending of `top` at `(x, y)` onto `bottom`), on raw RGBA bytes.
///
/// Claims what the crate's source shows: the bottom image keeps its size;
/// pixels that `top` does not cover keep their colour; a covered pixel takes
/// `blend_rgba` of itself and the top pixel over it (`Rgba::blend`), which
/// leaves it under a transparent top pixel and gives the top pixel under an
/// opaque one.
#[verifier::external_body]
fn overlay_raw(bottom: &mut Vec<u8>, bw: u32, bh: u32, top: &Vec<u8>, tw: u32, th: u32, x: u32, y: u32)
    requires
        old(bottom).len() == 4 * bw * bh,
        top.len() == 4 * tw * th,
        buffer_ok(bw as int, bh as int),
        buffer_ok(tw as int, th as int),
    ensures
        final(bottom).len() == old(bottom).len(),
        forall|p: (int, int)|
            #![trigger raw_view(final(bottom)@, bw as int, bh as int)[p]]
            in_rect(bw as int, bh as int, p) && raw_view(top@, tw as int, th as int).dom().contains((p.0 - x, p.1 - y))
                ==> channels(raw_view(final(bottom)@, bw as int, bh as int)[p]) == blend_rgba(
                channels(raw_view(old(bottom)@, bw as int, bh as int)[p]),
                channels(raw_view(top@, tw as int, th as int)[(p.0 - x, p.1 - y)]),
            ),
        forall|p: (int, int)|
            #![trigger raw_view(final(bottom)@, bw as int, bh as int)[p]]
            in_rect(bw as int, bh as int, p) ==> overlay_known(
                raw_view(old(bottom)@, bw as int, bh as int),
                raw_view(top@, tw as int, th as int),
                x as int,
                y as int,
                raw_view(final(bottom)@, bw as int, bh as int),
                p,
            ),
{
    let mut img = image::RgbaImage::from_raw(bw, bh, std::mem::take(bottom)).unwrap();
    let t = image::ImageBuffer::<image::Rgba<u8>, &[u8]>::from_raw(tw, th, top.as_slice()).unwrap();
    image::imageops::overlay(&mut img, &t, x as i64, y as i64);
    *bottom = img.into_raw();
}

impl Canvas {
    /// The image resampled to `new_w` x `new_h` with a Lanczos-3 filter
    /// (`imageops::resize`).
    pub fn resize(&self, new_w: u32, new_h: u32) -> (c: Canvas)
        requires
            self.wf(),
            buffer_ok(new_w as int, new_h as int),
            resamples(self.width as int, self.height as int, new_w as int, new_h as int) ==> buffer_ok(
                self.width as int,
                new_h as int,
            ),
        ensures
            c.wf(),
            c.width == new_w,
            c.height == new_h,
            (new_w == self.width && new_h == self.height) ==> c@ == self@,
            (self.width == 0 || self.height == 0) ==> forall|p: (int, int)|
                #[trigger] c@.dom().contains(p) ==> c@[p] == (Rgba { r: 0, g: 0, b: 0, a: 0 }),
            resize_keeps_flat(self.width as int, self.height as int, new_w as int, new_h as int) ==> forall|p: (int, int), col: Rgba|
                #[trigger] window_uniform(self@, self.width as int, self.height as int, new_w as int, new_h as int, p, col)
                    && c@.dom().contains(p) ==> c@[p] == col,
    {
        let raw = self.to_raw();
        let out = resize_raw(raw, self.width, self.height, new_w, new_h);
        let c = Canvas::from_raw(new_w, new_h, &out);
        proof {
            if self.width == 0 || self.height == 0 {
                assert forall|p: (int, int)| #[trigger] c@.dom().contains(p) implies c@[p] == (Rgba { r: 0, g: 0, b: 0, a: 0 }) by {
                    lemma_flat_index(new_w as int, new_h as int, p.0, p.1);
                    let i = flat_index(new_w as int, p.0, p.1);
                    assert(4 * i + 3 < out.len()) by (nonlinear_arith)
                        requires
                            0 <= i < new_w * new_h,
                            out.len() == 4 * new_w * new_h,
                    ;
                }
            }
            if resize_keeps_flat(self.width as int, self.height as int, new_w as int, new_h as int) {
                assert forall|p: (int, int), col: Rgba|
                    #[trigger] window_uniform(self@, self.width as int, self.height as int, new_w as int, new_h as int, p, col)
                        && c@.dom().contains(p) implies c@[p] == col by {
                    assert(window_uniform(raw_view(raw@, self.width as int, self.height as int), self.width as int, self.height as int, new_w as int, new_h as int, p, col));
                }
            }
        }
        c
    }

    /// Lays `top` over the image with its corner at `(x, y)`, blending by
    /// alpha (`imageops::overlay`).
    pub fn overlay(&mut self, top: &Canvas, x: u32, y: u32)
        requires
            old(self).wf(),
            top.wf(),
        ensures
            final(self).wf(),
            final(self).width == old(self).width,
            final(self).height == old(self).height,
            forall|p: (int, int)|
                #[trigger] final(self)@.dom().contains(p) ==> overlay_known(old(self)@, top@, x as int, y as int, final(self)@, p),
    {
        let mut raw = self.to_raw();
        let top_raw = top.to_raw();
        overlay_raw(&mut raw, self.width, self.height, &top_raw, top.width, top.height, x, y);
        let c = Canvas::from_raw(self.width, self.height, &raw);
        *self = c;
    }
}

} // verus!

//! An RGBA raster image: the pixel store that all rendering works on.
use vstd::prelude::*;

verus! {

/// One RGBA pixel with 8-bit channels.
#[derive(Clone, Copy, Debug, PartialEq, Eq, Structural)]
pub struct Rgba {
    pub r: u8,
    pub g: u8,
    pub b: u8,
    pub a: u8,
}

/// Opaque white, the background of rendered cells.
pub open spec fn spec_white() -> Rgba {
    Rgba { r: 255, g: 255, b: 255, a: 255 }
}

/// Opaque white.
pub fn white() -> (p: Rgba)
    ensures
        p == spec_white(),
{
    Rgba { r: 255, g: 255, b: 255, a: 255 }
}

/// A `width` x `height` image whose pixels are stored row by row.
#[derive(Clone, Debug)]
pub struct Canvas {
    pub width: u32,
    pub height: u32,
    pub pixels: Vec<Rgba>,
}

/// Position of pixel `(x, y)` in a row-major store of rows `w` pixels long.
pub open spec fn flat_index(w: int, x: int, y: int) -> int {
    y * w + x
}

/// The rectangle `[0, w) x [0, h)` of pixel coordinates.
pub open spec fn in_rect(w: int, h: int, p: (int, int)) -> bool {
    0 <= p.0 < w && 0 <= p.1 < h
}

impl View for Canvas {
    type V = Map<(int, int), Rgba>;

    /// The colour of every pixel inside the image rectangle.
    open spec fn view(&self) -> Map<(int, int), Rgba> {
        Map::new(
            |p: (int, int)| in_rect(self.width as int, self.height as int, p),
            |p: (int, int)| self.pixels@[flat_index(self.width as int, p.0, p.1)],
        )
    }
}

/// A map from pixels to colours that covers exactly the rectangle `[0, w) x [0, h)`.
pub open spec fn covers(m: Map<(int, int), Rgba>, w: int, h: int) -> bool {
    forall|p: (int, int)| #[trigger] m.dom().contains(p) <==> in_rect(w, h, p)
}

/// The byte count of a `w` x `h` RGBA buffer, worked out as `4 * w * h`
/// from the left, stays within `usize` (else `ImageBuffer::new` panics).
pub open spec fn buffer_ok(w: int, h: int) -> bool {
    4 * w <= usize::MAX && 4 * w * h <= usize::MAX
}

/// Whether a `w` x `h` RGBA buffer can be counted in `usize`.
pub fn buffer_fits(w: u32, h: u32) -> (r: bool)
    ensures
        r == buffer_ok(w as int, h as int),
{
    match 4usize.checked_mul(w as usize) {
        Some(a) => a.checked_mul(h as usize).is_some(),
        None => false,
    }
}

impl Canvas {
    /// The store holds one pixel per position, and its bytes (four per pixel)
    /// can be counted in a `usize`.
    pub open spec fn wf(&self) -> bool {
        &&& self.pixels.len() == self.width * self.height
        &&& buffer_ok(self.width as int, self.height as int)
    }
}

/// Row-major positions of distinct in-range pixels differ, and stay below `w * h`.
pub proof fn lemma_flat_index(w: int, h: int, x: int, y: int)
    requires
        0 <= x < w,
        0 <= y < h,
    ensures
        0 <= flat_index(w, x, y) < w * h,
        forall|x2: int, y2: int|
            0 <= x2 < w && 0 <= y2 < h && flat_index(w, x2, y2) == flat_index(w, x, y) ==> x2 == x
                && y2 == y,
{
    assert(0 <= y * w + x < w * h) by (nonlinear_arith)
        requires
            0 <= x < w,
            0 <= y < h,
    ;
    assert forall|x2: int, y2: int|
        0 <= x2 < w && 0 <= y2 < h && flat_index(w, x2, y2) == flat_index(w, x, y) implies x2 == x
        && y2 == y by {
        assert(y2 == y) by (nonlinear_arith)
            requires
                0 <= x < w,
                0 <= x2 < w,
                y2 * w + x2 == y * w + x,
        ;
    }
}

impl Canvas {
    /// A canvas of the given size filled with one colour.
    pub fn from_pixel(width: u32, height: u32, fill: Rgba) -> (c: Canvas)
        requires
            buffer_ok(width as int, height as int),
        ensures
            c.wf(),
            c.width == width,
            c.height == height,
            c@ == Map::new(|p: (int, int)| in_rect(width as int, height as int, p), |p: (int, int)| fill),
    {
        assert(width * height <= 4 * width * height) by (nonlinear_arith);
        let n: usize = (width as usize) * (height as usize);
        let mut pixels: Vec<Rgba> = Vec::with_capacity(n);
        let mut i: usize = 0;
        while i < n
            invariant
                i <= n,
                n == width * height,
                pixels.len() == i,
                forall|j: int| 0 <= j < i ==> pixels@[j] == fill,
            decreases n - i,
        {
            pixels.push(fill);
            i = i + 1;
        }
        let c = Canvas { width, height, pixels };
        proof {
            assert forall|p: (int, int)| #[trigger] in_rect(width as int, height as int, p) implies c@[p] == fill by {
                lemma_flat_index(width as int, height as int, p.0, p.1);
            }
        }
        assert(c@ =~= Map::new(|p: (int, int)| in_rect(width as int, height as int, p), |p: (int, int)| fill));
        c
    }

    /// The colour at `(x, y)`.
    pub fn get_pixel(&self, x: u32, y: u32) -> (p: Rgba)
        requires
            self.wf(),
            x < self.width,
            y < self.height,
        ensures
            p == self@[(x as int, y as int)],
    {
        proof {
            lemma_flat_index(self.width as int, self.height as int, x as int, y as int);
        }
        let i: usize = (y as usize) * (self.width as usize) + (x as usize);
        self.pixels[i]
    }

    /// Sets the colour at `(x, y)`; every other pixel keeps its colour.
    pub fn put_pixel(&mut self, x: u32, y: u32, p: Rgba)
        requires
            old(self).wf(),
            x < old(self).width,
            y < old(self).height,
        ensures
            final(self).wf(),
            final(self).width == old(self).width,
            final(self).height == old(self).height,
            final(self)@ == old(self)@.insert((x as int, y as int), p),
    {
        let ghost w = self.width as int;
        let ghost h = self.height as int;
        proof {
            lemma_flat_index(w, h, x as int, y as int);
        }
        let i: usize = (y as usize) * (self.width as usize) + (x as usize);
        self.pixels.set(i, p);
        proof {
            assert forall|q: (int, int)| #[trigger] in_rect(w, h, q) && q != (x as int, y as int) implies self.pixels@[flat_index(w, q.0, q.1)]
                == old(self).pixels@[flat_index(w, q.0, q.1)] by {
                lemma_flat_index(w, h, q.0, q.1);
            }
        }
        assert(self@ =~= old(self)@.insert((x as int, y as int), p));
    }
}


/// `m` with `top` laid over it with its corner at `(x, y)`: where `top` covers
/// a pixel of `m`, that pixel takes `top`'s colour; parts of `top` beyond
/// `m` are dropped.
pub open spec fn pasted(m: Map<(int, int), Rgba>, top: Map<(int, int), Rgba>, x: int, y: int) -> Map<(int, int), Rgba> {
    Map::new(
        |p: (int, int)| m.dom().contains(p),
        |p: (int, int)|
            if top.dom().contains((p.0 - x, p.1 - y)) {
                top[(p.0 - x, p.1 - y)]
            } else {
                m[p]
            },
    )
}

/// The rectangle of `m` with corner `(x, y)` and size `w` x `h`, moved to the origin.
pub open spec fn cropped(m: Map<(int, int), Rgba>, x: int, y: int, w: int, h: int) -> Map<(int, int), Rgba> {
    Map::new(|p: (int, int)| in_rect(w, h, p), |p: (int, int)| m[(p.0 + x, p.1 + y)])
}

/// `GenericImage::copy_from` refused a placement: the source does not fit.
#[derive(Clone, Copy, Debug, PartialEq, Eq, Structural)]
pub enum CopyError {
    DimensionMismatch,
}

impl Canvas {
    /// Lays `top` over the image with its corner at `(x, y)`, copying its pixels;
    /// pixels that fall outside the image are dropped.
    pub fn paste(&mut self, top: &Canvas, x: u32, y: u32)
        requires
            old(self).wf(),
            top.wf(),
        ensures
            final(self).wf(),
            final(self).width == old(self).width,
            final(self).height == old(self).height,
            final(self)@ == pasted(old(self)@, top@, x as int, y as int),
    {
        let ghost start = self@;
        let ghost tw = top.width as int;
        let mut k: u32 = 0;
        while k < top.height
            invariant
                k <= top.height,
                top.wf(),
                tw == top.width,
                self.wf(),
                self.width == old(self).width,
                self.height == old(self).height,
                start == old(self)@,
                self@ == Map::new(
                    |p: (int, int)| start.dom().contains(p),
                    |p: (int, int)|
                        if top@.dom().contains((p.0 - x, p.1 - y)) && p.1 - y < k {
                            top@[(p.0 - x, p.1 - y)]
                        } else {
                            start[p]
                        },
                ),
            decreases top.height - k,
        {
            let mut i: u32 = 0;
            while i < top.width
                invariant
                    i <= top.width,
                    k < top.height,
                    top.wf(),
                    tw == top.width,
                    self.wf(),
                    self.width == old(self).width,
                    self.height == old(self).height,
                    start == old(self)@,
                    self@ == Map::new(
                        |p: (int, int)| start.dom().contains(p),
                        |p: (int, int)|
                            if top@.dom().contains((p.0 - x, p.1 - y)) && (p.1 - y < k || (p.1 - y == k && p.0 - x < i)) {
                                top@[(p.0 - x, p.1 - y)]
                            } else {
                                start[p]
                            },
                    ),
                decreases top.width - i,
            {
                let c = top.get_pixel(i, k);
                let dx: u64 = i as u64 + x as u64;
                let dy: u64 = k as u64 + y as u64;
                let ghost before = self@;
                if dx < self.width as u64 && dy < self.height as u64 {
                    self.put_pixel(dx as u32, dy as u32, c);
                }
                assert(self@ =~= Map::new(
                    |p: (int, int)| start.dom().contains(p),
                    |p: (int, int)|
                        if top@.dom().contains((p.0 - x, p.1 - y)) && (p.1 - y < k || (p.1 - y == k && p.0 - x < i + 1)) {
                            top@[(p.0 - x, p.1 - y)]
                        } else {
                            start[p]
                        },
                ));
                i = i + 1;
            }
            assert(self@ =~= Map::new(
                |p: (int, int)| start.dom().contains(p),
                |p: (int, int)|
                    if top@.dom().contains((p.0 - x, p.1 - y)) && p.1 - y < k + 1 {
                        top@[(p.0 - x, p.1 - y)]
                    } else {
                        start[p]
                    },
            ));
            k = k + 1;
        }
        assert(self@ =~= pasted(start, top@, x as int, y as int));
    }

    /// Copies `top` into the image with its corner at `(x, y)`
    /// (`GenericImage::copy_from`); refused, with nothing changed, when `top`
    /// does not fit there.
    pub fn copy_from(&mut self, top: &Canvas, x: u32, y: u32) -> (r: Result<(), CopyError>)
        requires
            old(self).wf(),
            top.wf(),
        ensures
            final(self).wf(),
            final(self).width == old(self).width,
            final(self).height == old(self).height,
            r is Ok <==> (x + top.width <= old(self).width && y + top.height <= old(self).height),
            r is Ok ==> final(self)@ == pasted(old(self)@, top@, x as int, y as int),
            r is Err ==> final(self)@ == old(self)@,
    {
        if top.width <= self.width && self.width - top.width >= x && top.height <= self.height && self.height - top.height >= y {
            self.paste(top, x, y);
            Ok(())
        } else {
            Err(CopyError::DimensionMismatch)
        }
    }

    /// The `w` x `h` part of the image with corner `(x, y)`
    /// (`GenericImageView::view` followed by `to_image`).
    pub fn crop(&self, x: u32, y: u32, w: u32, h: u32) -> (c: Canvas)
        requires
            self.wf(),
            x + w <= self.width,
            y + h <= self.height,
        ensures
            c.wf(),
            c.width == w,
            c.height == h,
            c@ == cropped(self@, x as int, y as int, w as int, h as int),
    {
        assert(4 * w <= 4 * self.width && 4 * w * h <= 4 * self.width * self.height) by (nonlinear_arith)
            requires
                w <= self.width,
                h <= self.height,
        ;
        let mut c = Canvas::from_pixel(w, h, Rgba { r: 0, g: 0, b: 0, a: 0 });
        let ghost start = c@;
        let mut k: u32 = 0;
        while k < h
            invariant
                k <= h,
                self.wf(),
                x + w <= self.width,
                y + h <= self.height,
                c.wf(),
                c.width == w,
                c.height == h,
                start.dom() == c@.dom(),
                c@ == Map::new(
                    |p: (int, int)| in_rect(w as int, h as int, p),
                    |p: (int, int)| if p.1 < k { self@[(p.0 + x, p.1 + y)] } else { start[p] },
                ),
            decreases h - k,
        {
            let mut i: u32 = 0;
            while i < w
                invariant
                    i <= w,
                    k < h,
                    self.wf(),
                    x + w <= self.width,
                    y + h <= self.height,
                    c.wf(),
                    c.width == w,
                    c.height == h,
                    c@ == Map::new(
                        |p: (int, int)| in_rect(w as int, h as int, p),
                        |p: (int, int)|
                            if p.1 < k || (p.1 == k && p.0 < i) {
                                self@[(p.0 + x, p.1 + y)]
                            } else {
                                start[p]
                            },
                    ),
                decreases w - i,
            {
                let p = self.get_pixel(i + x, k + y);
                c.put_pixel(i, k, p);
                assert(c@ =~= Map::new(
                    |q: (int, int)| in_rect(w as int, h as int, q),
                    |q: (int, int)|
                        if q.1 < k || (q.1 == k && q.0 < i + 1) {
                            self@[(q.0 + x, q.1 + y)]
                        } else {
                            start[q]
                        },
                ));
                i = i + 1;
            }
            assert(c@ =~= Map::new(
                |q: (int, int)| in_rect(w as int, h as int, q),
                |q: (int, int)| if q.1 < k + 1 { self@[(q.0 + x, q.1 + y)] } else { start[q] },
            ));
            k = k + 1;
        }
        assert(c@ =~= cropped(self@, x as int, y as int, w as int, h as int));
        c
    }
}

} // verus!

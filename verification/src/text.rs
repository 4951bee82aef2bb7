//! Text images: the rainbow stamp the cells are drawn from, and the white
//! score label.
use crate::canvas::{Canvas, Rgba, buffer_ok, white, in_rect};
use crate::cell::blank;
use crate::paint::{Write, paint_list, put_clip, all_alpha};
use vstd::prelude::*;

verus! {

/// Blank border around the text of the stamp.
pub const MARGIN_STAMP: u32 = 2;

/// Blank border around the text of the label.
pub const MARGIN_OVERLAY: u32 = 10;

/// The size of a text image: the text's extent plus a margin on every side.
pub fn padded_size(text_width: u32, text_height: u32, margin: u32) -> (r: (u32, u32))
    requires
        text_width + 2 * margin <= u32::MAX,
        text_height + 2 * margin <= u32::MAX,
    ensures
        r.0 == text_width + 2 * margin,
        r.1 == text_height + 2 * margin,
{
    (text_width + 2 * margin, text_height + 2 * margin)
}

/// The stamp's writes: each ink sample is an opaque pixel of its colour.
pub open spec fn stamp_writes(ink: Seq<(i64, i64, (u8, u8, u8))>) -> Seq<Write> {
    ink.map_values(|t: (i64, i64, (u8, u8, u8))| Some((t.0 as int, t.1 as int, Rgba { r: t.2.0, g: t.2.1, b: t.2.2, a: 255 })))
}

/// The label's writes: each ink sample is a white pixel with its alpha.
pub open spec fn label_writes(ink: Seq<(i64, i64, u8)>) -> Seq<Write> {
    ink.map_values(|t: (i64, i64, u8)| Some((t.0 as int, t.1 as int, Rgba { r: 255, g: 255, b: 255, a: t.2 })))
}

/// A transparent black image of the given size.
pub open spec fn clear(w: int, h: int) -> Map<(int, int), Rgba> {
    Map::new(|p: (int, int)| in_rect(w, h, p), |p: (int, int)| Rgba { r: 0, g: 0, b: 0, a: 0 })
}

/// The text stamp: a white image `MARGIN_STAMP` pixels larger than the text
/// on each side, with the text's glyph pixels drawn opaque in their rainbow
/// colours, in the order given. `ink` holds, for each glyph pixel, its
/// position in the stamp and its colour (the colour blends a hue, chosen by
/// the pixel's horizontal position, with white by the glyph's coverage);
/// pixels outside the stamp are dropped.
pub fn generate_stamp(text_width: u32, text_height: u32, ink: &Vec<(i64, i64, (u8, u8, u8))>) -> (c: Canvas)
    requires
        text_width + 2 * MARGIN_STAMP <= u32::MAX,
        text_height + 2 * MARGIN_STAMP <= u32::MAX,
        buffer_ok(text_width + 2 * MARGIN_STAMP, text_height + 2 * MARGIN_STAMP),
    ensures
        c.wf(),
        c.width == text_width + 2 * MARGIN_STAMP,
        c.height == text_height + 2 * MARGIN_STAMP,
        c@ == paint_list(blank(c.width as int, c.height as int), stamp_writes(ink@)),
{
    let (w, h) = padded_size(text_width, text_height, MARGIN_STAMP);
    let mut c = Canvas::from_pixel(w, h, white());
    let ghost start = c@;
    assert(start =~= blank(w as int, h as int));
    let mut i: usize = 0;
    while i < ink.len()
        invariant
            i <= ink.len(),
            c.wf(),
            c.width == w,
            c.height == h,
            start == blank(w as int, h as int),
            c@ == paint_list(start, stamp_writes(ink@.take(i as int))),
        decreases ink.len() - i,
    {
        let (x, y, rgb) = ink[i];
        c.put_clip(x, y, Rgba { r: rgb.0, g: rgb.1, b: rgb.2, a: 255 });
        assert(stamp_writes(ink@.take(i + 1)).drop_last() =~= stamp_writes(ink@.take(i as int)));
        i = i + 1;
    }
    assert(ink@.take(ink.len() as int) =~= ink@);
    c
}

/// The score label: a transparent image `MARGIN_OVERLAY` pixels larger than
/// the text on each side, with the text's glyph pixels drawn white, their
/// alpha given by the glyph's coverage, in the order given; pixels outside
/// the label are dropped.
pub fn generate_overlay(text_width: u32, text_height: u32, ink: &Vec<(i64, i64, u8)>) -> (c: Canvas)
    requires
        text_width + 2 * MARGIN_OVERLAY <= u32::MAX,
        text_height + 2 * MARGIN_OVERLAY <= u32::MAX,
        buffer_ok(text_width + 2 * MARGIN_OVERLAY, text_height + 2 * MARGIN_OVERLAY),
    ensures
        c.wf(),
        c.width == text_width + 2 * MARGIN_OVERLAY,
        c.height == text_height + 2 * MARGIN_OVERLAY,
        c@ == paint_list(clear(c.width as int, c.height as int), label_writes(ink@)),
{
    let (w, h) = padded_size(text_width, text_height, MARGIN_OVERLAY);
    let mut c = Canvas::from_pixel(w, h, Rgba { r: 0, g: 0, b: 0, a: 0 });
    let ghost start = c@;
    assert(start =~= clear(w as int, h as int));
    let mut i: usize = 0;
    while i < ink.len()
        invariant
            i <= ink.len(),
            c.wf(),
            c.width == w,
            c.height == h,
            start == clear(w as int, h as int),
            c@ == paint_list(start, label_writes(ink@.take(i as int))),
        decreases ink.len() - i,
    {
        let (x, y, a) = ink[i];
        c.put_clip(x, y, Rgba { r: 255, g: 255, b: 255, a });
        assert(label_writes(ink@.take(i + 1)).drop_last() =~= label_writes(ink@.take(i as int)));
        i = i + 1;
    }
    assert(ink@.take(ink.len() as int) =~= ink@);
    c
}

proof fn lemma_paint_list_keeps_alpha(m: Map<(int, int), Rgba>, ws: Seq<Write>, a: u8)
    requires
        all_alpha(m, a),
        forall|i: int| 0 <= i < ws.len() ==> (#[trigger] ws[i] matches Some(t) ==> t.2.a == a),
    ensures
        all_alpha(paint_list(m, ws), a),
        paint_list(m, ws).dom() == m.dom(),
    decreases ws.len(),
{
    if ws.len() > 0 {
        lemma_paint_list_keeps_alpha(m, ws.drop_last(), a);
        assert(ws.last() == ws[ws.len() - 1]);
    }
}

/// Every pixel of a stamp is opaque, whatever its ink.
pub proof fn law_stamp_opaque(w: int, h: int, ink: Seq<(i64, i64, (u8, u8, u8))>)
    ensures
        all_alpha(paint_list(blank(w, h), stamp_writes(ink)), 255),
        paint_list(blank(w, h), stamp_writes(ink)).dom() == blank(w, h).dom(),
{
    lemma_paint_list_keeps_alpha(blank(w, h), stamp_writes(ink), 255);
}

/// Every pixel of a label is transparent black (untouched background) or
/// white with some alpha (ink), whatever its ink.
pub proof fn law_label_white(w: int, h: int, ink: Seq<(i64, i64, u8)>)
    ensures
        forall|p: (int, int)|
            #[trigger] paint_list(clear(w, h), label_writes(ink)).dom().contains(p) ==> {
                let q = paint_list(clear(w, h), label_writes(ink))[p];
                q == (Rgba { r: 0, g: 0, b: 0, a: 0 }) || (q.r == 255 && q.g == 255 && q.b == 255)
            },
    decreases ink.len(),
{
    if ink.len() > 0 {
        law_label_white(w, h, ink.drop_last());
        let ws = label_writes(ink);
        assert(ws.drop_last() =~= label_writes(ink.drop_last()));
        let prev = paint_list(clear(w, h), ws.drop_last());
        let t = ink.last();
        assert(ws.last() == Some((t.0 as int, t.1 as int, Rgba { r: 255, g: 255, b: 255, a: t.2 })));
        let cur = paint_list(clear(w, h), ws);
        assert(cur == put_clip(prev, ws.last()));
        assert forall|p: (int, int)| #[trigger] cur.dom().contains(p) implies {
            let q = cur[p];
            q == (Rgba { r: 0, g: 0, b: 0, a: 0 }) || (q.r == 255 && q.g == 255 && q.b == 255)
        } by {
            if p != (t.0 as int, t.1 as int) {
                assert(prev.dom().contains(p));
            }
        }
    }
}

} // verus!

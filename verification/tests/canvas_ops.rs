use bigsryai::canvas::{Canvas, CopyError, Rgba};

fn px(r: u8, g: u8, b: u8, a: u8) -> Rgba {
    Rgba { r, g, b, a }
}

fn numbered(w: u32, h: u32) -> Canvas {
    let mut c = Canvas::from_pixel(w, h, px(0, 0, 0, 255));
    for y in 0..h {
        for x in 0..w {
            c.put_pixel(x, y, px(x as u8, y as u8, (x + 10 * y) as u8, 255));
        }
    }
    c
}

#[test]
fn from_pixel_fills_every_pixel() {
    let c = Canvas::from_pixel(3, 2, px(1, 2, 3, 4));
    assert_eq!(c.width, 3);
    assert_eq!(c.height, 2);
    assert_eq!(c.pixels.len(), 6);
    for y in 0..2 {
        for x in 0..3 {
            assert_eq!(c.get_pixel(x, y), px(1, 2, 3, 4));
        }
    }
}

#[test]
fn put_then_get_reads_back_and_leaves_others() {
    let mut c = Canvas::from_pixel(4, 3, px(0, 0, 0, 0));
    c.put_pixel(2, 1, px(9, 8, 7, 6));
    assert_eq!(c.get_pixel(2, 1), px(9, 8, 7, 6));
    assert_eq!(c.get_pixel(1, 2), px(0, 0, 0, 0));
    assert_eq!(c.get_pixel(3, 0), px(0, 0, 0, 0));
    // row-major store
    assert_eq!(c.pixels[1 * 4 + 2], px(9, 8, 7, 6));
}

#[test]
fn put_clip_drops_outside_writes() {
    let mut c = Canvas::from_pixel(2, 2, px(0, 0, 0, 0));
    c.put_clip(-1, 0, px(1, 1, 1, 1));
    c.put_clip(2, 0, px(1, 1, 1, 1));
    c.put_clip(0, 5, px(1, 1, 1, 1));
    assert!(c.pixels.iter().all(|p| *p == px(0, 0, 0, 0)));
    c.put_clip(1, 1, px(1, 1, 1, 1));
    assert_eq!(c.get_pixel(1, 1), px(1, 1, 1, 1));
}

#[test]
fn copy_from_places_the_source() {
    let mut c = Canvas::from_pixel(5, 4, px(0, 0, 0, 255));
    let top = numbered(2, 2);
    assert_eq!(c.copy_from(&top, 3, 2), Ok(()));
    assert_eq!(c.get_pixel(3, 2), top.get_pixel(0, 0));
    assert_eq!(c.get_pixel(4, 3), top.get_pixel(1, 1));
    assert_eq!(c.get_pixel(2, 2), px(0, 0, 0, 255));
}

#[test]
fn copy_from_refuses_when_it_does_not_fit() {
    let mut c = Canvas::from_pixel(5, 4, px(0, 0, 0, 255));
    let top = numbered(2, 2);
    assert_eq!(c.copy_from(&top, 4, 0), Err(CopyError::DimensionMismatch));
    assert_eq!(c.copy_from(&top, 0, 3), Err(CopyError::DimensionMismatch));
    assert!(c.pixels.iter().all(|p| *p == px(0, 0, 0, 255)));
    let big = numbered(6, 1);
    assert_eq!(c.copy_from(&big, 0, 0), Err(CopyError::DimensionMismatch));
}

#[test]
fn paste_clips_at_the_edges() {
    let mut c = Canvas::from_pixel(3, 3, px(0, 0, 0, 255));
    let top = numbered(2, 2);
    c.paste(&top, 2, 2);
    assert_eq!(c.get_pixel(2, 2), top.get_pixel(0, 0));
    assert_eq!(c.get_pixel(1, 1), px(0, 0, 0, 255));
}

#[test]
fn crop_takes_the_rectangle() {
    let c = numbered(5, 4);
    let part = c.crop(1, 2, 3, 2);
    assert_eq!((part.width, part.height), (3, 2));
    for y in 0..2 {
        for x in 0..3 {
            assert_eq!(part.get_pixel(x, y), c.get_pixel(x + 1, y + 2));
        }
    }
}

#[test]
fn raw_bytes_round_trip() {
    let c = numbered(3, 2);
    let raw = c.to_raw();
    assert_eq!(raw.len(), 24);
    assert_eq!(&raw[4..8], &[1, 0, 1, 255]);
    let back = Canvas::from_raw(3, 2, &raw);
    assert_eq!(back.pixels, c.pixels);
}

#[test]
fn resize_to_same_size_is_a_copy() {
    let c = numbered(4, 3);
    let r = c.resize(4, 3);
    assert_eq!(r.pixels, c.pixels);
}

#[test]
fn resize_changes_the_size() {
    let c = numbered(4, 3);
    let r = c.resize(8, 5);
    assert_eq!((r.width, r.height), (8, 5));
    assert_eq!(r.pixels.len(), 40);
    let e = Canvas::from_pixel(0, 3, px(1, 1, 1, 1)).resize(2, 2);
    assert!(e.pixels.iter().all(|p| *p == px(0, 0, 0, 0)));
}

#[test]
fn overlay_opaque_and_transparent_pixels() {
    let mut c = Canvas::from_pixel(3, 3, px(10, 10, 10, 255));
    let mut top = Canvas::from_pixel(2, 1, px(0, 0, 0, 0));
    top.put_pixel(0, 0, px(200, 100, 50, 255));
    c.overlay(&top, 1, 1);
    assert_eq!(c.get_pixel(1, 1), px(200, 100, 50, 255));
    assert_eq!(c.get_pixel(2, 1), px(10, 10, 10, 255));
    assert_eq!(c.get_pixel(0, 0), px(10, 10, 10, 255));
}

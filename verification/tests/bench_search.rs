use image::Pixel;
use bigsryai::bench::{arrange_rows, cells_per_row, paste_label, BinarySearch};
use bigsryai::canvas::{Canvas, Rgba};

fn px(r: u8, g: u8, b: u8, a: u8) -> Rgba {
    Rgba { r, g, b, a }
}

#[test]
fn bisection_finds_the_largest_count_within_the_limit() {
    // counts up to 37 render in time, larger ones exceed the limit
    let limit = 37u32;
    let mut s = BinarySearch::new(20, 60);
    let mut probes = Vec::new();
    while let Some(m) = s.next_probe() {
        probes.push(m);
        s.record(m, m > limit);
    }
    assert_eq!(s.result(), 37);
    assert_eq!(probes, vec![40, 30, 35, 37, 38]);
}

#[test]
fn bisection_with_adjacent_bounds_is_done() {
    let s = BinarySearch::new(5, 6);
    assert_eq!(s.next_probe(), None);
    assert_eq!(s.result(), 5);
    let s = BinarySearch::new(5, 5);
    assert_eq!(s.next_probe(), None);
}

#[test]
fn bisection_near_the_top_of_u32() {
    let mut s = BinarySearch::new(u32::MAX - 3, u32::MAX);
    assert_eq!(s.next_probe(), Some(u32::MAX - 2));
    s.record(u32::MAX - 2, false);
    assert_eq!(s.next_probe(), Some(u32::MAX - 1));
}

#[test]
fn cells_per_row_examples() {
    assert_eq!(cells_per_row(0), 1);
    assert_eq!(cells_per_row(100), 19);
    assert_eq!(cells_per_row(1920), 1);
    assert_eq!(cells_per_row(5000), 1);
    assert_eq!(cells_per_row(7), 274);
}

#[test]
fn rows_of_cells_from_a_strip() {
    // strip of 5 cells of 2 x 1, wrapped 2 per row
    let mut strip = Canvas::from_pixel(10, 1, px(0, 0, 0, 255));
    for i in 0..10 {
        strip.put_pixel(i, 0, px(i as u8, 0, 0, 255));
    }
    let c = arrange_rows(&strip, 5, 2, 1, 2).unwrap();
    assert_eq!((c.width, c.height), (4, 3));
    assert_eq!(c.get_pixel(0, 0), px(0, 0, 0, 255));
    assert_eq!(c.get_pixel(3, 0), px(3, 0, 0, 255));
    assert_eq!(c.get_pixel(0, 1), px(4, 0, 0, 255));
    assert_eq!(c.get_pixel(1, 2), px(9, 0, 0, 255));
    // the slot after the last cell stays white
    assert_eq!(c.get_pixel(2, 2), px(255, 255, 255, 255));
}

#[test]
fn label_pasted_bottom_right_without_blending() {
    let mut c = Canvas::from_pixel(30, 20, px(1, 1, 1, 255));
    let label = Canvas::from_pixel(4, 3, px(255, 255, 255, 0));
    paste_label(&mut c, &label);
    // copied, not blended: the transparent label pixels replace the canvas pixels
    assert_eq!(c.get_pixel(16, 7), px(255, 255, 255, 0));
    assert_eq!(c.get_pixel(19, 9), px(255, 255, 255, 0));
    assert_eq!(c.get_pixel(20, 9), px(1, 1, 1, 255));
    assert_eq!(c.get_pixel(15, 7), px(1, 1, 1, 255));
}

#[test]
fn a_row_of_cells_fits_the_picture_width() {
    for w in 1..=1920u32 {
        assert!(cells_per_row(w) * w <= 1920);
    }
}

#[test]
fn partly_transparent_strip_pixels_are_blended_over_white() {
    let mut strip = Canvas::from_pixel(4, 1, px(0, 0, 0, 128));
    strip.put_pixel(3, 0, px(10, 20, 30, 0));
    let c = arrange_rows(&strip, 2, 2, 1, 1).unwrap();
    let mut expected = image::Rgba([255u8, 255, 255, 255]);
    expected.blend(&image::Rgba([0u8, 0, 0, 128]));
    assert_eq!(c.get_pixel(0, 0), px(expected[0], expected[1], expected[2], expected[3]));
    // a transparent strip pixel leaves the white background
    assert_eq!(c.get_pixel(1, 1), px(255, 255, 255, 255));
}

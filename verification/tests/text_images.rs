use bigsryai::canvas::Rgba;
use bigsryai::text::padded_size;
use bigsryai::{generate_overlay, generate_stamp};

fn px(r: u8, g: u8, b: u8, a: u8) -> Rgba {
    Rgba { r, g, b, a }
}

#[test]
fn stamp_size_adds_margins() {
    assert_eq!(padded_size(10, 5, 2), (14, 9));
    let s = generate_stamp(10, 5, &vec![]);
    assert_eq!((s.width, s.height), (14, 9));
    assert!(s.pixels.iter().all(|p| *p == px(255, 255, 255, 255)));
}

#[test]
fn stamp_ink_is_opaque_and_clipped() {
    let ink = vec![(0, 0, (1, 2, 3)), (3, 1, (4, 5, 6)), (20, 0, (7, 7, 7)), (-1, 2, (8, 8, 8)), (3, 1, (9, 9, 9))];
    let s = generate_stamp(0, 0, &ink);
    assert_eq!((s.width, s.height), (4, 4));
    assert_eq!(s.get_pixel(0, 0), px(1, 2, 3, 255));
    assert_eq!(s.get_pixel(3, 1), px(9, 9, 9, 255));
    assert!(s.pixels.iter().all(|p| p.a == 255));
}

#[test]
fn label_is_transparent_with_white_ink() {
    let ink = vec![(10, 10, 128), (11, 10, 255), (50, 50, 9)];
    let l = generate_overlay(3, 1, &ink);
    assert_eq!((l.width, l.height), (23, 21));
    assert_eq!(l.get_pixel(10, 10), px(255, 255, 255, 128));
    assert_eq!(l.get_pixel(11, 10), px(255, 255, 255, 255));
    assert_eq!(l.get_pixel(0, 0), px(0, 0, 0, 0));
}

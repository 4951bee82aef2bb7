use image::Pixel;
use bigsryai::canvas::{Canvas, Rgba};
use bigsryai::compose::LayoutError;
use bigsryai::{render_many, render_overlay, render_result};

fn px(r: u8, g: u8, b: u8, a: u8) -> Rgba {
    Rgba { r, g, b, a }
}

fn solid(w: u32, h: u32, v: u8) -> Canvas {
    Canvas::from_pixel(w, h, px(v, v, v, 255))
}

const WHITE: Rgba = Rgba { r: 255, g: 255, b: 255, a: 255 };

#[test]
fn strip_places_cells_side_by_side() {
    let cells = vec![solid(2, 2, 1), solid(2, 2, 2), solid(2, 2, 3)];
    let c = render_many(&cells, 2, 2).unwrap();
    assert_eq!((c.width, c.height), (6, 2));
    for i in 0..3u32 {
        for y in 0..2 {
            for x in 0..2 {
                assert_eq!(c.get_pixel(i * 2 + x, y), px(i as u8 + 1, i as u8 + 1, i as u8 + 1, 255));
            }
        }
    }
}

#[test]
fn strip_of_nothing() {
    let c = render_many(&vec![], 7, 3).unwrap();
    assert_eq!((c.width, c.height), (0, 3));
}

#[test]
fn strip_with_a_smaller_cell_keeps_white() {
    let cells = vec![solid(1, 1, 5), solid(2, 2, 6)];
    let c = render_many(&cells, 2, 2).unwrap();
    assert_eq!(c.get_pixel(0, 0), px(5, 5, 5, 255));
    assert_eq!(c.get_pixel(1, 1), WHITE);
}

#[test]
fn strip_errors() {
    let cells = vec![solid(2, 3, 1)];
    assert_eq!(render_many(&cells, 2, 2).err(), Some(LayoutError::CellDoesNotFit));
    let cells = vec![solid(1, 1, 1), solid(1, 1, 1)];
    assert_eq!(render_many(&cells, u32::MAX, 1).err(), Some(LayoutError::TooLarge));
}

#[test]
fn result_grid_without_scaling() {
    // 4 cells of 2 x 2 on a 4 x 4 target: 2 columns, 2 rows, no resampling.
    let cells = vec![solid(2, 2, 10), solid(2, 2, 20), solid(2, 2, 30), solid(2, 2, 40)];
    let label = Canvas::from_pixel(0, 0, WHITE);
    let c = render_result(&cells, 2, 2, 4, 4, &label).unwrap();
    assert_eq!((c.width, c.height), (4, 4));
    assert_eq!(c.get_pixel(0, 0), px(10, 10, 10, 255));
    assert_eq!(c.get_pixel(3, 0), px(20, 20, 20, 255));
    assert_eq!(c.get_pixel(1, 2), px(30, 30, 30, 255));
    assert_eq!(c.get_pixel(2, 3), px(40, 40, 40, 255));
}

#[test]
fn result_label_in_the_corner() {
    let cells = vec![solid(20, 20, 10), solid(20, 20, 20), solid(20, 20, 30), solid(20, 20, 40)];
    let label = Canvas::from_pixel(3, 2, px(255, 0, 0, 255));
    let c = render_result(&cells, 20, 20, 40, 40, &label).unwrap();
    // bottom-right corner with a 10 pixel margin: label at (27, 28)
    assert_eq!(c.get_pixel(27, 28), px(255, 0, 0, 255));
    assert_eq!(c.get_pixel(29, 29), px(255, 0, 0, 255));
    assert_eq!(c.get_pixel(30, 29), px(40, 40, 40, 255));
    assert_eq!(c.get_pixel(26, 28), px(40, 40, 40, 255));
}

#[test]
fn result_is_scaled_to_the_target() {
    let cells = vec![solid(3, 2, 1); 5];
    let label = Canvas::from_pixel(1, 1, px(0, 0, 0, 0));
    let c = render_result(&cells, 3, 2, 17, 9, &label).unwrap();
    assert_eq!((c.width, c.height), (17, 9));
}

#[test]
fn result_of_an_empty_grid_is_transparent_black() {
    // cells of height 0 make an empty grid; scaling it gives transparent black
    let cells = vec![Canvas::from_pixel(2, 0, WHITE); 3];
    let label = Canvas::from_pixel(1, 1, px(255, 0, 0, 255));
    let c = render_result(&cells, 2, 0, 3, 3, &label).unwrap();
    assert_eq!((c.width, c.height), (3, 3));
    // the label goes to the origin of so small an image
    assert_eq!(c.get_pixel(0, 0), px(255, 0, 0, 255));
    for y in 0..3 {
        for x in 0..3 {
            if (x, y) != (0, 0) {
                assert_eq!(c.get_pixel(x, y), px(0, 0, 0, 0));
            }
        }
    }
}

#[test]
fn result_errors() {
    let label = Canvas::from_pixel(1, 1, WHITE);
    let cells = vec![solid(3, 3, 1)];
    assert_eq!(render_result(&cells, 2, 2, 4, 4, &label).err(), Some(LayoutError::CellDoesNotFit));
    let cells = vec![solid(1, 1, 1); 2];
    assert_eq!(render_result(&cells, 70000, 1, 1, 70000, &label).err(), Some(LayoutError::TooLarge));
}

#[test]
fn overlay_label_small_canvas_goes_to_origin() {
    let mut c = Canvas::from_pixel(5, 5, WHITE);
    let label = Canvas::from_pixel(2, 2, px(0, 0, 255, 255));
    render_overlay(&mut c, &label);
    assert_eq!(c.get_pixel(0, 0), px(0, 0, 255, 255));
    assert_eq!(c.get_pixel(1, 1), px(0, 0, 255, 255));
    assert_eq!(c.get_pixel(2, 2), WHITE);
}

#[test]
fn overlay_transparent_label_changes_nothing() {
    let mut c = Canvas::from_pixel(30, 30, px(9, 9, 9, 255));
    let label = Canvas::from_pixel(5, 5, px(255, 255, 255, 0));
    render_overlay(&mut c, &label);
    assert!(c.pixels.iter().all(|p| *p == px(9, 9, 9, 255)));
}

#[test]
fn strip_of_opaque_cells_is_opaque() {
    let cells = vec![solid(3, 2, 7), solid(1, 1, 8), solid(3, 2, 9)];
    let c = render_many(&cells, 3, 2).unwrap();
    assert!(c.pixels.iter().all(|p| p.a == 255));
}

#[test]
fn appending_a_cell_keeps_the_strip_prefix() {
    let cells3 = vec![solid(2, 2, 1), solid(2, 2, 2), solid(2, 2, 3)];
    let cells2 = vec![solid(2, 2, 1), solid(2, 2, 2)];
    let s3 = render_many(&cells3, 2, 2).unwrap();
    let s2 = render_many(&cells2, 2, 2).unwrap();
    for y in 0..2 {
        for x in 0..4 {
            assert_eq!(s3.get_pixel(x, y), s2.get_pixel(x, y));
        }
    }
}

#[test]
fn label_edges_are_blended() {
    let mut c = Canvas::from_pixel(30, 30, px(40, 80, 120, 255));
    let label = Canvas::from_pixel(4, 4, px(255, 255, 255, 100));
    render_overlay(&mut c, &label);
    let mut expected = image::Rgba([40u8, 80, 120, 255]);
    expected.blend(&image::Rgba([255u8, 255, 255, 100]));
    let e = px(expected[0], expected[1], expected[2], expected[3]);
    assert_eq!(c.get_pixel(16, 16), e);
    assert_eq!(c.get_pixel(19, 19), e);
    assert_eq!(c.get_pixel(20, 20), px(40, 80, 120, 255));
}

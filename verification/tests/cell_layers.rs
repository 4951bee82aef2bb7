use bigsryai::canvas::{Canvas, Rgba};
use bigsryai::cell::{render_cell, render_one, CellEffects};

fn px(r: u8, g: u8, b: u8, a: u8) -> Rgba {
    Rgba { r, g, b, a }
}

fn strip4() -> Canvas {
    let mut s = Canvas::from_pixel(4, 1, px(0, 0, 0, 255));
    s.put_pixel(0, 0, px(10, 20, 30, 255));
    s.put_pixel(1, 0, px(40, 50, 60, 255));
    s.put_pixel(2, 0, px(250, 250, 250, 255));
    s.put_pixel(3, 0, px(70, 80, 90, 255));
    s
}

fn effects(w: usize, h: usize, tint: (u8, u8, u8), jitter_x: Vec<i32>) -> CellEffects {
    CellEffects {
        glow: vec![vec![0u8; 256]; 49],
        shade: (0..8).map(|e| vec![(e + 1) as u8; 256]).collect(),
        wave_x: vec![0; w],
        wave_y: vec![0; h],
        turn: (0..h).map(|y| (0..w).map(|x| (x as u32, y as u32)).collect()).collect(),
        jitter_x,
        jitter_y: vec![0; h],
        tint: vec![vec![tint; w]; h],
    }
}

#[test]
fn layers_on_a_one_row_stamp_with_shift_and_jitter() {
    let stamp = strip4();
    let fx = effects(4, 1, (100, 100, 100), vec![1, 0, 0, 0]);
    let c = render_cell(&stamp, 0, 0, 0, &fx);
    assert_eq!((c.width, c.height), (4, 1));
    assert_eq!(c.get_pixel(0, 0), px(40, 20, 30, 255));
    assert_eq!(c.get_pixel(1, 0), px(55, 60, 65, 255));
    assert_eq!(c.get_pixel(2, 0), px(255, 250, 250, 255));
    assert_eq!(c.get_pixel(3, 0), px(0, 10, 40, 255));
}

#[test]
fn layers_on_a_one_row_stamp_with_sparkle() {
    let stamp = strip4();
    let fx = effects(4, 1, (0, 0, 0), vec![0, 0, 0, -3]);
    let c = render_cell(&stamp, 0, 0, 95, &fx);
    assert_eq!(c.get_pixel(0, 0), px(35, 40, 45, 255));
    assert_eq!(c.get_pixel(1, 0), px(70, 50, 60, 255));
    assert_eq!(c.get_pixel(2, 0), px(255, 255, 255, 255));
    assert_eq!(c.get_pixel(3, 0), px(100, 80, 90, 255));
}

#[test]
fn single_pixel_stamp() {
    let stamp = Canvas::from_pixel(1, 1, px(200, 0, 0, 255));
    let mut fx = effects(1, 1, (0, 0, 0), vec![0]);
    fx.glow = vec![(0..=255u8).collect(); 49];
    fx.shade = vec![(0..=255u8).collect(); 8];
    let c = render_one(&stamp, 0, &fx);
    // the last layer, the jitter, mixes the stamp's red (200) with the black tint.
    assert_eq!(c.get_pixel(0, 0), px(100, 0, 0, 255));
}

#[test]
fn glow_reaches_every_pixel() {
    let stamp = Canvas::from_pixel(3, 3, px(0, 0, 0, 0));
    let mut fx = effects(3, 3, (0, 0, 0), vec![0; 3]);
    // move every front-layer pixel and every extruded pixel off the canvas
    // (cell 1 jitters no pixel of a 3 x 3 stamp)
    fx.turn = vec![vec![(6, 6); 3]; 3];
    fx.jitter_x = vec![5; 3];
    fx.shade = vec![vec![7; 256]; 8];
    fx.wave_x = vec![5; 3];
    assert!(fx.fits_stamp(3, 3));
    let c = render_cell(&stamp, 0, 0, 1, &fx);
    // glow still covers every pixel with black of alpha 0, shift lands on (3+..) off canvas
    assert!(c.pixels.iter().all(|p| *p == px(0, 0, 0, 0)));
}

#[test]
fn opaque_stamp_gives_opaque_cell() {
    let mut stamp = Canvas::from_pixel(5, 4, px(255, 255, 255, 255));
    stamp.put_pixel(2, 2, px(12, 200, 40, 255));
    let w = 5usize;
    let h = 4usize;
    let fx = CellEffects {
        glow: (0..49).map(|k| (0..=255u8).map(|v| v / 2 + k as u8).collect()).collect(),
        shade: (0..8).map(|e| (0..=255u8).map(|v| v / (e as u8 + 1)).collect()).collect(),
        wave_x: (0..w).map(|x| (x % 3) as u32).collect(),
        wave_y: (0..h).map(|y| (y % 2) as u32).collect(),
        turn: (0..h).map(|y| (0..w).map(|x| ((x + y) as u32, y as u32)).collect()).collect(),
        jitter_x: (0..w).map(|x| (x as i32 % 3) - 1).collect(),
        jitter_y: (0..h).map(|y| 1 - (y as i32 % 3)).collect(),
        tint: vec![vec![(1, 2, 3); w]; h],
    };
    for ci in 0..20 {
        let c = render_cell(&stamp, 0, 0, ci, &fx);
        assert_eq!((c.width, c.height), (5, 4));
        assert!(c.pixels.iter().all(|p| p.a == 255));
    }
}

#[test]
fn overflowing_positions_are_detected() {
    let stamp = strip4();
    let fx = effects(4, 1, (0, 0, 0), vec![0; 4]);
    assert!(fx.fits_stamp(4, 1));
    assert!(!fx.fits_stamp(5, 1));
    assert!(bigsryai::cell::check_cell_fits(&stamp, &fx, 0, 0, 0));
    // the extrusion offset base_x + 35 overflows
    assert!(!bigsryai::cell::check_cell_fits(&stamp, &fx, u32::MAX - 20, 0, 0));
    // the glow position base_x as i32 + 3 + 3 overflows
    assert!(!bigsryai::cell::check_cell_fits(&stamp, &fx, 0x7fff_fffd, 0, 0));
    // px + py + cell_index overflows
    assert!(!bigsryai::cell::check_cell_fits(&stamp, &fx, 0, 0, u32::MAX - 1));
    // a base past i32::MAX wraps to -2147483645; jittering pixel (0, 0) by -5
    // goes below i32::MIN
    assert!(bigsryai::cell::check_cell_fits(&stamp, &fx, 0x8000_0003, 0, 0));
    let mut far = fx.clone();
    far.jitter_x[0] = -5;
    assert!(far.fits_stamp(4, 1));
    assert!(!bigsryai::cell::check_cell_fits(&stamp, &far, 0x8000_0003, 0, 0));
}

#[test]
fn effect_offsets_out_of_range_do_not_fit() {
    let fx = effects(4, 2, (0, 0, 0), vec![0; 4]);
    assert!(fx.fits_stamp(4, 2));
    let mut wave = fx.clone();
    wave.wave_y[1] = 6;
    assert!(!wave.fits_stamp(4, 2));
    let mut jitter = fx.clone();
    jitter.jitter_x[3] = -6;
    assert!(!jitter.fits_stamp(4, 2));
    let mut jitter = fx.clone();
    jitter.jitter_y[0] = 6;
    assert!(!jitter.fits_stamp(4, 2));
    let mut turn = fx.clone();
    turn.turn[1][2] = (6, 7);
    assert!(!turn.fits_stamp(4, 2));
    turn.turn[1][2] = (6, 6);
    assert!(turn.fits_stamp(4, 2));
}

#[test]
fn effects_in_range_fit_up_to_the_bounds() {
    let stamp = strip4();
    let mut fx = effects(4, 1, (0, 0, 0), vec![-5, 5, -5, 5]);
    fx.wave_x = vec![5; 4];
    fx.wave_y = vec![5; 1];
    fx.jitter_y = vec![-5];
    fx.turn = vec![vec![(5, 5); 4]];
    assert!(fx.fits_stamp(4, 1));
    let bx = i32::MAX as u32 - 4 - 64;
    let by = i32::MAX as u32 - 1 - 64;
    let ci = u32::MAX - 5;
    assert!(bigsryai::cell::check_cell_fits(&stamp, &fx, bx, by, ci));
    assert!(bigsryai::cell::check_cell_fits(&stamp, &fx, 0, 0, ci));
    let c = render_cell(&stamp, bx, by, ci, &fx);
    assert_eq!((c.width, c.height), (4, 1));
}

#[test]
fn a_base_beyond_i32_wraps_and_draws_nothing() {
    let stamp = strip4();
    let fx = effects(4, 1, (0, 0, 0), vec![0; 4]);
    assert!(bigsryai::cell::check_cell_fits(&stamp, &fx, 3_000_000_000, 0, 0));
    let c = render_cell(&stamp, 3_000_000_000, 0, 0, &fx);
    assert!(c.pixels.iter().all(|p| *p == px(255, 255, 255, 255)));
}

#[test]
fn moving_the_base_moves_the_drawing() {
    let mut stamp = Canvas::from_pixel(6, 4, px(255, 255, 255, 255));
    stamp.put_pixel(1, 1, px(10, 200, 30, 255));
    stamp.put_pixel(4, 2, px(90, 20, 230, 255));
    let w = 6usize;
    let h = 4usize;
    let fx = CellEffects {
        glow: (0..49).map(|k| (0..=255u8).map(|v| v / 2 + k as u8).collect()).collect(),
        shade: (0..8).map(|e| (0..=255u8).map(|v| v / (e as u8 + 1)).collect()).collect(),
        wave_x: (0..w).map(|x| (x % 3) as u32).collect(),
        wave_y: (0..h).map(|y| (y % 2) as u32).collect(),
        turn: (0..h).map(|y| (0..w).map(|x| ((x + 1) as u32, y as u32)).collect()).collect(),
        jitter_x: (0..w).map(|x| (x as i32 % 3) - 1).collect(),
        jitter_y: (0..h).map(|y| 1 - (y as i32 % 3)).collect(),
        tint: vec![vec![(1, 2, 3); w]; h],
    };
    let origin = render_cell(&stamp, 0, 0, 3, &fx);
    let moved = render_cell(&stamp, 2, 1, 3, &fx);
    for y in 1..4u32 {
        for x in 2..6u32 {
            assert_eq!(moved.get_pixel(x, y), origin.get_pixel(x - 2, y - 1));
        }
    }
}

//! Stage-level behavior: blur, Sobel, integer square root, suppression
//! and hysteresis, including the idempotence of hysteresis.

use dauntless::grid::Grid;
use dauntless::oper::{blur, sobel};
use dauntless::post::{nms, hysteresis};
use dauntless::mask::isqrt_u32;

fn grid_u8(h: usize, w: usize, v: u8) -> Grid<u8> {
    Grid::new_fill(h, w, v)
}

#[test]
fn isqrt_exact_values() {
    assert_eq!(isqrt_u32(0), 0);
    assert_eq!(isqrt_u32(1), 1);
    assert_eq!(isqrt_u32(2), 1);
    assert_eq!(isqrt_u32(3), 1);
    assert_eq!(isqrt_u32(4), 2);
    assert_eq!(isqrt_u32(15), 3);
    assert_eq!(isqrt_u32(16), 4);
    assert_eq!(isqrt_u32(17), 4);
    assert_eq!(isqrt_u32(2080800), 1442);
    assert_eq!(isqrt_u32(u32::MAX), 65535);
}

#[test]
fn blur_constant_image_stays_constant_inside() {
    let img = grid_u8(12, 10, 80);
    let mut tmp = grid_u8(12, 10, 0);
    let mut out = grid_u8(12, 10, 0);
    blur(&img, &mut tmp, &mut out);
    assert_eq!(out.data.len(), 12 * 10);
    for y in 0..12usize {
        for x in 0..10usize {
            let v = out.data[y * 10 + x];
            if y >= 2 && y < 10 && x >= 2 && x < 8 {
                assert_eq!(v, 80);
            } else {
                assert_eq!(v, 0);
            }
        }
    }
}

#[test]
fn blur_single_bright_pixel_spreads_binomially() {
    let mut img = grid_u8(11, 11, 0);
    img.put(5, 5, 160);
    let mut tmp = grid_u8(11, 11, 0);
    let mut out = grid_u8(11, 11, 0);
    blur(&img, &mut tmp, &mut out);
    // horizontal pass: 160 * [1,4,6,4,1] / 16 = [10,40,60,40,10];
    // vertical pass at the center: 60 * 6 / 16 = 22
    assert_eq!(out.data[5 * 11 + 5], 22);
    // one above the center: 60 * 4 / 16 = 15
    assert_eq!(out.data[4 * 11 + 5], 15);
}

#[test]
fn sobel_vertical_step_has_horizontal_gradient() {
    // left half dark, right half bright
    let mut img = grid_u8(8, 8, 0);
    for y in 0..8usize {
        for x in 4..8usize {
            img.put(y, x, 100);
        }
    }
    let mut gx: Grid<i32> = Grid::new_fill(8, 8, 0);
    let mut gy: Grid<i32> = Grid::new_fill(8, 8, 0);
    sobel(&img, &mut gx, &mut gy);
    assert_eq!(gx.data.len(), 64);
    // at the step column the x gradient is (100+200+100) - 0 = 400
    assert_eq!(gx.data[4 * 8 + 3], 400);
    assert_eq!(gy.data[4 * 8 + 3], 0);
    // far from the step everything is flat
    assert_eq!(gx.data[4 * 8 + 6], 0);
    // borders are zeroed
    assert_eq!(gx.data[0], 0);
}

#[test]
fn nms_never_increases_magnitude() {
    let mut mag: Grid<u32> = Grid::new_fill(7, 7, 0);
    let orient: Grid<(i8, i8)> = Grid::new_fill(7, 7, (1, 0));
    let vals = [3u32, 9, 1, 7, 7, 2, 5];
    for y in 0..7usize {
        for x in 0..7usize {
            mag.put(y, x, vals[(y * 7 + x) % 7] + (y as u32));
        }
    }
    let mut supp: Grid<u32> = Grid::new_fill(7, 7, 0);
    nms(&mag, &orient, &mut supp);
    assert_eq!(supp.data.len(), 49);
    for k in 0..49usize {
        assert!(supp.data[k] <= mag.data[k]);
    }
}

#[test]
fn nms_keeps_ridge_and_suppresses_neighbors() {
    let mut mag: Grid<u32> = Grid::new_fill(5, 5, 0);
    // a vertical ridge at x = 2, gradient pointing horizontally
    for y in 0..5usize {
        mag.put(y, 1, 3);
        mag.put(y, 2, 9);
        mag.put(y, 3, 3);
    }
    let orient: Grid<(i8, i8)> = Grid::new_fill(5, 5, (1, 0));
    let mut supp: Grid<u32> = Grid::new_fill(5, 5, 0);
    nms(&mag, &orient, &mut supp);
    assert_eq!(supp.data[2 * 5 + 2], 9);
    assert_eq!(supp.data[2 * 5 + 1], 0);
    assert_eq!(supp.data[2 * 5 + 3], 0);
    // border row is always suppressed
    assert_eq!(supp.data[2], 0);
}

#[test]
fn hysteresis_promotes_weak_chain_to_strong_seed() {
    // one strong pixel with a weak chain attached, one isolated weak pixel
    let mut supp: Grid<u32> = Grid::new_fill(6, 8, 0);
    supp.put(2, 2, 100);
    supp.put(2, 3, 10);
    supp.put(3, 4, 10);
    supp.put(4, 6, 10);
    let mut strong: Grid<bool> = Grid::new_fill(6, 8, false);
    let mut weak: Grid<bool> = Grid::new_fill(6, 8, false);
    let mut edges: Grid<bool> = Grid::new_fill(6, 8, false);
    // low 0.05, high 0.5 of the maximum 100: strong above 50, weak above 5
    hysteresis(&supp, 500, 5000, &mut strong, &mut weak, &mut edges);
    assert!(edges.data[2 * 8 + 2]);
    assert!(edges.data[2 * 8 + 3]);
    assert!(edges.data[3 * 8 + 4]);
    assert!(!edges.data[4 * 8 + 6]);
    assert_eq!(edges.data.len(), 48);
}

#[test]
fn hysteresis_is_idempotent_on_its_own_output() {
    let mut supp: Grid<u32> = Grid::new_fill(6, 8, 0);
    supp.put(2, 2, 100);
    supp.put(2, 3, 10);
    supp.put(3, 4, 10);
    supp.put(4, 6, 10);
    supp.put(1, 6, 55);
    let mut strong: Grid<bool> = Grid::new_fill(6, 8, false);
    let mut weak: Grid<bool> = Grid::new_fill(6, 8, false);
    let mut edges: Grid<bool> = Grid::new_fill(6, 8, false);
    hysteresis(&supp, 125, 500, &mut strong, &mut weak, &mut edges);
    // re-encode the mask as a 0/1 magnitude grid and threshold again
    let mut again: Grid<u32> = Grid::new_fill(6, 8, 0);
    for y in 0..6usize {
        for x in 0..8usize {
            if edges.data[y * 8 + x] {
                again.put(y, x, 1);
            }
        }
    }
    let mut strong2: Grid<bool> = Grid::new_fill(6, 8, false);
    let mut weak2: Grid<bool> = Grid::new_fill(6, 8, false);
    let mut edges2: Grid<bool> = Grid::new_fill(6, 8, false);
    hysteresis(&again, 125, 500, &mut strong2, &mut weak2, &mut edges2);
    assert_eq!(edges.data, edges2.data);
}

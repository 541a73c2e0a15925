//! End-to-end scenarios: a blank frame yields nothing, and a synthetic
//! tag is found, decoded, and survives a quarter-turn of the frame.

use dauntless::grid::Grid;
use dauntless::types::Tag;
use dauntless::config::Config;
use dauntless::detector::Detector;
use dauntless::process::process;
use dauntless::mask::{canny, harris};
use dauntless::decode::code_of;
use dauntless::types::Filter;
use dauntless::{tags, tags_custom};

fn image(h: usize, w: usize, v: u8) -> Grid<u8> {
    Grid::new_fill(h, w, v)
}

fn render_tag(img: &mut Grid<u8>, y0: usize, x0: usize, size: usize, code: u64) {
    for dy in 0..size {
        for dx in 0..size {
            let row = dy * 8 / size;
            let col = dx * 8 / size;
            let v = if row == 0 || row == 7 || col == 0 || col == 7 {
                0
            } else {
                let k = (row - 1) * 6 + (col - 1);
                if (code >> (35 - k)) & 1 == 1 {
                    255
                } else {
                    0
                }
            };
            img.put(y0 + dy, x0 + dx, v);
        }
    }
}

fn rotate_quarter(img: &Grid<u8>) -> Grid<u8> {
    // the pixel at row y, column x moves to row x, column h-1-y
    let h = img.h;
    let w = img.w;
    let mut out = image(w, h, 0);
    for y in 0..h {
        for x in 0..w {
            out.put(x, h - 1 - y, img.get(y, x));
        }
    }
    out
}

fn close_to(p: (u32, u32), q: (u32, u32), tol: i64) -> bool {
    (p.0 as i64 - q.0 as i64).abs() <= tol && (p.1 as i64 - q.1 as i64).abs() <= tol
}

#[test]
fn blank_frame_yields_no_edges_corners_or_tags() {
    for v in [0u8, 128, 255] {
        let img = image(60, 80, v);
        let res = tags(&img);
        assert_eq!(res.len(), 0);
        let cfg = Config::default();
        let mut det = Detector::new(cfg);
        det.ensure(60, 80);
        canny(&img, &cfg, &mut det.cws);
        harris(&img, &cfg, &mut det.hws);
        assert_eq!(det.cws.edges.data.len(), 60 * 80);
        assert_eq!(det.hws.corners.data.len(), 60 * 80);
        assert!(det.cws.edges.data.iter().all(|&e| !e));
        assert!(det.hws.corners.data.iter().all(|&c| !c));
    }
}

#[test]
fn synthetic_tag_is_found_and_decoded() {
    let mut img = image(200, 200, 255);
    render_tag(&mut img, 70, 70, 60, code_of(0));
    let res: Vec<Tag> = tags(&img);
    for t in &res {
        println!("tag id {:?} corners {:?}", t.id, t.corners);
    }
    assert_eq!(res.len(), 1);
    let t = res[0];
    assert_eq!(t.id, Some(0));
    let (tl, tr, bl, br) = t.corners;
    assert!(close_to(tl, (70, 70), 2), "top-left at {:?}", tl);
    assert!(close_to(tr, (129, 70), 2), "top-right at {:?}", tr);
    assert!(close_to(bl, (70, 129), 2), "bottom-left at {:?}", bl);
    assert!(close_to(br, (129, 129), 2), "bottom-right at {:?}", br);
}

#[test]
fn synthetic_tag_survives_quarter_turn() {
    let mut img = image(200, 200, 255);
    render_tag(&mut img, 70, 70, 60, code_of(3));
    let res = tags(&img);
    for t in &res {
        println!("tag id {:?} corners {:?}", t.id, t.corners);
    }
    assert_eq!(res.len(), 1);
    assert_eq!(res[0].id, Some(3));

    let turned = rotate_quarter(&img);
    let res2 = tags(&turned);
    for t in &res2 {
        println!("turned tag id {:?} corners {:?}", t.id, t.corners);
    }
    assert_eq!(res2.len(), 1);
    assert_eq!(res2[0].id, Some(3));
    // the quad follows the rotation: the old top-left lands near the
    // new top-right corner region
    let (tl, _, _, br) = res2[0].corners;
    assert!(close_to(tl, (70, 70), 2), "turned top-left at {:?}", tl);
    assert!(close_to(br, (129, 129), 2), "turned bottom-right at {:?}", br);
}

#[test]
fn detector_workspaces_match_frame_size() {
    let mut img = image(40, 30, 255);
    render_tag(&mut img, 5, 5, 24, code_of(1));
    let mut det = Detector::default();
    let _ = process(&img, &mut det);
    // every stage buffer holds exactly one element per pixel
    assert_eq!(det.cws.bh.data.len(), 40 * 30);
    assert_eq!(det.cws.blur.data.len(), 40 * 30);
    assert_eq!(det.cws.gx.data.len(), 40 * 30);
    assert_eq!(det.cws.mag.data.len(), 40 * 30);
    assert_eq!(det.cws.supp.data.len(), 40 * 30);
    assert_eq!(det.cws.edges.data.len(), 40 * 30);
    assert_eq!(det.hws.gx.data.len(), 40 * 30);
    assert_eq!(det.hws.sxx.data.len(), 40 * 30);
    assert_eq!(det.hws.resp.data.len(), 40 * 30);
    assert_eq!(det.hws.corners.data.len(), 40 * 30);
    // resizing to a new frame reallocates
    let img2 = image(25, 35, 0);
    let _ = process(&img2, &mut det);
    assert_eq!(det.cws.edges.data.len(), 25 * 35);
    assert_eq!(det.hws.corners.data.len(), 25 * 35);
}

#[test]
fn decode_degenerate_quad_misses() {
    let img = image(50, 50, 200);
    // three coincident corners make the perspective system singular
    let q = ((0u32, 0u32), (10, 10), (10, 10), (10, 10));
    assert_eq!(dauntless::decode::decode(&img, q), None);
    // a uniform patch has no bit contrast either
    let flat = ((5u32, 5u32), (40, 5), (5, 40), (40, 40));
    assert_eq!(dauntless::decode::decode(&img, flat), None);
}

#[test]
fn enclosure_toggle_admits_inner_pattern_quads() {
    let mut img = image(200, 200, 255);
    render_tag(&mut img, 70, 70, 60, code_of(0));
    let all_on = tags_custom(&img, Filter { ratios: true, angles: true, enclosed: true });
    assert_eq!(all_on.len(), 1);
    let no_enclosure = tags_custom(&img, Filter { ratios: true, angles: true, enclosed: false });
    // the bit pattern inside the tag now also surfaces as candidates
    assert!(no_enclosure.len() >= all_on.len());
    assert!(no_enclosure.iter().any(|t| t.id == Some(0)));
}

#[test]
fn default_configuration_is_documented() {
    let c = Config::default();
    assert_eq!(c.harris_k_pm, 100);
    assert_eq!(c.harris_thresh_pm, 500);
    assert_eq!(c.hyst_low_pm, 125);
    assert_eq!(c.hyst_high_pm, 500);
    assert!(c.filter_ratios && c.filter_angles && c.filter_enclosed);
    let f = Filter::default();
    assert!(f.ratios && f.angles && f.enclosed);
}


fn render_tag_homography(
    img: &mut Grid<u8>,
    quad: ((f64, f64), (f64, f64), (f64, f64), (f64, f64)),
    code: u64,
) {
    // forward-map a dense grid of unit-square samples through the
    // perspective transform onto the image
    let ((x0, y0), (x1, y1), (x3, y3), (x2, y2)) = quad; // tl, tr, bl, br
    let sx = x0 - x1 + x2 - x3;
    let sy = y0 - y1 + y2 - y3;
    let dx1 = x1 - x2;
    let dx2 = x3 - x2;
    let dy1 = y1 - y2;
    let dy2 = y3 - y2;
    let den = dx1 * dy2 - dx2 * dy1;
    let g = (sx * dy2 - sy * dx2) / den;
    let hh = (dx1 * sy - dy1 * sx) / den;
    let a = x1 - x0 + g * x1;
    let b = x3 - x0 + hh * x3;
    let c = x0;
    let d = y1 - y0 + g * y1;
    let e = y3 - y0 + hh * y3;
    let f = y0;
    let steps = 900usize;
    for iu in 0..steps {
        for iv in 0..steps {
            let u = (iu as f64 + 0.5) / steps as f64;
            let v = (iv as f64 + 0.5) / steps as f64;
            let w = g * u + hh * v + 1.0;
            let px = ((a * u + b * v + c) / w).round() as usize;
            let py = ((d * u + e * v + f) / w).round() as usize;
            let row = ((v * 8.0) as usize).min(7);
            let col = ((u * 8.0) as usize).min(7);
            let val = if row == 0 || row == 7 || col == 0 || col == 7 {
                0
            } else {
                let k = (row - 1) * 6 + (col - 1);
                if (code >> (35 - k)) & 1 == 1 {
                    255
                } else {
                    0
                }
            };
            if py < img.h && px < img.w {
                img.put(py, px, val);
            }
        }
    }
}

#[test]
fn decode_reads_perspective_quads() {
    // a convex quad that is not a parallelogram: the perspective
    // branch of the homography, not the affine one
    let mut img = image(200, 200, 255);
    let quad = ((60.0, 60.0), (141.0, 66.0), (57.0, 139.0), (132.0, 126.0));
    render_tag_homography(&mut img, quad, code_of(5));
    let corners = ((60u32, 60u32), (141, 66), (57, 139), (132, 126));
    assert_eq!(dauntless::decode::decode(&img, corners), Some(5));
}

#[test]
fn decode_tolerates_non_parallelogram_corner_jitter() {
    // an axis-aligned tag read through a slightly perturbed quad:
    // still decodes, through the perspective branch
    let mut img = image(200, 200, 255);
    render_tag(&mut img, 70, 70, 60, code_of(2));
    let jittered = ((70u32, 70u32), (129, 71), (70, 129), (128, 128));
    assert_eq!(dauntless::decode::decode(&img, jittered), Some(2));
}

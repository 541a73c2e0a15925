//! Shape reduction, the geometric filters, and the union-find arena.

use dauntless::shapes::filter_quads;
use dauntless::filters::bounds;
use dauntless::detector::Detector;
use dauntless::config::Config;
use dauntless::uf::UnionFind;

fn detector() -> Detector {
    Detector::new(Config::default())
}

#[test]
fn filter_quads_picks_extreme_corners() {
    let pts = vec![(5u32, 5u32), (20, 6), (6, 21), (21, 20), (12, 13)];
    let quads = filter_quads(vec![pts]);
    assert_eq!(quads.len(), 1);
    let (tl, tr, bl, br) = quads[0];
    assert_eq!(tl, (5, 5));
    assert_eq!(tr, (20, 6));
    assert_eq!(bl, (6, 21));
    assert_eq!(br, (21, 20));
}

#[test]
fn filter_quads_drops_small_and_degenerate_shapes() {
    let too_small = vec![(1u32, 1u32), (9, 1), (1, 9)];
    let collinear = vec![(0u32, 0u32), (1, 1), (2, 2), (3, 3)];
    let quads = filter_quads(vec![too_small, collinear]);
    // the collinear shape has top-left equal to its own extreme picks
    assert_eq!(quads.len(), 0);
}

#[test]
fn ratio_filter_keeps_square_and_drops_sliver() {
    let d = detector();
    let square = ((10u32, 10u32), (30, 10), (10, 30), (30, 30));
    let sliver = ((10u32, 10u32), (60, 10), (10, 14), (60, 14));
    let kept = d.filter_ratios(vec![square, sliver]);
    assert_eq!(kept, vec![square]);
}

#[test]
fn angle_filter_keeps_square_and_drops_sheared_quad() {
    let d = detector();
    let square = ((10u32, 10u32), (30, 10), (10, 30), (30, 30));
    // strongly sheared: corners far from right angles
    let sheared = ((10u32, 10u32), (30, 10), (28, 30), (48, 30));
    let kept = d.filter_angles(vec![square, sheared]);
    assert_eq!(kept, vec![square]);
}

#[test]
fn enclosure_filter_keeps_only_outer_of_nested_quads() {
    let d = detector();
    let outer = ((5u32, 5u32), (50, 5), (5, 50), (50, 50));
    let inner = ((15u32, 15u32), (35, 15), (15, 35), (35, 35));
    let kept = d.filter_enclosed(vec![outer, inner]);
    assert_eq!(kept, vec![outer]);
    // order does not matter
    let kept2 = d.filter_enclosed(vec![inner, outer]);
    assert_eq!(kept2, vec![outer]);
}

#[test]
fn enclosure_filter_keeps_overlapping_quads() {
    let d = detector();
    let a = ((5u32, 5u32), (30, 5), (5, 30), (30, 30));
    let b = ((20u32, 20u32), (45, 20), (20, 45), (45, 45));
    let kept = d.filter_enclosed(vec![a, b]);
    assert_eq!(kept, vec![a, b]);
}

#[test]
fn bounds_spans_the_extreme_coordinates() {
    let q = ((7u32, 9u32), (41, 11), (6, 44), (40, 46));
    let b = bounds(&q);
    assert_eq!(b.l, 6);
    assert_eq!(b.r, 41);
    assert_eq!(b.t, 9);
    assert_eq!(b.b, 46);
}

#[test]
fn union_find_merges_classes() {
    let mut uf = UnionFind::new();
    let mut x = 1u32;
    while x <= 6 {
        uf.push(x);
        x += 1;
    }
    uf.unite(1, 2);
    uf.unite(3, 4);
    assert_eq!(uf.find(1), uf.find(2));
    assert_eq!(uf.find(3), uf.find(4));
    assert_ne!(uf.find(1), uf.find(3));
    assert_ne!(uf.find(5), uf.find(6));
    uf.unite(2, 3);
    assert_eq!(uf.find(1), uf.find(4));
    assert_ne!(uf.find(1), uf.find(5));
    // uniting within one class changes nothing
    let r = uf.find(1);
    uf.unite(1, 4);
    assert_eq!(uf.find(4), r);
}

#[test]
fn ratio_filter_rejects_average_ratio_just_over_threshold() {
    // sides sqrt(45), sqrt(45), sqrt(18), sqrt(18): the 1.3 side tests
    // pass, but the average-ratio is sqrt(45/18) = 1.581 > 1.5
    let d = detector();
    let boundary = ((0u32, 3u32), (6, 6), (3, 6), (9, 9));
    let kept = d.filter_ratios(vec![boundary]);
    assert_eq!(kept.len(), 0);
}

#[test]
fn ratio_filter_keeps_average_ratio_exactly_at_threshold() {
    // sides 3, 3, 2, 2: the average ratio is exactly 1.5
    let d = detector();
    let exact = ((0u32, 0u32), (3, 0), (0, 2), (3, 2));
    let kept = d.filter_ratios(vec![exact]);
    assert_eq!(kept, vec![exact]);
}

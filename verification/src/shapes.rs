//! Shape extraction: connected-component labeling of edge pixels that
//! harvests nearby corner points, and reduction of each shape to a
//! quad candidate.
//!
//! `find_shapes` performs a single forward raster pass with a margin
//! of 2: each edge pixel adopts a label already present in its 5 by 5
//! neighborhood (recording unions where several are present) or opens
//! a new one, and claims at most one unclaimed corner-mask pixel from
//! its 3 by 3 neighborhood.  After the pass, point lists are merged by
//! union-find root; empty lists are dropped.
//!
//! `filter_quads` reduces every shape of at least 4 points to its four
//! extreme corners and drops degenerate quads.

use vstd::prelude::*;
use crate::grid::Grid;
use crate::types::{Mask, Point, Points, Shapes, Quads, Corners};
use crate::uf::UnionFind;

verus! {

/// The point lies one pixel inside the mask's borders and is set in
/// the corner mask.
pub open spec fn shape_pt_ok(corners: Mask, p: Point) -> bool {
    &&& 1 <= p.0 < corners.w - 1
    &&& 1 <= p.1 < corners.h - 1
    &&& corners.at(p.1 as int, p.0 as int)
}

/// The point lies within one pixel of an interior edge pixel.
pub open spec fn near_edge(edges: Mask, p: Point) -> bool {
    exists|ey: int, ex: int|
        2 <= ey < edges.h - 2 && 2 <= ex < edges.w - 2 && #[trigger] edges.at(ey, ex)
            && p.0 - 1 <= ex <= p.0 + 1 && p.1 - 1 <= ey <= p.1 + 1
}

/// No point appears twice across the shape lists.
pub open spec fn shapes_distinct(res: Seq<Seq<Point>>) -> bool {
    forall|s1: int, j1: int, s2: int, j2: int|
        0 <= s1 < res.len() && 0 <= j1 < res[s1].len()
            && 0 <= s2 < res.len() && 0 <= j2 < res[s2].len()
            && (s1 != s2 || j1 != j2)
            ==> res[s1][j1] != res[s2][j2]
}

/// The views of a list of point lists.
pub open spec fn shape_views(ss: Seq<Points>) -> Seq<Seq<Point>> {
    ss.map_values(|v: Points| v@)
}

/// Some interior edge pixel has a corner-mask pixel in its 3 by 3
/// neighborhood: the raster pass is then guaranteed to claim at least
/// one point.
pub open spec fn claimable(edges: Mask, corners: Mask) -> bool {
    exists|y: int, x: int, qy: int, qx: int|
        2 <= y < edges.h - 2 && 2 <= x < edges.w - 2 && #[trigger] edges.at(y, x)
            && y - 1 <= qy <= y + 1 && x - 1 <= qx <= x + 1 && #[trigger] corners.at(qy, qx)
}

/// What shape extraction guarantees of its result: shapes are
/// nonempty; every point is a corner-mask pixel inside the borders,
/// near an edge pixel, and appears exactly once; an edge-free interior
/// yields no shapes; and a claimable frame yields at least one.
pub open spec fn find_shapes_post(edges: Mask, corners: Mask, ss: Seq<Seq<Point>>) -> bool {
    &&& forall|s: int| 0 <= s < ss.len() ==> (#[trigger] ss[s]).len() >= 1
    &&& forall|s: int, j: int|
        0 <= s < ss.len() && 0 <= j < (#[trigger] ss[s]).len()
            ==> shape_pt_ok(corners, #[trigger] ss[s][j]) && near_edge(edges, ss[s][j])
    &&& shapes_distinct(ss)
    &&& ((forall|y: int, x: int|
        2 <= y < edges.h - 2 && 2 <= x < edges.w - 2 ==> !(#[trigger] edges.at(y, x)))
        ==> ss.len() == 0)
    &&& (claimable(edges, corners) ==> ss.len() >= 1)
}

/// Group the corner points of each connected edge component.  Every
/// returned shape is nonempty; every returned point was set in the
/// corner mask, lies at least one pixel inside the borders, near an
/// edge pixel, and is returned exactly once; an edge-free interior
/// produces no shapes; and whenever some interior edge pixel has a
/// corner-mask pixel in its 3 by 3 neighborhood, at least one shape
/// comes back.  Shapes are emitted in label order of the raster scan.
pub fn find_shapes(edges: &Mask, corners: &Mask) -> (res: Shapes)
    requires
        edges.wf(),
        corners.wf(),
        corners.same_dim(*edges),
        edges.h * edges.w <= 0xFFFF_FFFF,
    ensures
        forall|s: int| 0 <= s < res@.len() ==> (#[trigger] res@[s])@.len() >= 1,
        forall|s: int, j: int|
            0 <= s < res@.len() && 0 <= j < (#[trigger] res@[s])@.len()
                ==> shape_pt_ok(*corners, #[trigger] res@[s]@[j])
                    && near_edge(*edges, res@[s]@[j]),
        shapes_distinct(shape_views(res@)),
        (forall|y: int, x: int|
            2 <= y < edges.h - 2 && 2 <= x < edges.w - 2 ==> !(#[trigger] edges.at(y, x)))
            ==> res@.len() == 0,
        claimable(*edges, *corners) ==> res@.len() >= 1,
        find_shapes_post(*edges, *corners, shape_views(res@)),
{
    let h = edges.h;
    let w = edges.w;
    let mut cs = corners.duplicate();
    let mut labels: Grid<u32> = Grid::new_fill(h, w, 0u32);
    let mut label_pts: Vec<Points> = Vec::new();
    label_pts.push(Vec::new());
    let mut next_label: u32 = 0;
    let mut uf = UnionFind::new();

    if h >= 5 && w >= 5 {
        let mut y: usize = 2;
        while y < h - 2
            invariant
                edges.wf(),
                corners.wf(),
                cs.wf(),
                labels.wf(),
                corners.same_dim(*edges),
                cs.same_dim(*edges),
                labels.same_dim(*edges),
                h == edges.h,
                w == edges.w,
                5 <= h,
                5 <= w,
                h * w <= 0xFFFF_FFFF,
                2 <= y <= h - 2,
                uf.wf(),
                uf.len() == next_label as int + 1,
                label_pts@.len() == next_label as int + 1,
                next_label as int <= y * w,
                forall|yy: int, xx: int|
                    0 <= yy < h && 0 <= xx < w
                        ==> (#[trigger] labels.at(yy, xx)) as int <= next_label as int,
                forall|yy: int, xx: int|
                    0 <= yy < h && 0 <= xx < w && yy >= y
                        ==> (#[trigger] labels.at(yy, xx)) == 0,
                forall|yy: int, xx: int|
                    0 <= yy < h && 0 <= xx < w && #[trigger] cs.at(yy, xx)
                        ==> corners.at(yy, xx),
                forall|s: int, j: int|
                    0 <= s < label_pts@.len() && 0 <= j < (#[trigger] label_pts@[s])@.len()
                        ==> shape_pt_ok(*corners, #[trigger] label_pts@[s]@[j])
                            && near_edge(*edges, label_pts@[s]@[j])
                            && !cs.at(label_pts@[s]@[j].1 as int, label_pts@[s]@[j].0 as int),
                shapes_distinct(shape_views(label_pts@)),
                forall|yy: int, xx: int|
                    0 <= yy < h && 0 <= xx < w
                        && (#[trigger] cs.at(yy, xx)) != corners.at(yy, xx)
                        ==> exists|s: int|
                            1 <= s < label_pts@.len()
                                && (#[trigger] label_pts@[s])@.len() >= 1,
                (exists|py: int, px: int, qy: int, qx: int|
                    2 <= py < h - 2 && 2 <= px < w - 2
                        && py < y && #[trigger] edges.at(py, px)
                        && py - 1 <= qy <= py + 1 && px - 1 <= qx <= px + 1
                        && #[trigger] corners.at(qy, qx))
                    ==> exists|s: int|
                        1 <= s < label_pts@.len() && (#[trigger] label_pts@[s])@.len() >= 1,
                next_label > 0 ==> exists|yy: int, xx: int|
                    2 <= yy < h - 2 && 2 <= xx < w - 2 && #[trigger] edges.at(yy, xx),
            decreases h - y,
        {
            let mut x: usize = 2;
            while x < w - 2
                invariant
                    edges.wf(),
                    corners.wf(),
                    cs.wf(),
                    labels.wf(),
                    corners.same_dim(*edges),
                    cs.same_dim(*edges),
                    labels.same_dim(*edges),
                    h == edges.h,
                    w == edges.w,
                    5 <= h,
                    5 <= w,
                    h * w <= 0xFFFF_FFFF,
                    2 <= y < h - 2,
                    2 <= x <= w - 2,
                    uf.wf(),
                    uf.len() == next_label as int + 1,
                    label_pts@.len() == next_label as int + 1,
                    next_label as int <= y * w + x,
                    forall|yy: int, xx: int|
                        0 <= yy < h && 0 <= xx < w
                            ==> (#[trigger] labels.at(yy, xx)) as int <= next_label as int,
                    forall|yy: int, xx: int|
                        0 <= yy < h && 0 <= xx < w && (yy > y || (yy == y && xx >= x))
                            ==> (#[trigger] labels.at(yy, xx)) == 0,
                    forall|yy: int, xx: int|
                        0 <= yy < h && 0 <= xx < w && #[trigger] cs.at(yy, xx)
                            ==> corners.at(yy, xx),
                    forall|s: int, j: int|
                        0 <= s < label_pts@.len() && 0 <= j < (#[trigger] label_pts@[s])@.len()
                            ==> shape_pt_ok(*corners, #[trigger] label_pts@[s]@[j])
                                && near_edge(*edges, label_pts@[s]@[j])
                                && !cs.at(label_pts@[s]@[j].1 as int, label_pts@[s]@[j].0 as int),
                    shapes_distinct(shape_views(label_pts@)),
                    forall|yy: int, xx: int|
                        0 <= yy < h && 0 <= xx < w
                            && (#[trigger] cs.at(yy, xx)) != corners.at(yy, xx)
                            ==> exists|s: int|
                                1 <= s < label_pts@.len()
                                    && (#[trigger] label_pts@[s])@.len() >= 1,
                    (exists|py: int, px: int, qy: int, qx: int|
                        2 <= py < h - 2 && 2 <= px < w - 2
                            && (py < y || (py == y && px < x)) && #[trigger] edges.at(py, px)
                            && py - 1 <= qy <= py + 1 && px - 1 <= qx <= px + 1
                            && #[trigger] corners.at(qy, qx))
                        ==> exists|s: int|
                            1 <= s < label_pts@.len() && (#[trigger] label_pts@[s])@.len() >= 1,
                    next_label > 0 ==> exists|yy: int, xx: int|
                        2 <= yy < h - 2 && 2 <= xx < w - 2 && #[trigger] edges.at(yy, xx),
                decreases w - 2 - x,
            {
                let ghost lps = label_pts@;
                if edges.get(y, x) {
                    // adopt or open a label, recording unions
                    let mut id_opt: Option<u32> = None;
                    let mut ly: usize = 0;
                    while ly < 3
                        invariant
                            labels.wf(),
                            labels.h == h,
                            labels.w == w,
                            2 <= y < h - 2,
                            2 <= x < w - 2,
                            ly <= 3,
                            uf.wf(),
                            uf.len() == next_label as int + 1,
                            forall|yy: int, xx: int|
                                0 <= yy < h && 0 <= xx < w
                                    ==> (#[trigger] labels.at(yy, xx)) as int <= next_label as int,
                            match id_opt {
                                Some(v) => 1 <= v as int <= next_label as int,
                                None => true,
                            },
                        decreases 3 - ly,
                    {
                        let yy = y - 2 + ly;
                        let mut lx: usize = 0;
                        while lx < 5
                            invariant
                                labels.wf(),
                                labels.h == h,
                                labels.w == w,
                                2 <= y < h - 2,
                                2 <= x < w - 2,
                                ly < 3,
                                yy == y - 2 + ly,
                                lx <= 5,
                                uf.wf(),
                                uf.len() == next_label as int + 1,
                                forall|ay: int, ax: int|
                                    0 <= ay < h && 0 <= ax < w
                                        ==> (#[trigger] labels.at(ay, ax)) as int
                                            <= next_label as int,
                                match id_opt {
                                    Some(v) => 1 <= v as int <= next_label as int,
                                    None => true,
                                },
                            decreases 5 - lx,
                        {
                            let xx = x - 2 + lx;
                            let nid = labels.get(yy, xx);
                            if nid != 0 {
                                match id_opt {
                                    Some(id0) => {
                                        uf.unite(id0, nid);
                                    },
                                    None => {
                                        id_opt = Some(nid);
                                    },
                                }
                            }
                            lx = lx + 1;
                        }
                        ly = ly + 1;
                    }
                    let id: u32 = match id_opt {
                        Some(v) => v,
                        None => {
                            proof {
                                crate::grid::lemma_row_major(y as int, x as int, h as int, w as int);
                            }
                            next_label = next_label + 1;
                            uf.push(next_label);
                            let ghost lpb = label_pts@;
                            label_pts.push(Vec::new());
                            proof {
                                assert forall|s1: int, j1: int, s2: int, j2: int|
                                    0 <= s1 < shape_views(label_pts@).len()
                                        && 0 <= j1 < shape_views(label_pts@)[s1].len()
                                        && 0 <= s2 < shape_views(label_pts@).len()
                                        && 0 <= j2 < shape_views(label_pts@)[s2].len()
                                        && (s1 != s2 || j1 != j2)
                                    implies shape_views(label_pts@)[s1][j1]
                                        != shape_views(label_pts@)[s2][j2] by {
                                    let v = shape_views(label_pts@);
                                    let o = shape_views(lpb);
                                    assert(shapes_distinct(o));
                                    assert(s1 < lpb.len() && s2 < lpb.len());
                                    assert(v[s1][j1] == o[s1][j1]);
                                    assert(v[s2][j2] == o[s2][j2]);
                                    assert(o[s1][j1] != o[s2][j2]);
                                }
                                assert(shapes_distinct(shape_views(label_pts@)));
                            }
                            next_label
                        },
                    };
                    labels.put(y, x, id);

                    // claim the first unclaimed corner point nearby
                    let mut found: Option<(usize, usize)> = None;
                    let mut cy: usize = y - 1;
                    while cy <= y + 1
                        invariant
                            cs.wf(),
                            cs.h == h,
                            cs.w == w,
                            2 <= y < h - 2,
                            2 <= x < w - 2,
                            y - 1 <= cy <= y + 2,
                            match found {
                                Some(q) => {
                                    &&& y - 1 <= q.0 <= y + 1
                                    &&& x - 1 <= q.1 <= x + 1
                                    &&& cs.at(q.0 as int, q.1 as int)
                                },
                                None => true,
                            },
                            found is None ==> forall|ay: int, ax: int|
                                y - 1 <= ay < cy && x - 1 <= ax <= x + 1
                                    ==> !(#[trigger] cs.at(ay, ax)),
                        decreases y + 2 - cy,
                    {
                        let mut cx: usize = x - 1;
                        while cx <= x + 1
                            invariant
                                cs.wf(),
                                cs.h == h,
                                cs.w == w,
                                2 <= y < h - 2,
                                2 <= x < w - 2,
                                y - 1 <= cy <= y + 1,
                                x - 1 <= cx <= x + 2,
                                match found {
                                    Some(q) => {
                                        &&& y - 1 <= q.0 <= y + 1
                                        &&& x - 1 <= q.1 <= x + 1
                                        &&& cs.at(q.0 as int, q.1 as int)
                                    },
                                    None => true,
                                },
                                found is None ==> forall|ay: int, ax: int|
                                    y - 1 <= ay < cy && x - 1 <= ax <= x + 1
                                        ==> !(#[trigger] cs.at(ay, ax)),
                                found is None ==> forall|ax: int|
                                    x - 1 <= ax < cx ==> !(#[trigger] cs.at(cy as int, ax)),
                            decreases x + 2 - cx,
                        {
                            if found.is_none() && cs.get(cy, cx) {
                                found = Some((cy, cx));
                            }
                            cx = cx + 1;
                        }
                        cy = cy + 1;
                    }
                    if let Some((py, px)) = found {
                        let idu = id as usize;
                        let ghost lp0 = label_pts@;
                        let pt: Point = (px as u32, py as u32);
                        let row = &mut label_pts[idu];
                        row.push(pt);
                        proof {
                            assert(py < 4294967296 && px < 4294967296) by (nonlinear_arith)
                                requires
                                    py < h,
                                    px < w,
                                    h * w <= 0xFFFF_FFFF,
                                    h >= 5,
                                    w >= 5,
                            ;
                            assert(label_pts@ =~= lp0.update(idu as int,
                                label_pts@[idu as int]));
                            assert(label_pts@[idu as int]@
                                =~= lp0[idu as int]@.push(pt));
                            assert(near_edge(*edges, pt)) by {
                                assert(edges.at(y as int, x as int));
                            }
                            assert forall|s1: int, j1: int, s2: int, j2: int|
                                0 <= s1 < shape_views(label_pts@).len()
                                    && 0 <= j1 < shape_views(label_pts@)[s1].len()
                                    && 0 <= s2 < shape_views(label_pts@).len()
                                    && 0 <= j2 < shape_views(label_pts@)[s2].len()
                                    && (s1 != s2 || j1 != j2)
                                implies shape_views(label_pts@)[s1][j1]
                                    != shape_views(label_pts@)[s2][j2] by {
                                let v = shape_views(label_pts@);
                                let o = shape_views(lp0);
                                let new_pt = (px as u32, py as u32);
                                if s1 == idu as int && j1 == v[s1].len() - 1 {
                                    if !(s2 == idu as int && j2 == v[s2].len() - 1) {
                                        assert(v[s1][j1] == new_pt);
                                        assert(v[s2][j2] == o[s2][j2]);
                                        assert(o[s2][j2] == lp0[s2]@[j2]);
                                        assert(!cs.at(lp0[s2]@[j2].1 as int,
                                            lp0[s2]@[j2].0 as int));
                                        assert(cs.at(new_pt.1 as int, new_pt.0 as int));
                                    }
                                } else if s2 == idu as int && j2 == v[s2].len() - 1 {
                                    assert(v[s2][j2] == new_pt);
                                    assert(v[s1][j1] == o[s1][j1]);
                                    assert(o[s1][j1] == lp0[s1]@[j1]);
                                    assert(!cs.at(lp0[s1]@[j1].1 as int,
                                        lp0[s1]@[j1].0 as int));
                                    assert(cs.at(new_pt.1 as int, new_pt.0 as int));
                                } else {
                                    assert(shapes_distinct(o));
                                    assert(v[s1][j1] == o[s1][j1]);
                                    assert(v[s2][j2] == o[s2][j2]);
                                    assert(o[s1][j1] != o[s2][j2]);
                                }
                            }
                        }
                        cs.put(py, px, false);
                    }
                    proof {
                        assert(label_pts@.len() >= lps.len());
                        assert forall|s0: int| 0 <= s0 < lps.len()
                            implies (#[trigger] label_pts@[s0])@.len() >= lps[s0]@.len() by {
                            if s0 == id as int {
                            }
                        }
                        match found {
                            Some(_) => {
                                assert(label_pts@[id as int]@.len() >= 1);
                                assert(exists|s: int|
                                    1 <= s < label_pts@.len()
                                        && (#[trigger] label_pts@[s])@.len() >= 1);
                            },
                            None => {
                                assert forall|yy: int, xx: int|
                                    0 <= yy < h && 0 <= xx < w
                                        && (#[trigger] cs.at(yy, xx)) != corners.at(yy, xx)
                                    implies exists|s: int|
                                        1 <= s < label_pts@.len()
                                            && (#[trigger] label_pts@[s])@.len() >= 1 by {
                                    assert(exists|s: int|
                                        1 <= s < lps.len() && (#[trigger] lps[s])@.len() >= 1);
                                    let s0 = choose|s: int|
                                        1 <= s < lps.len() && (#[trigger] lps[s])@.len() >= 1;
                                    assert(label_pts@[s0]@.len() >= 1);
                                }
                            },
                        }
                        if exists|py: int, px: int, qy: int, qx: int|
                            2 <= py < h - 2 && 2 <= px < w - 2
                                && (py < y || (py == y && px < x + 1)) && #[trigger] edges.at(py, px)
                                && py - 1 <= qy <= py + 1 && px - 1 <= qx <= px + 1
                                && #[trigger] corners.at(qy, qx) {
                            let (py, px, qy, qx) = choose|py: int, px: int, qy: int, qx: int|
                                2 <= py < h - 2 && 2 <= px < w - 2
                                && (py < y || (py == y && px < x + 1)) && #[trigger] edges.at(py, px)
                                && py - 1 <= qy <= py + 1 && px - 1 <= qx <= px + 1
                                && #[trigger] corners.at(qy, qx);
                            if py == y && px == x {
                                match found {
                                    Some(_) => {
                                        assert(label_pts@[id as int]@.len() >= 1);
                                    },
                                    None => {
                                        assert(!cs.at(qy, qx));
                                        assert(cs.at(qy, qx) != corners.at(qy, qx));
                                        assert(exists|s: int|
                                            1 <= s < lps.len()
                                                && (#[trigger] lps[s])@.len() >= 1);
                                        let s0 = choose|s: int|
                                            1 <= s < lps.len() && (#[trigger] lps[s])@.len() >= 1;
                                        assert(label_pts@[s0]@.len() >= 1);
                                    },
                                }
                            } else {
                                assert(py < y || (py == y && px < x));
                                assert(exists|s: int|
                                    1 <= s < lps.len() && (#[trigger] lps[s])@.len() >= 1);
                                let s0 = choose|s: int|
                                    1 <= s < lps.len() && (#[trigger] lps[s])@.len() >= 1;
                                assert(label_pts@[s0]@.len() >= 1);
                            }
                            assert(exists|s: int|
                                1 <= s < label_pts@.len()
                                    && (#[trigger] label_pts@[s])@.len() >= 1);
                        }
                    }
                } else {
                    proof {
                        if exists|py: int, px: int, qy: int, qx: int|
                            2 <= py < h - 2 && 2 <= px < w - 2
                                && (py < y || (py == y && px < x + 1)) && #[trigger] edges.at(py, px)
                                && py - 1 <= qy <= py + 1 && px - 1 <= qx <= px + 1
                                && #[trigger] corners.at(qy, qx) {
                            let (py, px, qy, qx) = choose|py: int, px: int, qy: int, qx: int|
                                2 <= py < h - 2 && 2 <= px < w - 2
                                && (py < y || (py == y && px < x + 1)) && #[trigger] edges.at(py, px)
                                && py - 1 <= qy <= py + 1 && px - 1 <= qx <= px + 1
                                && #[trigger] corners.at(qy, qx);
                            if py == y && px == x {
                                assert(false);
                            } else {
                                assert(py < y || (py == y && px < x));
                            }
                            assert(exists|s: int|
                                1 <= s < lps.len() && (#[trigger] lps[s])@.len() >= 1);
                        }
                    }
                }
                x = x + 1;
            }
            proof {
                assert((y + 1) * w == y * w + w) by (nonlinear_arith);
                if exists|py: int, px: int, qy: int, qx: int|
                    2 <= py < h - 2 && 2 <= px < w - 2
                        && py < y + 1 && #[trigger] edges.at(py, px)
                        && py - 1 <= qy <= py + 1 && px - 1 <= qx <= px + 1
                        && #[trigger] corners.at(qy, qx) {
                    let (py, px, qy, qx) = choose|py: int, px: int, qy: int, qx: int|
                        2 <= py < h - 2 && 2 <= px < w - 2
                        && py < y + 1 && #[trigger] edges.at(py, px)
                        && py - 1 <= qy <= py + 1 && px - 1 <= qx <= px + 1
                        && #[trigger] corners.at(qy, qx);
                    assert(py < y || (py == y && px < x));
                    assert(exists|s: int|
                        1 <= s < label_pts@.len() && (#[trigger] label_pts@[s])@.len() >= 1);
                }
            }
            y = y + 1;
        }
        proof {
            assert(next_label as int <= (h - 2) * w);
            assert((h - 2) * w + 2 * w == h * w) by (nonlinear_arith);
        }
    }

    proof {
        assert(next_label as int + 2 <= 0xFFFF_FFFF);
    }
    // merge the point lists by union-find root
    let mut merged: Vec<Points> = Vec::new();
    let total: usize = (next_label as usize) + 1;
    while merged.len() < total
        invariant
            merged@.len() <= total,
            forall|s: int| 0 <= s < merged@.len() ==> (#[trigger] merged@[s])@.len() == 0,
        decreases total - merged.len(),
    {
        merged.push(Vec::new());
    }
    let mut id: u32 = 1;
    while id <= next_label
        invariant
            corners.wf(),
            edges.wf(),
            uf.wf(),
            uf.len() == next_label as int + 1,
            label_pts@.len() == next_label as int + 1,
            merged@.len() == next_label as int + 1,
            next_label as int + 2 <= 0xFFFF_FFFF,
            1 <= id as int <= next_label as int + 1,
            forall|s: int, j: int|
                0 <= s < label_pts@.len() && 0 <= j < (#[trigger] label_pts@[s])@.len()
                    ==> shape_pt_ok(*corners, #[trigger] label_pts@[s]@[j])
                        && near_edge(*edges, label_pts@[s]@[j]),
            shapes_distinct(shape_views(label_pts@)),
            forall|s: int, j: int|
                0 <= s < merged@.len() && 0 <= j < (#[trigger] merged@[s])@.len()
                    ==> shape_pt_ok(*corners, #[trigger] merged@[s]@[j])
                        && near_edge(*edges, merged@[s]@[j]),
            shapes_distinct(shape_views(merged@)),
            forall|s: int, j: int, s2: int, j2: int|
                #![trigger merged@[s]@[j], label_pts@[s2]@[j2]]
                0 <= s < merged@.len() && 0 <= j < merged@[s]@.len()
                    && id as int <= s2 < label_pts@.len()
                    && 0 <= j2 < label_pts@[s2]@.len()
                    ==> merged@[s]@[j] != label_pts@[s2]@[j2],
            next_label == 0 ==> forall|s: int|
                0 <= s < merged@.len() ==> (#[trigger] merged@[s])@.len() == 0,
            (exists|s: int| 1 <= s < id as int && (#[trigger] label_pts@[s])@.len() >= 1)
                ==> exists|t: int|
                    0 <= t < merged@.len() && (#[trigger] merged@[t])@.len() >= 1,
        decreases next_label as int + 1 - id as int,
    {
        let r = uf.find(id);
        let ru = r as usize;
        let idu = id as usize;
        let n = label_pts[idu].len();
        let mut k: usize = 0;
        while k < n
            invariant
                corners.wf(),
                edges.wf(),
                label_pts@.len() == next_label as int + 1,
                merged@.len() == next_label as int + 1,
                1 <= id as int <= next_label as int,
                idu == id as usize,
                ru < merged@.len(),
                n == (label_pts@[idu as int])@.len(),
                k <= n,
                merged@[ru as int]@.len() >= k,
                (exists|s: int| 1 <= s < id as int && (#[trigger] label_pts@[s])@.len() >= 1)
                    ==> exists|t: int|
                        0 <= t < merged@.len() && (#[trigger] merged@[t])@.len() >= 1,
                forall|s: int, j: int|
                    0 <= s < label_pts@.len() && 0 <= j < (#[trigger] label_pts@[s])@.len()
                        ==> shape_pt_ok(*corners, #[trigger] label_pts@[s]@[j])
                        && near_edge(*edges, label_pts@[s]@[j]),
                shapes_distinct(shape_views(label_pts@)),
                forall|s: int, j: int|
                    0 <= s < merged@.len() && 0 <= j < (#[trigger] merged@[s])@.len()
                        ==> shape_pt_ok(*corners, #[trigger] merged@[s]@[j])
                        && near_edge(*edges, merged@[s]@[j]),
                shapes_distinct(shape_views(merged@)),
                forall|s: int, j: int, s2: int, j2: int|
                    #![trigger merged@[s]@[j], label_pts@[s2]@[j2]]
                    0 <= s < merged@.len() && 0 <= j < merged@[s]@.len()
                        && (id as int) < s2 < label_pts@.len()
                        && 0 <= j2 < label_pts@[s2]@.len()
                        ==> merged@[s]@[j] != label_pts@[s2]@[j2],
                forall|s: int, j: int, j2: int|
                    #![trigger merged@[s]@[j], label_pts@[id as int]@[j2]]
                    0 <= s < merged@.len() && 0 <= j < merged@[s]@.len()
                        && k <= j2 < label_pts@[id as int]@.len()
                        ==> merged@[s]@[j] != label_pts@[id as int]@[j2],
            decreases n - k,
        {
            let pt: Point = label_pts[idu][k];
            let ghost m0 = merged@;
            let row = &mut merged[ru];
            row.push(pt);
            proof {
                assert(merged@ =~= m0.update(ru as int, merged@[ru as int]));
                assert(merged@[ru as int]@ =~= m0[ru as int]@.push(pt));
                assert(merged@[ru as int]@.len() >= 1);
                assert(exists|t: int|
                    0 <= t < merged@.len() && (#[trigger] merged@[t])@.len() >= 1);
                assert forall|s1: int, j1: int, s2: int, j2: int|
                    0 <= s1 < shape_views(merged@).len()
                        && 0 <= j1 < shape_views(merged@)[s1].len()
                        && 0 <= s2 < shape_views(merged@).len()
                        && 0 <= j2 < shape_views(merged@)[s2].len()
                        && (s1 != s2 || j1 != j2)
                    implies shape_views(merged@)[s1][j1]
                        != shape_views(merged@)[s2][j2] by {
                    let v = shape_views(merged@);
                    let o = shape_views(m0);
                    if s1 == ru as int && j1 == v[s1].len() - 1 {
                        if !(s2 == ru as int && j2 == v[s2].len() - 1) {
                            assert(v[s2][j2] == o[s2][j2]);
                            assert(o[s2][j2] != label_pts@[id as int]@[k as int]);
                        }
                    } else if s2 == ru as int && j2 == v[s2].len() - 1 {
                        assert(v[s1][j1] == o[s1][j1]);
                        assert(o[s1][j1] != label_pts@[id as int]@[k as int]);
                    } else {
                        assert(v[s1][j1] == o[s1][j1]);
                        assert(v[s2][j2] == o[s2][j2]);
                    }
                }
                assert forall|s2: int, j2: int, s3: int, j3: int|
                    #![trigger merged@[s2]@[j2], label_pts@[s3]@[j3]]
                    0 <= s2 < merged@.len() && 0 <= j2 < merged@[s2]@.len()
                        && (id as int) < s3 < label_pts@.len()
                        && 0 <= j3 < label_pts@[s3]@.len()
                    implies merged@[s2]@[j2] != label_pts@[s3]@[j3] by {
                    if s2 == ru as int && j2 == merged@[s2]@.len() - 1 {
                        assert(merged@[s2]@[j2] == label_pts@[id as int]@[k as int]);
                        assert(shape_views(label_pts@)[id as int][k as int]
                            == label_pts@[id as int]@[k as int]);
                        assert(shape_views(label_pts@)[s3][j3] == label_pts@[s3]@[j3]);
                        assert(label_pts@[id as int]@[k as int] != label_pts@[s3]@[j3]);
                    } else {
                        assert(merged@[s2]@[j2] == m0[s2]@[j2]);
                    }
                }
                assert forall|s2: int, j2: int, j3: int|
                    #![trigger merged@[s2]@[j2], label_pts@[id as int]@[j3]]
                    0 <= s2 < merged@.len() && 0 <= j2 < merged@[s2]@.len()
                        && k + 1 <= j3 < label_pts@[id as int]@.len()
                    implies merged@[s2]@[j2] != label_pts@[id as int]@[j3] by {
                    if s2 == ru as int && j2 == merged@[s2]@.len() - 1 {
                        assert(merged@[s2]@[j2] == label_pts@[id as int]@[k as int]);
                        assert(shape_views(label_pts@)[id as int][k as int]
                            == label_pts@[id as int]@[k as int]);
                        assert(shape_views(label_pts@)[id as int][j3]
                            == label_pts@[id as int]@[j3]);
                        assert(label_pts@[id as int]@[k as int]
                            != label_pts@[id as int]@[j3]);
                    } else {
                        assert(merged@[s2]@[j2] == m0[s2]@[j2]);
                    }
                }
            }
            k = k + 1;
        }
        proof {
            if exists|s: int| 1 <= s < id as int + 1 && (#[trigger] label_pts@[s])@.len() >= 1 {
                let s0 = choose|s: int|
                    1 <= s < id as int + 1 && (#[trigger] label_pts@[s])@.len() >= 1;
                if s0 == id as int {
                    assert(merged@[ru as int]@.len() >= n);
                    assert(exists|t: int|
                        0 <= t < merged@.len() && (#[trigger] merged@[t])@.len() >= 1);
                } else {
                    assert(exists|s: int|
                        1 <= s < id as int && (#[trigger] label_pts@[s])@.len() >= 1);
                }
            }
        }
        id = id + 1;
    }

    // keep only the shapes that collected a point
    let mut res: Shapes = Vec::new();
    let mut s: usize = 0;
    let m = merged.len();
    while s < m
        invariant
            corners.wf(),
            edges.wf(),
            m == merged@.len(),
            s <= m,
            forall|t: int, j: int|
                0 <= t < merged@.len() && 0 <= j < (#[trigger] merged@[t])@.len()
                    ==> shape_pt_ok(*corners, #[trigger] merged@[t]@[j])
                        && near_edge(*edges, merged@[t]@[j]),
            shapes_distinct(shape_views(merged@)),
            forall|t: int| 0 <= t < res@.len() ==> (#[trigger] res@[t])@.len() >= 1,
            forall|t: int, j: int|
                0 <= t < res@.len() && 0 <= j < (#[trigger] res@[t])@.len()
                    ==> shape_pt_ok(*corners, #[trigger] res@[t]@[j])
                        && near_edge(*edges, res@[t]@[j]),
            shapes_distinct(shape_views(res@)),
            (forall|t: int|
                0 <= t < merged@.len() ==> (#[trigger] merged@[t])@.len() == 0)
                ==> res@.len() == 0,
            // every kept shape is one of the already-scanned merged shapes
            forall|t: int|
                0 <= t < res@.len()
                    ==> exists|u: int| 0 <= u < s && (#[trigger] res@[t])@ == merged@[u]@,
            (exists|t: int| 0 <= t < s && (#[trigger] merged@[t])@.len() >= 1)
                ==> res@.len() >= 1,
        decreases m - s,
    {
        let cnt = merged[s].len();
        if cnt > 0 {
            let mut copy: Points = Vec::new();
            let mut k: usize = 0;
            while k < cnt
                invariant
                    cnt == (merged@[s as int])@.len(),
                    s < merged@.len(),
                    k <= cnt,
                    copy@ == (merged@[s as int])@.subrange(0, k as int),
                decreases cnt - k,
            {
                let pt: Point = merged[s][k];
                copy.push(pt);
                proof {
                    assert(copy@ =~= (merged@[s as int])@.subrange(0, k + 1));
                }
                k = k + 1;
            }
            proof {
                assert(copy@ =~= (merged@[s as int])@);
            }
            let ghost r0 = res@;
            res.push(copy);
            proof {
                assert forall|s1: int, j1: int, s2: int, j2: int|
                    0 <= s1 < shape_views(res@).len()
                        && 0 <= j1 < shape_views(res@)[s1].len()
                        && 0 <= s2 < shape_views(res@).len()
                        && 0 <= j2 < shape_views(res@)[s2].len()
                        && (s1 != s2 || j1 != j2)
                    implies shape_views(res@)[s1][j1] != shape_views(res@)[s2][j2] by {
                    let v = shape_views(res@);
                    let mv = shape_views(merged@);
                    if s1 < r0.len() && s2 < r0.len() {
                        assert(v[s1][j1] == shape_views(r0)[s1][j1]);
                        assert(v[s2][j2] == shape_views(r0)[s2][j2]);
                    } else if s1 == r0.len() && s2 == r0.len() {
                        assert(v[s1][j1] == mv[s as int][j1]);
                        assert(v[s2][j2] == mv[s as int][j2]);
                    } else if s1 == r0.len() {
                        let u2 = choose|u: int|
                            0 <= u < s && (r0[s2])@ == merged@[u]@;
                        assert(v[s1][j1] == mv[s as int][j1]);
                        assert(v[s2][j2] == mv[u2][j2]);
                        assert(mv[s as int][j1] != mv[u2][j2]);
                    } else {
                        let u1 = choose|u: int|
                            0 <= u < s && (r0[s1])@ == merged@[u]@;
                        assert(v[s2][j2] == mv[s as int][j2]);
                        assert(v[s1][j1] == mv[u1][j1]);
                        assert(mv[u1][j1] != mv[s as int][j2]);
                    }
                }
            }
        }
        proof {
            if exists|t: int| 0 <= t < s + 1 && (#[trigger] merged@[t])@.len() >= 1 {
                let t0 = choose|t: int|
                    0 <= t < s + 1 && (#[trigger] merged@[t])@.len() >= 1;
                if t0 == s as int {
                    assert(cnt > 0);
                } else {
                    assert(exists|t: int|
                        0 <= t < s && (#[trigger] merged@[t])@.len() >= 1);
                }
            }
        }
        s = s + 1;
    }
    proof {
        if claimable(*edges, *corners) {
            assert(exists|s: int|
                1 <= s < label_pts@.len() && (#[trigger] label_pts@[s])@.len() >= 1);
            assert(exists|t: int|
                0 <= t < merged@.len() && (#[trigger] merged@[t])@.len() >= 1);
            assert(res@.len() >= 1);
        }
        assert forall|t: int| 0 <= t < res@.len()
            implies (#[trigger] shape_views(res@)[t]) == res@[t]@ by {}
        assert(find_shapes_post(*edges, *corners, shape_views(res@)));
    }
    res
}


/// The scan key `a * x + b * y` used to pick extreme corners.
pub open spec fn corner_key(a: int, b: int, p: Point) -> int {
    a * p.0 + b * p.1
}

/// The first point of the sequence minimizing `a * x + b * y`.
pub open spec fn pick_min(s: Seq<Point>, a: int, b: int) -> Point
    decreases s.len(),
{
    if s.len() <= 1 {
        s[0]
    } else {
        let pre = pick_min(s.drop_last(), a, b);
        if corner_key(a, b, pre) <= corner_key(a, b, s.last()) {
            pre
        } else {
            s.last()
        }
    }
}

/// The last point of the sequence maximizing `a * x + b * y`.
pub open spec fn pick_max(s: Seq<Point>, a: int, b: int) -> Point
    decreases s.len(),
{
    if s.len() <= 1 {
        s[0]
    } else {
        let pre = pick_max(s.drop_last(), a, b);
        if corner_key(a, b, s.last()) >= corner_key(a, b, pre) {
            s.last()
        } else {
            pre
        }
    }
}

/// The quad of a shape: top-left minimizes `x + y`, top-right
/// minimizes `-x + y`, bottom-left maximizes `-x + y`, bottom-right
/// maximizes `x + y`.  A shape of fewer than 4 points, or one whose
/// four extremes are not pairwise distinct, yields no quad.
pub open spec fn quad_of(s: Seq<Point>) -> Option<Corners> {
    if s.len() < 4 {
        None
    } else {
        let tl = pick_min(s, 1, 1);
        let tr = pick_min(s, -1, 1);
        let bl = pick_max(s, -1, 1);
        let br = pick_max(s, 1, 1);
        if tl == tr || tl == bl || tl == br || tr == bl || tr == br || bl == br {
            None
        } else {
            Some((tl, tr, bl, br))
        }
    }
}

/// The quads of a list of shapes, kept in shape order.
pub open spec fn quads_spec(ss: Seq<Seq<Point>>) -> Seq<Corners>
    decreases ss.len(),
{
    if ss.len() == 0 {
        Seq::empty()
    } else {
        let pre = quads_spec(ss.drop_last());
        match quad_of(ss.last()) {
            Some(q) => pre.push(q),
            None => pre,
        }
    }
}

/// Reduce each shape of at least 4 points to its four extreme
/// corners, dropping shapes whose extremes coincide.
pub fn filter_quads(shapes: Shapes) -> (res: Quads)
    ensures
        res@ == quads_spec(shape_views(shapes@)),
{
    let mut res: Quads = Vec::new();
    let n = shapes.len();
    let mut i: usize = 0;
    while i < n
        invariant
            n == shapes@.len(),
            i <= n,
            res@ == quads_spec(shape_views(shapes@).subrange(0, i as int)),
        decreases n - i,
    {
        let pts = &shapes[i];
        let cnt = pts.len();
        if cnt >= 4 {
            let mut tl: Point = pts[0];
            let mut tr: Point = pts[0];
            let mut bl: Point = pts[0];
            let mut br: Point = pts[0];
            let mut k: usize = 1;
            proof {
                assert(pts@.subrange(0, 1) =~= seq![pts@[0]]);
            }
            while k < cnt
                invariant
                    cnt == pts@.len(),
                    1 <= k <= cnt,
                    tl == pick_min(pts@.subrange(0, k as int), 1, 1),
                    tr == pick_min(pts@.subrange(0, k as int), -1, 1),
                    bl == pick_max(pts@.subrange(0, k as int), -1, 1),
                    br == pick_max(pts@.subrange(0, k as int), 1, 1),
                decreases cnt - k,
            {
                let p = pts[k];
                proof {
                    let pre = pts@.subrange(0, k as int);
                    let cur = pts@.subrange(0, k + 1);
                    assert(cur.drop_last() =~= pre);
                    assert(cur.last() == pts@[k as int]);
                }
                let key_tl_p: i64 = p.0 as i64 + p.1 as i64;
                let key_tl_c: i64 = tl.0 as i64 + tl.1 as i64;
                if key_tl_c > key_tl_p {
                    tl = p;
                }
                let key_tr_p: i64 = -(p.0 as i64) + p.1 as i64;
                let key_tr_c: i64 = -(tr.0 as i64) + tr.1 as i64;
                if key_tr_c > key_tr_p {
                    tr = p;
                }
                let key_bl_p: i64 = -(p.0 as i64) + p.1 as i64;
                let key_bl_c: i64 = -(bl.0 as i64) + bl.1 as i64;
                if key_bl_p >= key_bl_c {
                    bl = p;
                }
                let key_br_p: i64 = p.0 as i64 + p.1 as i64;
                let key_br_c: i64 = br.0 as i64 + br.1 as i64;
                if key_br_p >= key_br_c {
                    br = p;
                }
                k = k + 1;
            }
            proof {
                assert(pts@.subrange(0, cnt as int) =~= pts@);
            }
            let degenerate = (tl.0 == tr.0 && tl.1 == tr.1) || (tl.0 == bl.0 && tl.1 == bl.1)
                || (tl.0 == br.0 && tl.1 == br.1) || (tr.0 == bl.0 && tr.1 == bl.1)
                || (tr.0 == br.0 && tr.1 == br.1) || (bl.0 == br.0 && bl.1 == br.1);
            if !degenerate {
                res.push((tl, tr, bl, br));
            }
        }
        proof {
            let views = shape_views(shapes@);
            let pre = views.subrange(0, i as int);
            let cur = views.subrange(0, i + 1);
            assert(cur.drop_last() =~= pre);
            assert(cur.last() == views[i as int]);
            assert(views[i as int] == shapes@[i as int]@);
        }
        i = i + 1;
    }
    proof {
        assert(shape_views(shapes@).subrange(0, n as int) =~= shape_views(shapes@));
    }
    res
}

} // verus!

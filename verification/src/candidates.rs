//! Quad candidate extraction: group shapes, reduce them to quads, and
//! apply the configured geometric filters in the order ratio, angle,
//! enclosure.

use vstd::prelude::*;
use crate::types::{Mask, Point, Corners, Quads};
use crate::config::Config;
use crate::detector::Detector;
use crate::shapes::{find_shapes, filter_quads, find_shapes_post, shape_pt_ok, near_edge,
    pick_min, pick_max, quad_of, quads_spec};
use crate::filters::{quads_small, quad_small, ratio_ok, angles_ok, ratio_filter_spec,
    angle_filter_spec, enclosure_spec};

verus! {

/// Every corner of the quad is a set pixel of the corner mask, one
/// pixel inside the borders.
pub open spec fn cand_ok(m: Mask, q: Corners) -> bool {
    &&& shape_pt_ok(m, q.0)
    &&& shape_pt_ok(m, q.1)
    &&& shape_pt_ok(m, q.2)
    &&& shape_pt_ok(m, q.3)
}

/// The configured geometric filters, applied in the order ratio,
/// angle, enclosure, each exactly when its toggle is on.
pub open spec fn apply_filters_spec(config: Config, qs: Seq<Corners>) -> Seq<Corners> {
    let q1 = if config.filter_ratios {
        ratio_filter_spec(qs)
    } else {
        qs
    };
    let q2 = if config.filter_angles {
        angle_filter_spec(q1)
    } else {
        q1
    };
    if config.filter_enclosed {
        enclosure_spec(q2)
    } else {
        q2
    }
}

/// Every corner of the quad sits within one pixel of an edge pixel.
pub open spec fn quad_near_edges(edges: Mask, q: Corners) -> bool {
    &&& near_edge(edges, q.0)
    &&& near_edge(edges, q.1)
    &&& near_edge(edges, q.2)
    &&& near_edge(edges, q.3)
}

/// The extreme-corner picks are members of the point sequence.
proof fn lemma_pick_in(s: Seq<Point>, a: int, b: int)
    requires
        s.len() >= 1,
    ensures
        s.contains(pick_min(s, a, b)),
        s.contains(pick_max(s, a, b)),
    decreases s.len(),
{
    if s.len() == 1 {
        assert(s[0] == pick_min(s, a, b));
        assert(s[0] == pick_max(s, a, b));
    } else {
        lemma_pick_in(s.drop_last(), a, b);
        let pmin = pick_min(s, a, b);
        let pmax = pick_max(s, a, b);
        if pmin == s.last() {
            assert(s[s.len() - 1] == pmin);
        } else {
            let j = choose|j: int|
                0 <= j < s.drop_last().len() && s.drop_last()[j] == pick_min(s.drop_last(), a, b);
            assert(s[j] == pmin);
        }
        if pmax == s.last() {
            assert(s[s.len() - 1] == pmax);
        } else {
            let j = choose|j: int|
                0 <= j < s.drop_last().len() && s.drop_last()[j] == pick_max(s.drop_last(), a, b);
            assert(s[j] == pmax);
        }
    }
}

/// Every quad produced from shapes of good points has good corners.
proof fn lemma_quads_ok(edges: Mask, m: Mask, ss: Seq<Seq<Point>>)
    requires
        forall|s: int, j: int|
            0 <= s < ss.len() && 0 <= j < (#[trigger] ss[s]).len()
                ==> shape_pt_ok(m, #[trigger] ss[s][j]) && near_edge(edges, ss[s][j]),
    ensures
        forall|i: int|
            0 <= i < quads_spec(ss).len()
                ==> cand_ok(m, #[trigger] quads_spec(ss)[i])
                    && quad_near_edges(edges, quads_spec(ss)[i]),
    decreases ss.len(),
{
    if ss.len() > 0 {
        lemma_quads_ok(edges, m, ss.drop_last());
        assert forall|s: int, j: int|
            0 <= s < ss.drop_last().len() && 0 <= j < (#[trigger] ss.drop_last()[s]).len()
            implies shape_pt_ok(m, #[trigger] ss.drop_last()[s][j])
                && near_edge(edges, ss.drop_last()[s][j]) by {
            assert(ss.drop_last()[s] == ss[s]);
        }
        let last = ss.last();
        assert forall|i: int|
            0 <= i < quads_spec(ss).len()
            implies cand_ok(m, #[trigger] quads_spec(ss)[i])
                && quad_near_edges(edges, quads_spec(ss)[i]) by {
            let pre = quads_spec(ss.drop_last());
            if i < pre.len() {
                assert(quads_spec(ss)[i] == pre[i]);
            } else {
                let q = quads_spec(ss)[i];
                assert(quad_of(last) == Some(q));
                assert(last.len() >= 4);
                lemma_pick_in(last, 1, 1);
                lemma_pick_in(last, -1, 1);
                assert forall|p: Point| last.contains(p)
                    implies shape_pt_ok(m, p) && near_edge(edges, p) by {
                    let j = choose|j: int| 0 <= j < last.len() && last[j] == p;
                    assert(ss[ss.len() - 1][j] == p);
                }
            }
        }
    }
}

impl Detector {
    /// Extract the quad candidates of one frame: group the corner
    /// points of each connected edge component, reduce each group to
    /// its four extreme corners, and apply the configured filters.
    /// The result is exactly the configured filter chain applied to
    /// the quads of some grouping that satisfies shape extraction's
    /// contract; every returned corner is a set pixel of the corner
    /// mask near an edge pixel, and an edge-free interior yields no
    /// candidates.
    pub fn candidates(&self, edges: &Mask, corners: &Mask) -> (res: Quads)
        requires
            edges.wf(),
            corners.wf(),
            corners.same_dim(*edges),
            edges.h <= 0x1000,
            edges.w <= 0x1000,
        ensures
            forall|i: int| 0 <= i < res@.len() ==> cand_ok(*corners, #[trigger] res@[i]),
            forall|i: int| 0 <= i < res@.len() ==> quad_near_edges(*edges, #[trigger] res@[i]),
            forall|i: int| 0 <= i < res@.len() ==> quad_small(#[trigger] res@[i]),
            self.config.filter_ratios
                ==> forall|i: int| 0 <= i < res@.len() ==> ratio_ok(#[trigger] res@[i]),
            self.config.filter_angles
                ==> forall|i: int| 0 <= i < res@.len() ==> angles_ok(#[trigger] res@[i]),
            exists|ss: Seq<Seq<Point>>|
                find_shapes_post(*edges, *corners, ss)
                    && res@ == apply_filters_spec(self.config, #[trigger] quads_spec(ss)),
            (forall|y: int, x: int|
                2 <= y < edges.h - 2 && 2 <= x < edges.w - 2
                    ==> !(#[trigger] edges.at(y, x)))
                ==> res@.len() == 0,
    {
        proof {
            assert(edges.h * edges.w <= 0x100_0000) by (nonlinear_arith)
                requires
                    edges.h <= 0x1000,
                    edges.w <= 0x1000,
            ;
        }
        let shapes = find_shapes(edges, corners);
        let ghost views = crate::shapes::shape_views(shapes@);
        let quads = filter_quads(shapes);
        proof {
            lemma_quads_ok(*edges, *corners, views);
            assert forall|i: int|
                0 <= i < quads@.len() implies quad_small(#[trigger] quads@[i]) by {
                assert(cand_ok(*corners, quads@[i]));
            }
        }
        let mut res = quads;
        if self.config.filter_ratios {
            res = self.filter_ratios(res);
        }
        if self.config.filter_angles {
            res = self.filter_angles(res);
        }
        if self.config.filter_enclosed {
            res = self.filter_enclosed(res);
        }
        proof {
            assert(res@ == apply_filters_spec(self.config, quads_spec(views)));
            assert(find_shapes_post(*edges, *corners, views));
            assert(exists|ss: Seq<Seq<Point>>|
                find_shapes_post(*edges, *corners, ss)
                    && res@ == apply_filters_spec(self.config, #[trigger] quads_spec(ss)));
        }
        res
    }
}

} // verus!

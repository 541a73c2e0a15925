//! Edge post-processing: non-maximum suppression and dual-threshold
//! hysteresis with breadth-first flood fill.
//!
//! Both thresholds of the hysteresis stage are fractions of the global
//! maximum suppressed magnitude, given in permyriad (parts per 10000):
//! a pixel is strong when `v * 10000 > high_pm * max`, weak when it is
//! not strong and `v * 10000 > low_pm * max`.  The output mask holds
//! exactly the pixels reachable from a strong pixel through 8-connected
//! weak pixels.

use vstd::prelude::*;
use vstd::seq_lib::group_seq_properties;
use vstd::set_lib::{lemma_len_subset, lemma_int_range, set_int_range};
use crate::grid::{Grid, lemma_row_major};
use crate::types::Mask;
use crate::oper::interior;

verus! {

/// The largest element of the sequence, or 0 when it is empty.
pub open spec fn seq_max_u32(s: Seq<u32>) -> u32
    decreases s.len(),
{
    if s.len() == 0 {
        0u32
    } else {
        let m = seq_max_u32(s.drop_last());
        if s.last() > m {
            s.last()
        } else {
            m
        }
    }
}

/// Every element is at most the maximum, and a nonempty sequence
/// attains it.
pub proof fn lemma_seq_max_u32(s: Seq<u32>)
    ensures
        forall|i: int| 0 <= i < s.len() ==> s[i] <= seq_max_u32(s),
        s.len() > 0 ==> exists|i: int| 0 <= i < s.len() && s[i] == seq_max_u32(s),
    decreases s.len(),
{
    if s.len() > 0 {
        lemma_seq_max_u32(s.drop_last());
        assert forall|i: int| 0 <= i < s.len() implies s[i] <= seq_max_u32(s) by {
            if i < s.len() - 1 {
                assert(s.drop_last()[i] == s[i]);
            }
        }
        if s.last() > seq_max_u32(s.drop_last()) {
            assert(s[s.len() - 1] == seq_max_u32(s));
        } else if s.len() == 1 {
            assert(seq_max_u32(s) == s.last());
            assert(s[0] == seq_max_u32(s));
        } else {
            let i = choose|i: int|
                0 <= i < s.len() - 1 && s.drop_last()[i] == seq_max_u32(s.drop_last());
            assert(s[i] == seq_max_u32(s));
        }
    }
}

/// The global maximum of a grid's elements.
pub open spec fn grid_max_of(g: Grid<u32>) -> int {
    seq_max_u32(g.data@) as int
}

/// The largest element of the grid, 0 for an empty grid.
pub fn grid_max(g: &Grid<u32>) -> (r: u32)
    requires
        g.wf(),
    ensures
        r as int == grid_max_of(*g),
{
    let n = g.data.len();
    let mut m: u32 = 0;
    let mut i: usize = 0;
    while i < n
        invariant
            n == g.data.len(),
            i <= n,
            m == seq_max_u32(g.data@.subrange(0, i as int)),
        decreases n - i,
    {
        let v = g.data[i];
        proof {
            let pre = g.data@.subrange(0, i as int);
            let cur = g.data@.subrange(0, i + 1);
            assert(cur.drop_last() =~= pre);
            assert(cur.last() == g.data@[i as int]);
        }
        if v > m {
            m = v;
        }
        i = i + 1;
    }
    proof {
        assert(g.data@.subrange(0, n as int) =~= g.data@);
    }
    m
}

/// `v` exceeds the fraction `pm / 10000` of `mx`.
pub open spec fn above_frac(v: int, pm: int, mx: int) -> bool {
    v * 10000 > pm * mx
}

/// The pixel's suppressed magnitude exceeds the high fraction of the
/// frame maximum.
pub open spec fn strong_at(g: Grid<u32>, hi: u32, y: int, x: int) -> bool {
    above_frac(g.at(y, x) as int, hi as int, grid_max_of(g))
}

/// The pixel lies strictly between the low and at most the high
/// fraction of the frame maximum.
pub open spec fn weak_at(g: Grid<u32>, lo: u32, hi: u32, y: int, x: int) -> bool {
    !strong_at(g, hi, y, x) && above_frac(g.at(y, x) as int, lo as int, grid_max_of(g))
}

/// `(y, x)` lies inside the grid.
pub open spec fn in_bounds(g: Grid<u32>, y: int, x: int) -> bool {
    0 <= y < g.h && 0 <= x < g.w
}

/// The two pixels are distinct and 8-connected, coordinates as (y, x).
pub open spec fn adj8(p: (int, int), q: (int, int)) -> bool {
    -1 <= q.0 - p.0 <= 1 && -1 <= q.1 - p.1 <= 1 && p != q
}

/// A path that starts at a strong pixel and steps through 8-connected
/// weak pixels, all in bounds.
pub open spec fn is_weak_path(g: Grid<u32>, lo: u32, hi: u32, path: Seq<(int, int)>) -> bool {
    &&& path.len() >= 1
    &&& in_bounds(g, path[0].0, path[0].1)
    &&& strong_at(g, hi, path[0].0, path[0].1)
    &&& forall|i: int|
        1 <= i < path.len() ==> {
            &&& in_bounds(g, (#[trigger] path[i]).0, path[i].1)
            &&& weak_at(g, lo, hi, path[i].0, path[i].1)
            &&& adj8(path[i - 1], path[i])
        }
}

/// The pixel belongs to the hysteresis edge mask: it is strong, or a
/// weak pixel connected to some strong pixel through weak pixels.
pub open spec fn edge_reach(g: Grid<u32>, lo: u32, hi: u32, y: int, x: int) -> bool {
    exists|path: Seq<(int, int)>|
        is_weak_path(g, lo, hi, path) && path.last() == (y, x)
}

/// A strong pixel reaches itself.
proof fn lemma_reach_strong(g: Grid<u32>, lo: u32, hi: u32, y: int, x: int)
    requires
        in_bounds(g, y, x),
        strong_at(g, hi, y, x),
    ensures
        edge_reach(g, lo, hi, y, x),
{
    let path = seq![(y, x)];
    assert(is_weak_path(g, lo, hi, path));
    assert(path.last() == (y, x));
}

/// A weak pixel adjacent to a reached pixel is reached.
proof fn lemma_reach_step(g: Grid<u32>, lo: u32, hi: u32, py: int, px: int, y: int, x: int)
    requires
        edge_reach(g, lo, hi, py, px),
        in_bounds(g, y, x),
        weak_at(g, lo, hi, y, x),
        adj8((py, px), (y, x)),
    ensures
        edge_reach(g, lo, hi, y, x),
{
    let pre = choose|path: Seq<(int, int)>|
        is_weak_path(g, lo, hi, path) && path.last() == (py, px);
    let path = pre.push((y, x));
    assert forall|i: int|
        1 <= i < path.len() implies {
            &&& in_bounds(g, (#[trigger] path[i]).0, path[i].1)
            &&& weak_at(g, lo, hi, path[i].0, path[i].1)
            &&& adj8(path[i - 1], path[i])
        } by {
        if i < pre.len() {
            assert(path[i] == pre[i]);
            assert(path[i - 1] == pre[i - 1]);
        } else {
            assert(path[i] == (y, x));
            assert(path[i - 1] == pre[pre.len() - 1]);
        }
    }
    assert(is_weak_path(g, lo, hi, path));
    assert(path.last() == (y, x));
}

/// Every pixel reachable through weak pixels is marked in any mask that
/// contains the strong pixels and is closed under weak adjacency.
proof fn lemma_closed_reach(g: Grid<u32>, lo: u32, hi: u32, m: Mask, path: Seq<(int, int)>)
    requires
        m.same_dim(g),
        forall|y: int, x: int|
            in_bounds(g, y, x) && strong_at(g, hi, y, x) ==> m.at(y, x),
        forall|py: int, px: int, y: int, x: int|
            in_bounds(g, py, px) && in_bounds(g, y, x) && #[trigger] m.at(py, px)
                && weak_at(g, lo, hi, y, x) && adj8((py, px), (y, x))
                ==> #[trigger] m.at(y, x),
        is_weak_path(g, lo, hi, path),
    ensures
        m.at(path.last().0, path.last().1),
    decreases path.len(),
{
    if path.len() == 1 {
        assert(m.at(path[0].0, path[0].1));
    } else {
        let pre = path.drop_last();
        assert forall|i: int|
            1 <= i < pre.len() implies {
                &&& in_bounds(g, (#[trigger] pre[i]).0, pre[i].1)
                &&& weak_at(g, lo, hi, pre[i].0, pre[i].1)
                &&& adj8(pre[i - 1], pre[i])
            } by {
            assert(pre[i] == path[i]);
            assert(pre[i - 1] == path[i - 1]);
        }
        assert(is_weak_path(g, lo, hi, pre));
        lemma_closed_reach(g, lo, hi, m, pre);
        let n = path.len() - 1;
        assert(pre.last() == path[n - 1]);
        assert(m.at(path[n - 1].0, path[n - 1].1));
        assert(in_bounds(g, path[n].0, path[n].1) && weak_at(g, lo, hi, path[n].0, path[n].1)
            && adj8(path[n - 1], path[n]));
    }
}

/// A pairwise-distinct sequence of in-bounds coordinates has at most
/// one entry per pixel.
proof fn lemma_coord_seq_len(q: Seq<(usize, usize)>, h: int, w: int)
    requires
        q.no_duplicates(),
        forall|j: int| 0 <= j < q.len() ==> (#[trigger] q[j]).0 < h && q[j].1 < w,
        0 <= h,
        0 <= w,
    ensures
        q.len() <= h * w,
{
    broadcast use group_seq_properties;

    let m = Seq::new(q.len(), |j: int| q[j].0 * w + q[j].1);
    assert forall|i: int, j: int| 0 <= i < j < m.len() implies m[i] != m[j] by {
        assert(q[i] != q[j]);
        lemma_row_major(q[i].0 as int, q[i].1 as int, h, w);
        lemma_row_major(q[j].0 as int, q[j].1 as int, h, w);
        if m[i] == m[j] {
            assert(q[i].0 == q[j].0 && q[i].1 == q[j].1) by (nonlinear_arith)
                requires
                    q[i].0 * w + q[i].1 == q[j].0 * w + q[j].1,
                    0 <= q[i].1 < w,
                    0 <= q[j].1 < w,
                    0 <= q[i].0,
                    0 <= q[j].0,
            ;
        }
    }
    assert(m.no_duplicates());
    m.unique_seq_to_set();
    lemma_int_range(0, h * w);
    assert forall|e: int| m.to_set().contains(e) implies set_int_range(0, h * w).contains(e) by {
        let j = choose|j: int| 0 <= j < m.len() && m[j] == e;
        lemma_row_major(q[j].0 as int, q[j].1 as int, h, w);
    }
    assert(m.to_set().subset_of(set_int_range(0, h * w)));
    lemma_len_subset(m.to_set(), set_int_range(0, h * w));
}

/// Non-maximum suppression: an interior pixel keeps its magnitude only
/// when it is at least both neighbors along its quantized gradient
/// direction; border pixels are always suppressed.
pub open spec fn nms_at(mag: Grid<u32>, orient: Grid<(i8, i8)>, y: int, x: int) -> int {
    if !interior(mag.h as int, mag.w as int, y, x, 1) {
        0
    } else {
        let d = orient.at(y, x);
        let cur = mag.at(y, x) as int;
        if cur >= mag.at(y - d.1 as int, x - d.0 as int) as int
            && cur >= mag.at(y + d.1 as int, x + d.0 as int) as int {
            cur
        } else {
            0
        }
    }
}

/// Suppress non-maximal magnitudes along the quantized gradient
/// direction.  The result never exceeds the input magnitude at any
/// pixel.
pub fn nms(mag: &Grid<u32>, orient: &Grid<(i8, i8)>, supp: &mut Grid<u32>)
    requires
        mag.wf(),
        orient.wf(),
        old(supp).wf(),
        orient.same_dim(*mag),
        old(supp).same_dim(*mag),
        forall|y: int, x: int|
            0 <= y < mag.h && 0 <= x < mag.w
                ==> -1 <= (#[trigger] orient.at(y, x)).0 <= 1 && -1 <= orient.at(y, x).1 <= 1,
    ensures
        final(supp).wf(),
        final(supp).same_dim(*mag),
        forall|y: int, x: int|
            0 <= y < mag.h && 0 <= x < mag.w
                ==> final(supp).at(y, x) as int == nms_at(*mag, *orient, y, x),
        forall|y: int, x: int|
            0 <= y < mag.h && 0 <= x < mag.w
                ==> #[trigger] final(supp).at(y, x) <= mag.at(y, x),
{
    let h = mag.h;
    let w = mag.w;
    let mut y: usize = 0;
    while y < h
        invariant
            mag.wf(),
            orient.wf(),
            supp.wf(),
            orient.same_dim(*mag),
            supp.same_dim(*mag),
            h == mag.h,
            w == mag.w,
            y <= h,
            forall|yy: int, xx: int|
                0 <= yy < mag.h && 0 <= xx < mag.w
                    ==> -1 <= (#[trigger] orient.at(yy, xx)).0 <= 1 && -1 <= orient.at(yy, xx).1 <= 1,
            forall|yy: int, xx: int|
                0 <= yy < y && 0 <= xx < w
                    ==> supp.at(yy, xx) as int == nms_at(*mag, *orient, yy, xx),
        decreases h - y,
    {
        let mut x: usize = 0;
        while x < w
            invariant
                mag.wf(),
                orient.wf(),
                supp.wf(),
                orient.same_dim(*mag),
                supp.same_dim(*mag),
                h == mag.h,
                w == mag.w,
                y < h,
                x <= w,
                forall|yy: int, xx: int|
                    0 <= yy < mag.h && 0 <= xx < mag.w
                        ==> -1 <= (#[trigger] orient.at(yy, xx)).0 <= 1
                            && -1 <= orient.at(yy, xx).1 <= 1,
                forall|yy: int, xx: int|
                    0 <= yy < y && 0 <= xx < w
                        ==> supp.at(yy, xx) as int == nms_at(*mag, *orient, yy, xx),
                forall|xx: int|
                    0 <= xx < x
                        ==> supp.at(y as int, xx) as int == nms_at(*mag, *orient, y as int, xx),
            decreases w - x,
        {
            let v: u32 = if y >= 1 && h >= 2 && y < h - 1 && x >= 1 && w >= 2 && x < w - 1 {
                let d = orient.get(y, x);
                let cur = mag.get(y, x);
                let ny1: usize = if d.1 == 1 { y - 1 } else if d.1 == -1 { y + 1 } else { y };
                let nx1: usize = if d.0 == 1 { x - 1 } else if d.0 == -1 { x + 1 } else { x };
                let ny2: usize = if d.1 == 1 { y + 1 } else if d.1 == -1 { y - 1 } else { y };
                let nx2: usize = if d.0 == 1 { x + 1 } else if d.0 == -1 { x - 1 } else { x };
                let n1 = mag.get(ny1, nx1);
                let n2 = mag.get(ny2, nx2);
                if cur >= n1 && cur >= n2 {
                    cur
                } else {
                    0
                }
            } else {
                0
            };
            supp.put(y, x, v);
            x = x + 1;
        }
        y = y + 1;
    }
}

/// Dual-threshold hysteresis.  Strong pixels (above the high fraction
/// of the frame maximum) seed a breadth-first flood fill through
/// 8-connected weak pixels; `edges` receives exactly the reachable
/// pixels, and `strong` and `weak` are left holding the two threshold
/// classifications.
pub fn hysteresis(
    supp: &Grid<u32>,
    low_pm: u32,
    high_pm: u32,
    strong: &mut Mask,
    weak: &mut Mask,
    edges: &mut Mask,
)
    requires
        supp.wf(),
        old(strong).wf(),
        old(weak).wf(),
        old(edges).wf(),
        old(strong).same_dim(*supp),
        old(weak).same_dim(*supp),
        old(edges).same_dim(*supp),
    ensures
        final(strong).wf(),
        final(weak).wf(),
        final(edges).wf(),
        final(strong).same_dim(*supp),
        final(weak).same_dim(*supp),
        final(edges).same_dim(*supp),
        forall|y: int, x: int|
            0 <= y < supp.h && 0 <= x < supp.w
                ==> final(strong).at(y, x) == strong_at(*supp, high_pm, y, x),
        forall|y: int, x: int|
            0 <= y < supp.h && 0 <= x < supp.w
                ==> final(weak).at(y, x) == weak_at(*supp, low_pm, high_pm, y, x),
        forall|y: int, x: int|
            0 <= y < supp.h && 0 <= x < supp.w
                ==> final(edges).at(y, x) == edge_reach(*supp, low_pm, high_pm, y, x),
{
    let h = supp.h;
    let w = supp.w;
    let mx = grid_max(supp);

    let mut y: usize = 0;
    while y < h
        invariant
            supp.wf(),
            strong.wf(),
            weak.wf(),
            strong.same_dim(*supp),
            weak.same_dim(*supp),
            h == supp.h,
            w == supp.w,
            y <= h,
            mx as int == grid_max_of(*supp),
            forall|yy: int, xx: int|
                0 <= yy < y && 0 <= xx < w
                    ==> strong.at(yy, xx) == strong_at(*supp, high_pm, yy, xx),
            forall|yy: int, xx: int|
                0 <= yy < y && 0 <= xx < w
                    ==> weak.at(yy, xx) == weak_at(*supp, low_pm, high_pm, yy, xx),
        decreases h - y,
    {
        let mut x: usize = 0;
        while x < w
            invariant
                supp.wf(),
                strong.wf(),
                weak.wf(),
                strong.same_dim(*supp),
                weak.same_dim(*supp),
                h == supp.h,
                w == supp.w,
                y < h,
                x <= w,
                mx as int == grid_max_of(*supp),
                forall|yy: int, xx: int|
                    0 <= yy < y && 0 <= xx < w
                        ==> strong.at(yy, xx) == strong_at(*supp, high_pm, yy, xx),
                forall|yy: int, xx: int|
                    0 <= yy < y && 0 <= xx < w
                        ==> weak.at(yy, xx) == weak_at(*supp, low_pm, high_pm, yy, xx),
                forall|xx: int|
                    0 <= xx < x
                        ==> strong.at(y as int, xx) == strong_at(*supp, high_pm, y as int, xx),
                forall|xx: int|
                    0 <= xx < x
                        ==> weak.at(y as int, xx) == weak_at(*supp, low_pm, high_pm, y as int, xx),
            decreases w - x,
        {
            let v = supp.get(y, x);
            proof {
                assert((high_pm as int) * (mx as int) <= 18446744065119617025) by (nonlinear_arith)
                    requires
                        high_pm as int <= 4294967295,
                        mx as int <= 4294967295,
                ;
                assert((low_pm as int) * (mx as int) <= 18446744065119617025) by (nonlinear_arith)
                    requires
                        low_pm as int <= 4294967295,
                        mx as int <= 4294967295,
                ;
            }
            let is_strong = (v as u64) * 10000 > (high_pm as u64) * (mx as u64);
            let is_weak = !is_strong && (v as u64) * 10000 > (low_pm as u64) * (mx as u64);
            strong.put(y, x, is_strong);
            weak.put(y, x, is_weak);
            x = x + 1;
        }
        y = y + 1;
    }


    // Seed: the edge mask starts as the strong mask, every strong pixel
    // enqueued once in raster order.
    let mut queue: Vec<(usize, usize)> = Vec::new();
    let mut y: usize = 0;
    while y < h
        invariant
            supp.wf(),
            strong.wf(),
            weak.wf(),
            edges.wf(),
            strong.same_dim(*supp),
            weak.same_dim(*supp),
            edges.same_dim(*supp),
            h == supp.h,
            w == supp.w,
            y <= h,
            forall|yy: int, xx: int|
                0 <= yy < h && 0 <= xx < w
                    ==> strong.at(yy, xx) == strong_at(*supp, high_pm, yy, xx),
            forall|yy: int, xx: int|
                0 <= yy < h && 0 <= xx < w
                    ==> weak.at(yy, xx) == weak_at(*supp, low_pm, high_pm, yy, xx),
            forall|yy: int, xx: int|
                0 <= yy < y && 0 <= xx < w
                    ==> edges.at(yy, xx) == strong_at(*supp, high_pm, yy, xx),
            forall|j: int|
                0 <= j < queue.len()
                    ==> ((#[trigger] queue@[j]).0 < y && queue@[j].1 < w
                        && strong_at(*supp, high_pm, queue@[j].0 as int, queue@[j].1 as int)),
            forall|yy: int, xx: int|
                0 <= yy < y && 0 <= xx < w && strong_at(*supp, high_pm, yy, xx)
                    ==> queue@.contains((yy as usize, xx as usize)),
            queue@.no_duplicates(),
        decreases h - y,
    {
        let mut x: usize = 0;
        while x < w
            invariant
                supp.wf(),
                strong.wf(),
                weak.wf(),
                edges.wf(),
                strong.same_dim(*supp),
                weak.same_dim(*supp),
                edges.same_dim(*supp),
                h == supp.h,
                w == supp.w,
                y < h,
                x <= w,
                forall|yy: int, xx: int|
                    0 <= yy < h && 0 <= xx < w
                        ==> strong.at(yy, xx) == strong_at(*supp, high_pm, yy, xx),
                forall|yy: int, xx: int|
                    0 <= yy < h && 0 <= xx < w
                        ==> weak.at(yy, xx) == weak_at(*supp, low_pm, high_pm, yy, xx),
                forall|yy: int, xx: int|
                    0 <= yy < y && 0 <= xx < w
                        ==> edges.at(yy, xx) == strong_at(*supp, high_pm, yy, xx),
                forall|xx: int|
                    0 <= xx < x
                        ==> edges.at(y as int, xx) == strong_at(*supp, high_pm, y as int, xx),
                forall|j: int|
                    0 <= j < queue.len()
                        ==> {
                            let q = #[trigger] queue@[j];
                            (q.0 < y || (q.0 == y && q.1 < x)) && q.1 < w
                                && strong_at(*supp, high_pm, q.0 as int, q.1 as int)
                        },
                forall|yy: int, xx: int|
                    0 <= yy < h && 0 <= xx < w && (yy < y || (yy == y && xx < x))
                        && strong_at(*supp, high_pm, yy, xx)
                        ==> queue@.contains((yy as usize, xx as usize)),
                queue@.no_duplicates(),
            decreases w - x,
        {
            let s = strong.get(y, x);
            edges.put(y, x, s);
            if s {
                let ghost q0 = queue@;
                queue.push((y, x));
                proof {
                    assert forall|i: int, j: int| 0 <= i < j < queue@.len()
                        implies queue@[i] != queue@[j] by {
                        if j == queue@.len() - 1 {
                            assert(queue@[i] == q0[i]);
                        } else {
                            assert(queue@[i] == q0[i] && queue@[j] == q0[j]);
                        }
                    }
                    assert forall|yy: int, xx: int|
                        0 <= yy < h && 0 <= xx < w && (yy < y || (yy == y && xx < x + 1))
                            && strong_at(*supp, high_pm, yy, xx)
                        implies queue@.contains((yy as usize, xx as usize)) by {
                        if yy == y && xx == x {
                            assert(queue@[queue@.len() - 1] == (y, x));
                        } else {
                            let k = choose|k: int|
                                0 <= k < q0.len() && q0[k] == (yy as usize, xx as usize);
                            assert(queue@[k] == (yy as usize, xx as usize));
                        }
                    }
                }
            } else {
                proof {
                    assert forall|yy: int, xx: int|
                        0 <= yy < h && 0 <= xx < w && (yy < y || (yy == y && xx < x + 1))
                            && strong_at(*supp, high_pm, yy, xx)
                        implies queue@.contains((yy as usize, xx as usize)) by {
                        let k = choose|k: int|
                            0 <= k < queue@.len() && queue@[k] == (yy as usize, xx as usize);
                    }
                }
            }
            x = x + 1;
        }
        y = y + 1;
    }

    proof {
        assert forall|yy: int, xx: int|
            0 <= yy < h && 0 <= xx < w && #[trigger] edges.at(yy, xx)
            implies edge_reach(*supp, low_pm, high_pm, yy, xx) by {
            lemma_reach_strong(*supp, low_pm, high_pm, yy, xx);
        }
    }

    // Flood fill: each dequeued pixel marks its unmarked weak
    // 8-neighbors and enqueues them.
    let mut head: usize = 0;
    while head < queue.len()
        invariant
            supp.wf(),
            strong.wf(),
            weak.wf(),
            edges.wf(),
            strong.same_dim(*supp),
            weak.same_dim(*supp),
            edges.same_dim(*supp),
            h == supp.h,
            w == supp.w,
            head <= queue.len(),
            forall|yy: int, xx: int|
                0 <= yy < h && 0 <= xx < w
                    ==> strong.at(yy, xx) == strong_at(*supp, high_pm, yy, xx),
            forall|yy: int, xx: int|
                0 <= yy < h && 0 <= xx < w
                    ==> weak.at(yy, xx) == weak_at(*supp, low_pm, high_pm, yy, xx),
            forall|yy: int, xx: int|
                0 <= yy < h && 0 <= xx < w && #[trigger] edges.at(yy, xx)
                    ==> edge_reach(*supp, low_pm, high_pm, yy, xx),
            forall|yy: int, xx: int|
                0 <= yy < h && 0 <= xx < w && strong_at(*supp, high_pm, yy, xx)
                    ==> edges.at(yy, xx),
            forall|j: int|
                0 <= j < queue.len()
                    ==> ((#[trigger] queue@[j]).0 < h && queue@[j].1 < w
                        && edges.at(queue@[j].0 as int, queue@[j].1 as int)),
            queue@.no_duplicates(),
            forall|yy: int, xx: int|
                0 <= yy < h && 0 <= xx < w && #[trigger] edges.at(yy, xx)
                    ==> queue@.contains((yy as usize, xx as usize)),
            forall|j: int, aa: int, bb: int|
                0 <= j < head && 0 <= aa < 3 && 0 <= bb < 3
                    ==> #[trigger] neighbor_done(*supp, low_pm, high_pm, *edges,
                        queue@[j].0 as int, queue@[j].1 as int, aa, bb),
        decreases h * w - head,
    {
        proof {
            lemma_coord_seq_len(queue@, h as int, w as int);
        }
        let (py, px) = queue[head];
        let mut a: usize = 0;
        while a < 3
            invariant
                supp.wf(),
                strong.wf(),
                weak.wf(),
                edges.wf(),
                strong.same_dim(*supp),
                weak.same_dim(*supp),
                edges.same_dim(*supp),
                h == supp.h,
                w == supp.w,
                a <= 3,
                head < queue.len(),
                (py, px) == queue@[head as int],
                py < h,
                px < w,
                forall|yy: int, xx: int|
                    0 <= yy < h && 0 <= xx < w
                        ==> strong.at(yy, xx) == strong_at(*supp, high_pm, yy, xx),
                forall|yy: int, xx: int|
                    0 <= yy < h && 0 <= xx < w
                        ==> weak.at(yy, xx) == weak_at(*supp, low_pm, high_pm, yy, xx),
                forall|yy: int, xx: int|
                    0 <= yy < h && 0 <= xx < w && #[trigger] edges.at(yy, xx)
                        ==> edge_reach(*supp, low_pm, high_pm, yy, xx),
                forall|yy: int, xx: int|
                    0 <= yy < h && 0 <= xx < w && strong_at(*supp, high_pm, yy, xx)
                        ==> edges.at(yy, xx),
                forall|j: int|
                    0 <= j < queue.len()
                        ==> ((#[trigger] queue@[j]).0 < h && queue@[j].1 < w
                            && edges.at(queue@[j].0 as int, queue@[j].1 as int)),
                queue@.no_duplicates(),
                forall|yy: int, xx: int|
                    0 <= yy < h && 0 <= xx < w && #[trigger] edges.at(yy, xx)
                        ==> queue@.contains((yy as usize, xx as usize)),
                forall|j: int, aa: int, bb: int|
                    0 <= j < head && 0 <= aa < 3 && 0 <= bb < 3
                        ==> #[trigger] neighbor_done(*supp, low_pm, high_pm, *edges,
                            queue@[j].0 as int, queue@[j].1 as int, aa, bb),
                forall|aa: int, bb: int|
                    0 <= aa < a && 0 <= bb < 3
                        ==> neighbor_done(*supp, low_pm, high_pm, *edges,
                            py as int, px as int, aa, bb),
            decreases 3 - a,
        {
            let mut b: usize = 0;
            while b < 3
                invariant
                    supp.wf(),
                    strong.wf(),
                    weak.wf(),
                    edges.wf(),
                    strong.same_dim(*supp),
                    weak.same_dim(*supp),
                    edges.same_dim(*supp),
                    h == supp.h,
                    w == supp.w,
                    a < 3,
                    b <= 3,
                    head < queue.len(),
                    (py, px) == queue@[head as int],
                    py < h,
                    px < w,
                    forall|yy: int, xx: int|
                        0 <= yy < h && 0 <= xx < w
                            ==> strong.at(yy, xx) == strong_at(*supp, high_pm, yy, xx),
                    forall|yy: int, xx: int|
                        0 <= yy < h && 0 <= xx < w
                            ==> weak.at(yy, xx) == weak_at(*supp, low_pm, high_pm, yy, xx),
                    forall|yy: int, xx: int|
                        0 <= yy < h && 0 <= xx < w && #[trigger] edges.at(yy, xx)
                            ==> edge_reach(*supp, low_pm, high_pm, yy, xx),
                    forall|yy: int, xx: int|
                        0 <= yy < h && 0 <= xx < w && strong_at(*supp, high_pm, yy, xx)
                            ==> edges.at(yy, xx),
                    forall|j: int|
                        0 <= j < queue.len()
                            ==> ((#[trigger] queue@[j]).0 < h && queue@[j].1 < w
                                && edges.at(queue@[j].0 as int, queue@[j].1 as int)),
                    queue@.no_duplicates(),
                    forall|yy: int, xx: int|
                        0 <= yy < h && 0 <= xx < w && #[trigger] edges.at(yy, xx)
                            ==> queue@.contains((yy as usize, xx as usize)),
                    forall|j: int, aa: int, bb: int|
                        0 <= j < head && 0 <= aa < 3 && 0 <= bb < 3
                            ==> #[trigger] neighbor_done(*supp, low_pm, high_pm, *edges,
                                queue@[j].0 as int, queue@[j].1 as int, aa, bb),
                    forall|aa: int, bb: int|
                        0 <= aa < a && 0 <= bb < 3
                            ==> neighbor_done(*supp, low_pm, high_pm, *edges,
                                py as int, px as int, aa, bb),
                    forall|bb: int|
                        0 <= bb < b
                            ==> neighbor_done(*supp, low_pm, high_pm, *edges,
                                py as int, px as int, a as int, bb),
                decreases 3 - b,
            {
                let ny_ok: bool = if a == 0 { py >= 1 } else if a == 2 { py + 1 < h } else { true };
                let nx_ok: bool = if b == 0 { px >= 1 } else if b == 2 { px + 1 < w } else { true };
                if ny_ok && nx_ok {
                    let ny: usize = if a == 0 { py - 1 } else if a == 2 { py + 1 } else { py };
                    let nx: usize = if b == 0 { px - 1 } else if b == 2 { px + 1 } else { px };
                    if weak.get(ny, nx) && !edges.get(ny, nx) {
                        proof {
                            lemma_reach_step(*supp, low_pm, high_pm,
                                py as int, px as int, ny as int, nx as int);
                        }
                        let ghost e0 = *edges;
                        edges.put(ny, nx, true);
                        let ghost q0 = queue@;
                        queue.push((ny, nx));
                        proof {
                            assert forall|j: int, aa: int, bb: int|
                                0 <= j < head && 0 <= aa < 3 && 0 <= bb < 3
                                implies #[trigger] neighbor_done(*supp, low_pm, high_pm, *edges,
                                    queue@[j].0 as int, queue@[j].1 as int, aa, bb) by {
                                assert(queue@[j] == q0[j]);
                                assert(neighbor_done(*supp, low_pm, high_pm, e0,
                                    q0[j].0 as int, q0[j].1 as int, aa, bb));
                            }
                            assert forall|aa: int, bb: int|
                                0 <= aa < a && 0 <= bb < 3
                                implies neighbor_done(*supp, low_pm, high_pm, *edges,
                                    py as int, px as int, aa, bb) by {
                                assert(neighbor_done(*supp, low_pm, high_pm, e0,
                                    py as int, px as int, aa, bb));
                            }
                            assert forall|bb: int|
                                0 <= bb < b
                                implies neighbor_done(*supp, low_pm, high_pm, *edges,
                                    py as int, px as int, a as int, bb) by {
                                assert(neighbor_done(*supp, low_pm, high_pm, e0,
                                    py as int, px as int, a as int, bb));
                            }
                            assert forall|i: int, j: int| 0 <= i < j < queue@.len()
                                implies queue@[i] != queue@[j] by {
                                if j == queue@.len() - 1 {
                                    assert(queue@[i] == q0[i]);
                                } else {
                                    assert(queue@[i] == q0[i] && queue@[j] == q0[j]);
                                }
                            }
                            assert forall|yy: int, xx: int|
                                0 <= yy < h && 0 <= xx < w && #[trigger] edges.at(yy, xx)
                                implies queue@.contains((yy as usize, xx as usize)) by {
                                if yy == ny && xx == nx {
                                    assert(queue@[queue@.len() - 1] == (ny, nx));
                                } else {
                                    let k = choose|k: int|
                                        0 <= k < q0.len() && q0[k] == (yy as usize, xx as usize);
                                    assert(queue@[k] == (yy as usize, xx as usize));
                                }
                            }
                        }
                    }
                }
                b = b + 1;
            }
            a = a + 1;
        }
        head = head + 1;
    }

    proof {
        assert forall|y: int, x: int|
            0 <= y < supp.h && 0 <= x < supp.w
            implies edges.at(y, x) == edge_reach(*supp, low_pm, high_pm, y, x) by {
            if edge_reach(*supp, low_pm, high_pm, y, x) {
                assert forall|py: int, px: int, yy: int, xx: int|
                    in_bounds(*supp, py, px) && in_bounds(*supp, yy, xx)
                        && #[trigger] edges.at(py, px)
                        && weak_at(*supp, low_pm, high_pm, yy, xx)
                        && adj8((py, px), (yy, xx))
                    implies #[trigger] edges.at(yy, xx) by {
                    assert(queue@.contains((py as usize, px as usize)));
                    let j = choose|j: int|
                        0 <= j < queue@.len() && queue@[j] == (py as usize, px as usize);
                    let aa = yy - py + 1;
                    let bb = xx - px + 1;
                    assert(neighbor_done(*supp, low_pm, high_pm, *edges, py, px, aa, bb));
                }
                let path = choose|path: Seq<(int, int)>|
                    is_weak_path(*supp, low_pm, high_pm, path) && path.last() == (y, x);
                lemma_closed_reach(*supp, low_pm, high_pm, *edges, path);
            }
        }
    }
}

/// The weak 8-neighbor of `(py, px)` at offset `(aa - 1, bb - 1)`, if it
/// exists, is already marked.
pub open spec fn neighbor_done(
    g: Grid<u32>,
    lo: u32,
    hi: u32,
    edges: Mask,
    py: int,
    px: int,
    aa: int,
    bb: int,
) -> bool {
    let ny = py + aa - 1;
    let nx = px + bb - 1;
    (0 <= ny < g.h && 0 <= nx < g.w && weak_at(g, lo, hi, ny, nx)) ==> edges.at(ny, nx)
}


/// Flat data index `i` of a well-formed grid corresponds to the pixel
/// `(i / w, i % w)`.
pub proof fn lemma_flat_coords(h: int, w: int, i: int)
    requires
        0 <= i < h * w,
        0 < w,
    ensures
        0 <= i / w < h,
        0 <= i % w < w,
        (i / w) * w + i % w == i,
{
    vstd::arithmetic::div_mod::lemma_fundamental_div_mod(i, w);
    vstd::arithmetic::div_mod::lemma_mod_bound(i, w);
    assert(i / w < h) by (nonlinear_arith)
        requires
            i == w * (i / w) + i % w,
            0 <= i % w < w,
            i < h * w,
            0 < w,
    ;
    assert(i / w >= 0) by (nonlinear_arith)
        requires
            i == w * (i / w) + i % w,
            0 <= i % w < w,
            0 <= i,
            0 < w,
    ;
    assert((i / w) * w + i % w == i) by (nonlinear_arith)
        requires
            i == w * (i / w) + i % w,
    ;
}

/// Hysteresis is idempotent.  Re-encode any edge mask `m` as a 0/1
/// magnitude grid `g2`; as long as the high threshold is a proper
/// fraction, thresholding `g2` marks exactly the pixels of `m` again.
/// In particular, running hysteresis on its own output (the mask of
/// pixels reachable from strong pixels of some grid `g`) reproduces
/// that mask unchanged.
pub proof fn lemma_hysteresis_idempotent(m: Mask, g2: Grid<u32>, lo: u32, hi: u32)
    requires
        m.wf(),
        g2.wf(),
        g2.same_dim(m),
        hi < 10000,
        forall|y: int, x: int|
            0 <= y < m.h && 0 <= x < m.w
                ==> g2.at(y, x) == if m.at(y, x) { 1u32 } else { 0u32 },
    ensures
        forall|y: int, x: int|
            0 <= y < m.h && 0 <= x < m.w
                ==> edge_reach(g2, lo, hi, y, x) == m.at(y, x),
{
    let h = m.h as int;
    let w = m.w as int;
    lemma_seq_max_u32(g2.data@);
    assert forall|i: int| 0 <= i < g2.data@.len()
        implies g2.data@[i] <= 1 by {
        lemma_flat_coords(h, w, i);
        assert(g2.at(i / w, i % w) == g2.data@[i]);
    }
    if exists|y: int, x: int| 0 <= y < h && 0 <= x < w && #[trigger] m.at(y, x) {
        let (sy, sx) = choose|y: int, x: int|
            0 <= y < h && 0 <= x < w && #[trigger] m.at(y, x);
        lemma_row_major(sy, sx, h, w);
        assert(g2.data@[sy * w + sx] == g2.at(sy, sx));
        assert(grid_max_of(g2) == 1);
        assert forall|y: int, x: int| 0 <= y < h && 0 <= x < w
            implies strong_at(g2, hi, y, x) == m.at(y, x) by {
            if m.at(y, x) {
                assert(g2.at(y, x) == 1);
            } else {
                assert(g2.at(y, x) == 0);
            }
        }
        assert forall|y: int, x: int| 0 <= y < h && 0 <= x < w
            implies !weak_at(g2, lo, hi, y, x) by {}
        assert forall|y: int, x: int| 0 <= y < h && 0 <= x < w
            implies edge_reach(g2, lo, hi, y, x) == m.at(y, x) by {
            if m.at(y, x) {
                lemma_reach_strong(g2, lo, hi, y, x);
            } else {
                if edge_reach(g2, lo, hi, y, x) {
                    let path = choose|path: Seq<(int, int)>|
                        is_weak_path(g2, lo, hi, path) && path.last() == (y, x);
                    if path.len() == 1 {
                        assert(strong_at(g2, hi, y, x));
                    } else {
                        let n = path.len() - 1;
                        assert(weak_at(g2, lo, hi, path[n].0, path[n].1));
                    }
                }
            }
        }
    } else {
        assert forall|i: int| 0 <= i < g2.data@.len()
            implies g2.data@[i] == 0 by {
            lemma_flat_coords(h, w, i);
            assert(g2.at(i / w, i % w) == g2.data@[i]);
            assert(!m.at(i / w, i % w));
        }
        assert(grid_max_of(g2) == 0) by {
            if g2.data@.len() > 0 {
                let i = choose|i: int|
                    0 <= i < g2.data@.len() && g2.data@[i] == seq_max_u32(g2.data@);
            }
        }
        assert forall|y: int, x: int| 0 <= y < h && 0 <= x < w
            implies edge_reach(g2, lo, hi, y, x) == m.at(y, x) by {
            if edge_reach(g2, lo, hi, y, x) {
                let path = choose|path: Seq<(int, int)>|
                    is_weak_path(g2, lo, hi, path) && path.last() == (y, x);
                assert(strong_at(g2, hi, path[0].0, path[0].1));
            }
        }
    }
}

} // verus!

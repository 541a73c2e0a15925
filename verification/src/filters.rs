//! Geometric candidate filters, applied in the order ratio, angle,
//! enclosure.
//!
//! All acceptance conditions are exact integer forms of the ratio and
//! angle thresholds over the Euclidean side lengths:
//! a side ratio is at most 1.3 exactly when `100 * max^2 <= 169 * min^2`
//! over squared lengths; the average-horizontal to average-vertical
//! ratio is at most 1.5 exactly when `avg_ratio_le` holds of the
//! squared lengths, which decides `2*(sqrt + sqrt) <= 3*(sqrt + sqrt)`
//! by isolating and squaring the radicals; and a corner angle lies
//! within 30 degrees of a right angle exactly when
//! `4 * dot^2 <= |u|^2 * |v|^2` for its signed edge vectors `u` and
//! `v`, since `|cos|` is at most one half.  The angle convention used
//! throughout: edges are taken around the cycle top-left, bottom-left,
//! bottom-right, top-right.

use vstd::prelude::*;
use crate::types::{Point, Corners, Quads};
use crate::detector::Detector;

verus! {

/// Coordinates small enough for all filter arithmetic — including the
/// twice-squared radical comparisons of the 1.5-ratio test — to stay
/// exact in 128 bits: frames up to 4096 pixels a side.
pub open spec fn pt_small(p: Point) -> bool {
    p.0 < 0x1000 && p.1 < 0x1000
}

/// All four corners of the quad have small coordinates.
pub open spec fn quad_small(q: Corners) -> bool {
    pt_small(q.0) && pt_small(q.1) && pt_small(q.2) && pt_small(q.3)
}

/// Every quad of the list has small coordinates.
pub open spec fn quads_small(qs: Seq<Corners>) -> bool {
    forall|i: int| 0 <= i < qs.len() ==> quad_small(#[trigger] qs[i])
}

/// The squared distance between two points.
pub open spec fn dist2(a: Point, b: Point) -> int {
    (a.0 - b.0) * (a.0 - b.0) + (a.1 - b.1) * (a.1 - b.1)
}

/// Exact decision of `2*(sqrt(a) + sqrt(b)) <= 3*(sqrt(c) + sqrt(d))`
/// for nonnegative integers, radical-free.  Squaring once turns the
/// test into `8*sqrt(a*b) <= s + 18*sqrt(c*d)` with
/// `s = 9*(c + d) - 4*(a + b)`; that fails when the right side is
/// negative (`s < 0` and `324*c*d < s*s`), and otherwise squaring once
/// more against `u = 64*a*b - s*s - 324*c*d` decides it:
/// `u <= 2*s*18*sqrt(c*d)`, settled by sign analysis and one final
/// squaring.
pub open spec fn avg_ratio_le(a: int, b: int, c: int, d: int) -> bool {
    let s = 9 * (c + d) - 4 * (a + b);
    if s < 0 && 324 * (c * d) < s * s {
        false
    } else {
        let u = 64 * (a * b) - s * s - 324 * (c * d);
        if u <= 0 {
            s >= 0 || 1296 * ((s * s) * (c * d)) <= u * u
        } else {
            s > 0 && u * u <= 1296 * ((s * s) * (c * d))
        }
    }
}

/// Decide `avg_ratio_le` in exact 128-bit arithmetic.
fn avg_ratio_le_exec(a: i128, b: i128, c: i128, d: i128) -> (r: bool)
    requires
        0 <= a <= 0x200_0000,
        0 <= b <= 0x200_0000,
        0 <= c <= 0x200_0000,
        0 <= d <= 0x200_0000,
    ensures
        r == avg_ratio_le(a as int, b as int, c as int, d as int),
{
    let s: i128 = 9 * (c + d) - 4 * (a + b);
    proof {
        assert(0 <= (c as int) * (d as int) <= 0x4_0000_0000_0000
            && 0 <= (a as int) * (b as int) <= 0x4_0000_0000_0000
            && 0 <= (s as int) * (s as int) <= 0x800_0000_0000_0000) by (nonlinear_arith)
            requires
                0 <= a as int <= 0x200_0000,
                0 <= b as int <= 0x200_0000,
                0 <= c as int <= 0x200_0000,
                0 <= d as int <= 0x200_0000,
                -0x2400_0000 <= s as int <= 0x2400_0000,
        ;
    }
    if s < 0 && 324 * (c * d) < s * s {
        false
    } else {
        let u: i128 = 64 * (a * b) - s * s - 324 * (c * d);
        proof {
            assert(0 <= (u as int) * (u as int)
                <= 0x400_0000_0000_0000_0000_0000_0000_0000
                && 0 <= ((s as int) * (s as int)) * ((c as int) * (d as int))
                    <= 0x2_0000_0000_0000_0000_0000_0000_0000) by (nonlinear_arith)
                requires
                    -0x2000_0000_0000_0000 <= u as int <= 0x2000_0000_0000_0000,
                    0 <= (s as int) * (s as int) <= 0x800_0000_0000_0000,
                    0 <= (c as int) * (d as int) <= 0x4_0000_0000_0000,
            ;
        }
        if u <= 0 {
            s >= 0 || 1296 * ((s * s) * (c * d)) <= u * u
        } else {
            s > 0 && u * u <= 1296 * ((s * s) * (c * d))
        }
    }
}

/// The ratio acceptance test: no zero side, opposite sides within
/// ratio 1.3 of each other, and the average horizontal and vertical
/// side lengths within ratio 1.5 of each other, both exactly over the
/// squared Euclidean lengths.
pub open spec fn ratio_ok(q: Corners) -> bool {
    let t2 = dist2(q.0, q.1);
    let b2 = dist2(q.2, q.3);
    let l2 = dist2(q.0, q.2);
    let r2 = dist2(q.1, q.3);
    &&& t2 > 0
    &&& b2 > 0
    &&& l2 > 0
    &&& r2 > 0
    &&& 100 * t2 <= 169 * b2
    &&& 100 * b2 <= 169 * t2
    &&& 100 * l2 <= 169 * r2
    &&& 100 * r2 <= 169 * l2
    &&& avg_ratio_le(t2, b2, l2, r2)
    &&& avg_ratio_le(l2, r2, t2, b2)
}

/// One corner's angle test: both adjacent edges have nonzero length
/// and the angle between them is within 30 degrees of a right angle,
/// i.e. `4 * dot^2 <= |u|^2 * |v|^2`.
pub open spec fn angle_ok_vals(ux: int, uy: int, vx: int, vy: int) -> bool {
    let a2 = ux * ux + uy * uy;
    let b2 = vx * vx + vy * vy;
    let d = ux * vx + uy * vy;
    a2 != 0 && b2 != 0 && 4 * (d * d) <= a2 * b2
}

pub open spec fn angle_ok_at(c0: Point, c1: Point, c2: Point) -> bool {
    angle_ok_vals(c1.0 - c0.0, c1.1 - c0.1, c2.0 - c1.0, c2.1 - c1.1)
}

/// The angle acceptance test at all four corners, around the cycle
/// top-left, bottom-left, bottom-right, top-right.
pub open spec fn angles_ok(q: Corners) -> bool {
    let tl = q.0;
    let tr = q.1;
    let bl = q.2;
    let br = q.3;
    &&& angle_ok_at(tr, tl, bl)
    &&& angle_ok_at(tl, bl, br)
    &&& angle_ok_at(bl, br, tr)
    &&& angle_ok_at(br, tr, tl)
}

/// The quads passing the ratio test, kept in order.
pub open spec fn ratio_filter_spec(qs: Seq<Corners>) -> Seq<Corners>
    decreases qs.len(),
{
    if qs.len() == 0 {
        Seq::empty()
    } else {
        let pre = ratio_filter_spec(qs.drop_last());
        if ratio_ok(qs.last()) {
            pre.push(qs.last())
        } else {
            pre
        }
    }
}

/// The quads passing the angle test, kept in order.
pub open spec fn angle_filter_spec(qs: Seq<Corners>) -> Seq<Corners>
    decreases qs.len(),
{
    if qs.len() == 0 {
        Seq::empty()
    } else {
        let pre = angle_filter_spec(qs.drop_last());
        if angles_ok(qs.last()) {
            pre.push(qs.last())
        } else {
            pre
        }
    }
}

/// An axis-aligned bounding box.
#[derive(Debug, Clone, Copy, PartialEq, Eq, Structural)]
pub struct Bounds {
    pub l: u32,
    pub r: u32,
    pub t: u32,
    pub b: u32,
}

/// The bounding box of a quad: left from the left corners, right from
/// the right corners, top from the top corners, bottom from the
/// bottom corners.
pub open spec fn bounds_spec(q: Corners) -> Bounds {
    Bounds {
        l: if q.0.0 <= q.2.0 { q.0.0 } else { q.2.0 },
        r: if q.1.0 >= q.3.0 { q.1.0 } else { q.3.0 },
        t: if q.0.1 <= q.1.1 { q.0.1 } else { q.1.1 },
        b: if q.2.1 >= q.3.1 { q.2.1 } else { q.3.1 },
    }
}

/// Compute a quad's bounding box.
pub fn bounds(q: &Corners) -> (r: Bounds)
    ensures
        r == bounds_spec(*q),
{
    let (tl, tr, bl, br) = *q;
    Bounds {
        l: if tl.0 <= bl.0 { tl.0 } else { bl.0 },
        r: if tr.0 >= br.0 { tr.0 } else { br.0 },
        t: if tl.1 <= tr.1 { tl.1 } else { tr.1 },
        b: if bl.1 >= br.1 { bl.1 } else { br.1 },
    }
}

/// `a` strictly contains `b`: all four sides of `b` lie strictly
/// inside `a`.
pub open spec fn strictly_contains(a: Bounds, b: Bounds) -> bool {
    a.l < b.l && a.r > b.r && a.t < b.t && a.b > b.b
}

/// Quad `i` survives the enclosure filter: no other quad's bounding
/// box strictly contains its bounding box.
pub open spec fn not_enclosed(qs: Seq<Corners>, i: int) -> bool {
    forall|j: int|
        0 <= j < qs.len() && j != i
            ==> !strictly_contains(bounds_spec(#[trigger] qs[j]), bounds_spec(qs[i]))
}

/// The first `k` quads surviving the enclosure filter, in order.
pub open spec fn enclosure_prefix(qs: Seq<Corners>, k: int) -> Seq<Corners>
    decreases k,
{
    if k <= 0 {
        Seq::empty()
    } else {
        let pre = enclosure_prefix(qs, k - 1);
        if not_enclosed(qs, k - 1) {
            pre.push(qs[k - 1])
        } else {
            pre
        }
    }
}

/// The quads surviving the enclosure filter, in order.
pub open spec fn enclosure_spec(qs: Seq<Corners>) -> Seq<Corners> {
    enclosure_prefix(qs, qs.len() as int)
}

/// Every quad kept by the ratio filter passes the ratio test.
proof fn lemma_ratio_filter_sound(qs: Seq<Corners>)
    ensures
        forall|i: int|
            0 <= i < ratio_filter_spec(qs).len()
                ==> ratio_ok(#[trigger] ratio_filter_spec(qs)[i]),
    decreases qs.len(),
{
    if qs.len() > 0 {
        lemma_ratio_filter_sound(qs.drop_last());
        assert forall|i: int|
            0 <= i < ratio_filter_spec(qs).len()
            implies ratio_ok(#[trigger] ratio_filter_spec(qs)[i]) by {
            let pre = ratio_filter_spec(qs.drop_last());
            if i < pre.len() {
                assert(ratio_filter_spec(qs)[i] == pre[i]);
            } else {
                assert(ratio_filter_spec(qs)[i] == qs.last());
            }
        }
    }
}

/// Every quad kept by the angle filter passes the angle test.
proof fn lemma_angle_filter_sound(qs: Seq<Corners>)
    ensures
        forall|i: int|
            0 <= i < angle_filter_spec(qs).len()
                ==> angles_ok(#[trigger] angle_filter_spec(qs)[i]),
    decreases qs.len(),
{
    if qs.len() > 0 {
        lemma_angle_filter_sound(qs.drop_last());
        assert forall|i: int|
            0 <= i < angle_filter_spec(qs).len()
            implies angles_ok(#[trigger] angle_filter_spec(qs)[i]) by {
            let pre = angle_filter_spec(qs.drop_last());
            if i < pre.len() {
                assert(angle_filter_spec(qs)[i] == pre[i]);
            } else {
                assert(angle_filter_spec(qs)[i] == qs.last());
            }
        }
    }
}

/// A filtered sequence built by `push` keeps only input elements.
proof fn lemma_ratio_filter_sub(qs: Seq<Corners>)
    ensures
        forall|i: int|
            0 <= i < ratio_filter_spec(qs).len()
                ==> qs.contains(#[trigger] ratio_filter_spec(qs)[i]),
    decreases qs.len(),
{
    if qs.len() > 0 {
        lemma_ratio_filter_sub(qs.drop_last());
        assert forall|i: int|
            0 <= i < ratio_filter_spec(qs).len()
            implies qs.contains(#[trigger] ratio_filter_spec(qs)[i]) by {
            let pre = ratio_filter_spec(qs.drop_last());
            if i < pre.len() {
                assert(qs.drop_last().contains(pre[i]));
                let j = choose|j: int| 0 <= j < qs.drop_last().len() && qs.drop_last()[j] == pre[i];
                assert(qs[j] == pre[i]);
            } else {
                assert(ratio_filter_spec(qs)[i] == qs.last());
                assert(qs[qs.len() - 1] == qs.last());
            }
        }
    }
}

proof fn lemma_angle_filter_sub(qs: Seq<Corners>)
    ensures
        forall|i: int|
            0 <= i < angle_filter_spec(qs).len()
                ==> qs.contains(#[trigger] angle_filter_spec(qs)[i]),
    decreases qs.len(),
{
    if qs.len() > 0 {
        lemma_angle_filter_sub(qs.drop_last());
        assert forall|i: int|
            0 <= i < angle_filter_spec(qs).len()
            implies qs.contains(#[trigger] angle_filter_spec(qs)[i]) by {
            let pre = angle_filter_spec(qs.drop_last());
            if i < pre.len() {
                assert(qs.drop_last().contains(pre[i]));
                let j = choose|j: int| 0 <= j < qs.drop_last().len() && qs.drop_last()[j] == pre[i];
                assert(qs[j] == pre[i]);
            } else {
                assert(angle_filter_spec(qs)[i] == qs.last());
                assert(qs[qs.len() - 1] == qs.last());
            }
        }
    }
}

proof fn lemma_enclosure_sub(qs: Seq<Corners>, k: int)
    requires
        0 <= k <= qs.len(),
    ensures
        forall|i: int|
            0 <= i < enclosure_prefix(qs, k).len()
                ==> qs.contains(#[trigger] enclosure_prefix(qs, k)[i]),
    decreases k,
{
    if k > 0 {
        lemma_enclosure_sub(qs, k - 1);
        assert forall|i: int|
            0 <= i < enclosure_prefix(qs, k).len()
            implies qs.contains(#[trigger] enclosure_prefix(qs, k)[i]) by {
            let pre = enclosure_prefix(qs, k - 1);
            if i >= pre.len() {
                assert(enclosure_prefix(qs, k)[i] == qs[k - 1]);
            }
        }
    }
}

impl Detector {
    /// Keep the quads whose side lengths pass the ratio tests.
    pub fn filter_ratios(&self, quads: Quads) -> (res: Quads)
        requires
            quads_small(quads@),
        ensures
            res@ == ratio_filter_spec(quads@),
            forall|i: int| 0 <= i < res@.len() ==> quads@.contains(#[trigger] res@[i]),
            forall|i: int| 0 <= i < res@.len() ==> ratio_ok(#[trigger] res@[i]),
    {
        let n = quads.len();
        let mut res: Quads = Vec::new();
        let mut i: usize = 0;
        while i < n
            invariant
                n == quads@.len(),
                i <= n,
                quads_small(quads@),
                res@ == ratio_filter_spec(quads@.subrange(0, i as int)),
            decreases n - i,
        {
            let q = quads[i];
            let (tl, tr, bl, br) = q;
            let t2: i128 = dist2_exec(tl, tr);
            let b2: i128 = dist2_exec(bl, br);
            let l2: i128 = dist2_exec(tl, bl);
            let r2: i128 = dist2_exec(tr, br);
            let keep = if t2 > 0 && b2 > 0 && l2 > 0 && r2 > 0 {
                100 * t2 <= 169 * b2 && 100 * b2 <= 169 * t2 && 100 * l2 <= 169 * r2
                    && 100 * r2 <= 169 * l2 && avg_ratio_le_exec(t2, b2, l2, r2)
                    && avg_ratio_le_exec(l2, r2, t2, b2)
            } else {
                false
            };
            proof {
                assert(keep == ratio_ok(q));
            }
            if keep {
                res.push(q);
            }
            proof {
                let pre = quads@.subrange(0, i as int);
                let cur = quads@.subrange(0, i + 1);
                assert(cur.drop_last() =~= pre);
                assert(cur.last() == quads@[i as int]);
            }
            i = i + 1;
        }
        proof {
            assert(quads@.subrange(0, n as int) =~= quads@);
            lemma_ratio_filter_sub(quads@);
            lemma_ratio_filter_sound(quads@);
        }
        res
    }

    /// Keep the quads whose four corner angles are all within 30
    /// degrees of a right angle.
    pub fn filter_angles(&self, quads: Quads) -> (res: Quads)
        requires
            quads_small(quads@),
        ensures
            res@ == angle_filter_spec(quads@),
            forall|i: int| 0 <= i < res@.len() ==> quads@.contains(#[trigger] res@[i]),
            forall|i: int| 0 <= i < res@.len() ==> angles_ok(#[trigger] res@[i]),
    {
        let n = quads.len();
        let mut res: Quads = Vec::new();
        let mut i: usize = 0;
        while i < n
            invariant
                n == quads@.len(),
                i <= n,
                quads_small(quads@),
                res@ == angle_filter_spec(quads@.subrange(0, i as int)),
            decreases n - i,
        {
            let q = quads[i];
            let (tl, tr, bl, br) = q;
            let keep = angle_ok_exec(tr, tl, bl) && angle_ok_exec(tl, bl, br)
                && angle_ok_exec(bl, br, tr) && angle_ok_exec(br, tr, tl);
            proof {
                assert(keep == angles_ok(q));
            }
            if keep {
                res.push(q);
            }
            proof {
                let pre = quads@.subrange(0, i as int);
                let cur = quads@.subrange(0, i + 1);
                assert(cur.drop_last() =~= pre);
                assert(cur.last() == quads@[i as int]);
            }
            i = i + 1;
        }
        proof {
            assert(quads@.subrange(0, n as int) =~= quads@);
            lemma_angle_filter_sub(quads@);
            lemma_angle_filter_sound(quads@);
        }
        res
    }

    /// Keep the quads whose bounding box is strictly contained in no
    /// other quad's bounding box.
    pub fn filter_enclosed(&self, quads: Quads) -> (res: Quads)
        ensures
            res@ == enclosure_spec(quads@),
            forall|i: int| 0 <= i < res@.len() ==> quads@.contains(#[trigger] res@[i]),
    {
        let n = quads.len();
        let mut bds: Vec<Bounds> = Vec::new();
        let mut i: usize = 0;
        while i < n
            invariant
                n == quads@.len(),
                i <= n,
                bds@.len() == i,
                forall|j: int| 0 <= j < i ==> bds@[j] == bounds_spec(#[trigger] quads@[j]),
            decreases n - i,
        {
            let b = bounds(&quads[i]);
            bds.push(b);
            i = i + 1;
        }
        let mut res: Quads = Vec::new();
        let mut i: usize = 0;
        while i < n
            invariant
                n == quads@.len(),
                i <= n,
                bds@.len() == n,
                forall|j: int| 0 <= j < n ==> bds@[j] == bounds_spec(#[trigger] quads@[j]),
                res@ == enclosure_prefix(quads@, i as int),
            decreases n - i,
        {
            let bd = bds[i];
            let mut hit = false;
            let mut j: usize = 0;
            while j < n
                invariant
                    n == quads@.len(),
                    i < n,
                    j <= n,
                    bds@.len() == n,
                    bd == bds@[i as int],
                    forall|t: int| 0 <= t < n ==> bds@[t] == bounds_spec(#[trigger] quads@[t]),
                    hit ==> exists|t: int|
                        0 <= t < j && t != i
                            && strictly_contains(bounds_spec(#[trigger] quads@[t]),
                                bounds_spec(quads@[i as int])),
                    !hit ==> forall|t: int|
                        0 <= t < j && t != i
                            ==> !strictly_contains(bounds_spec(#[trigger] quads@[t]),
                                bounds_spec(quads@[i as int])),
                decreases n - j,
            {
                if j != i {
                    let o = bds[j];
                    if o.l < bd.l && o.r > bd.r && o.t < bd.t && o.b > bd.b {
                        hit = true;
                        proof {
                            assert(strictly_contains(bounds_spec(quads@[j as int]),
                                bounds_spec(quads@[i as int])));
                        }
                    }
                }
                j = j + 1;
            }
            proof {
                if hit {
                    assert(!not_enclosed(quads@, i as int));
                } else {
                    assert forall|t: int|
                        0 <= t < quads@.len() && t != i as int
                        implies !strictly_contains(bounds_spec(#[trigger] quads@[t]),
                            bounds_spec(quads@[i as int])) by {}
                    assert(not_enclosed(quads@, i as int));
                }
            }
            if !hit {
                res.push(quads[i]);
            }
            i = i + 1;
        }
        proof {
            lemma_enclosure_sub(quads@, n as int);
        }
        res
    }
}

/// The squared distance, in exact 128-bit arithmetic.
fn dist2_exec(a: Point, b: Point) -> (r: i128)
    requires
        pt_small(a),
        pt_small(b),
    ensures
        r as int == dist2(a, b),
        0 <= r as int <= 0x200_0000,
{
    let dx: i64 = a.0 as i64 - b.0 as i64;
    let dy: i64 = a.1 as i64 - b.1 as i64;
    proof {
        assert((dx as int) * (dx as int) + (dy as int) * (dy as int) <= 0x200_0000
            && 0 <= (dx as int) * (dx as int) && 0 <= (dy as int) * (dy as int))
            by (nonlinear_arith)
            requires
                -0xFFF <= dx as int <= 0xFFF,
                -0xFFF <= dy as int <= 0xFFF,
        ;
    }
    (dx as i128) * (dx as i128) + (dy as i128) * (dy as i128)
}

/// One corner's angle test, in exact 128-bit arithmetic.
fn angle_ok_exec(c0: Point, c1: Point, c2: Point) -> (r: bool)
    requires
        pt_small(c0),
        pt_small(c1),
        pt_small(c2),
    ensures
        r == angle_ok_at(c0, c1, c2),
{
    let ux: i64 = c1.0 as i64 - c0.0 as i64;
    let uy: i64 = c1.1 as i64 - c0.1 as i64;
    let vx: i64 = c2.0 as i64 - c1.0 as i64;
    let vy: i64 = c2.1 as i64 - c1.1 as i64;
    proof {
        assert(-0x400_0000_0000_0000 <= (ux as int) * (vx as int) <= 0x400_0000_0000_0000
            && -0x400_0000_0000_0000 <= (uy as int) * (vy as int) <= 0x400_0000_0000_0000
            && 0 <= (ux as int) * (ux as int) <= 0x400_0000_0000_0000
            && 0 <= (uy as int) * (uy as int) <= 0x400_0000_0000_0000
            && 0 <= (vx as int) * (vx as int) <= 0x400_0000_0000_0000
            && 0 <= (vy as int) * (vy as int) <= 0x400_0000_0000_0000) by (nonlinear_arith)
            requires
                -0xFFF <= ux as int <= 0xFFF,
                -0xFFF <= uy as int <= 0xFFF,
                -0xFFF <= vx as int <= 0xFFF,
                -0xFFF <= vy as int <= 0xFFF,
        ;
    }
    let a2: i128 = (ux as i128) * (ux as i128) + (uy as i128) * (uy as i128);
    let b2: i128 = (vx as i128) * (vx as i128) + (vy as i128) * (vy as i128);
    let d: i128 = (ux as i128) * (vx as i128) + (uy as i128) * (vy as i128);
    proof {
        assert(0 <= (a2 as int) * (b2 as int) <= 0x40_0000_0000_0000_0000_0000_0000_0000
            && 0 <= (d as int) * (d as int) <= 0x40_0000_0000_0000_0000_0000_0000_0000)
            by (nonlinear_arith)
            requires
                0 <= a2 as int <= 0x800_0000_0000_0000,
                0 <= b2 as int <= 0x800_0000_0000_0000,
                -0x800_0000_0000_0000 <= d as int <= 0x800_0000_0000_0000,
        ;
    }
    let res = a2 != 0 && b2 != 0 && 4 * (d * d) <= a2 * b2;
    proof {
        assert(a2 as int == (ux as int) * (ux as int) + (uy as int) * (uy as int));
        assert(b2 as int == (vx as int) * (vx as int) + (vy as int) * (vy as int));
        assert(d as int == (ux as int) * (vx as int) + (uy as int) * (vy as int));
        assert(res == angle_ok_vals(ux as int, uy as int, vx as int, vy as int));
        assert(angle_ok_at(c0, c1, c2)
            == angle_ok_vals(ux as int, uy as int, vx as int, vy as int));
    }
    res
}

/// With the enclosure filter on, of two nested quads only the outer
/// one survives: if the outer bounding box strictly contains the
/// inner one, filtering the pair keeps exactly the outer quad.
pub proof fn lemma_enclosure_nested(outer: Corners, inner: Corners)
    requires
        strictly_contains(bounds_spec(outer), bounds_spec(inner)),
    ensures
        enclosure_spec(seq![outer, inner]) == seq![outer],
{
    let qs = seq![outer, inner];
    assert(not_enclosed(qs, 0)) by {
        assert forall|j: int|
            0 <= j < qs.len() && j != 0
            implies !strictly_contains(bounds_spec(#[trigger] qs[j]), bounds_spec(qs[0])) by {
            assert(qs[j] == inner);
        }
    }
    assert(!not_enclosed(qs, 1)) by {
        assert(strictly_contains(bounds_spec(qs[0]), bounds_spec(qs[1])));
    }
    assert(enclosure_prefix(qs, 0) =~= Seq::<Corners>::empty());
    assert(enclosure_prefix(qs, 1) =~= seq![outer]);
    assert(enclosure_prefix(qs, 2) =~= seq![outer]);
    assert(enclosure_spec(qs) =~= seq![outer]);
}

} // verus!

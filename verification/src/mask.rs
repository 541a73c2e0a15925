//! The two mask-producing stages: Canny edges and Harris corners.
//!
//! `canny` blurs the image, takes Sobel gradients, quantizes the
//! gradient direction without trigonometry, suppresses non-maxima and
//! applies hysteresis; its result is the workspace's edge mask.
//! `harris` takes Sobel gradients of the raw image, smooths the three
//! structure-tensor products, forms the scaled response
//! `10000 * det - k_pm * trace^2`, and keeps every pixel that beats the
//! relative threshold and is the maximum of its 7 by 7 window; its
//! result is the workspace's corner mask.

use vstd::prelude::*;
use crate::grid::Grid;
use crate::types::Lightness;
use crate::config::Config;
use crate::oper::{blur, sobel, blur_prod, interior, sobel_x_at, sobel_y_at, blur_at, blur64_at};
use crate::post::{nms, nms_at, hysteresis, strong_at, weak_at, edge_reach};
use crate::ws::{CannyWorkspace, HarrisWorkspace};

verus! {

/// The quantized gradient direction as a pixel step `(dx, dy)`:
/// horizontal, vertical, or one of the two diagonals, decided by the
/// ratio `|gy| / |gx|` against tan 22.5 and tan 67.5 degrees
/// (0.4142 and 2.4142) and the sign of `gx * gy`.
pub open spec fn orient_of(gx: int, gy: int) -> (i8, i8) {
    let ax = if gx < 0 { -gx } else { gx };
    let ay = if gy < 0 { -gy } else { gy };
    if 10000 * ay <= 4142 * ax {
        (1i8, 0i8)
    } else if 10000 * ay >= 24142 * ax {
        (0i8, 1i8)
    } else if gx * gy > 0 {
        (1i8, 1i8)
    } else {
        (1i8, -1i8)
    }
}

/// The integer square root: the greatest `r` with `r * r <= n`.
pub fn isqrt_u32(n: u32) -> (r: u32)
    ensures
        (r as int) * (r as int) <= n as int,
        (n as int) < (r as int + 1) * (r as int + 1),
{
    let mut r: u32 = 0;
    loop
        invariant
            r <= 65535,
            (r as int) * (r as int) <= n as int,
        ensures
            (r as int) * (r as int) <= n as int,
            (n as int) < (r as int + 1) * (r as int + 1),
        decreases 65536 - r,
    {
        let q: u32 = r + 1;
        proof {
            assert((q as int) * (q as int) <= 4294967296) by (nonlinear_arith)
                requires
                    0 <= q as int <= 65536,
            ;
        }
        let sq: u64 = (q as u64) * (q as u64);
        if sq <= n as u64 {
            r = q;
            proof {
                assert(r as int <= 65535) by (nonlinear_arith)
                    requires
                        (r as int) * (r as int) <= n as int,
                        (n as int) < 4294967296,
                        0 <= r as int,
                ;
            }
        } else {
            break;
        }
    }
    r
}

/// The scaled Harris response of one pixel's smoothed structure
/// tensor: `10000 * det - k_pm * trace^2`, an exact integer form of
/// `det - k * trace^2` with `k = k_pm / 10000`.
pub open spec fn harris_resp_of(sxx: int, syy: int, sxy: int, k_pm: int) -> int {
    10000 * (sxx * syy - sxy * sxy) - k_pm * ((sxx + syy) * (sxx + syy))
}

/// The largest element of the sequence, or 0 when it is empty.
pub open spec fn seq_max_i64(s: Seq<i64>) -> i64
    decreases s.len(),
{
    if s.len() == 0 {
        0i64
    } else if s.len() == 1 {
        s[0]
    } else {
        let m = seq_max_i64(s.drop_last());
        if s.last() > m {
            s.last()
        } else {
            m
        }
    }
}

/// Every element is at most the maximum, and a nonempty sequence
/// attains it.
pub proof fn lemma_seq_max_i64(s: Seq<i64>)
    ensures
        forall|i: int| 0 <= i < s.len() ==> s[i] <= seq_max_i64(s),
        s.len() > 0 ==> exists|i: int| 0 <= i < s.len() && s[i] == seq_max_i64(s),
    decreases s.len(),
{
    if s.len() == 1 {
        assert(s[0] == seq_max_i64(s));
    } else if s.len() > 1 {
        lemma_seq_max_i64(s.drop_last());
        assert forall|i: int| 0 <= i < s.len() implies s[i] <= seq_max_i64(s) by {
            if i < s.len() - 1 {
                assert(s.drop_last()[i] == s[i]);
            }
        }
        if s.last() > seq_max_i64(s.drop_last()) {
            assert(s[s.len() - 1] == seq_max_i64(s));
        } else {
            let i = choose|i: int|
                0 <= i < s.len() - 1 && s.drop_last()[i] == seq_max_i64(s.drop_last());
            assert(s[i] == seq_max_i64(s));
        }
    }
}

/// The global maximum response of a grid.
pub open spec fn resp_max_of(g: Grid<i64>) -> int {
    seq_max_i64(g.data@) as int
}

/// The largest element of the grid, 0 for an empty grid.
pub fn resp_max(g: &Grid<i64>) -> (r: i64)
    requires
        g.wf(),
    ensures
        r as int == resp_max_of(*g),
{
    let n = g.data.len();
    if n == 0 {
        return 0;
    }
    let mut m: i64 = g.data[0];
    let mut i: usize = 1;
    proof {
        assert(g.data@.subrange(0, 1) =~= seq![g.data@[0]]);
    }
    while i < n
        invariant
            n == g.data.len(),
            1 <= i <= n,
            m == seq_max_i64(g.data@.subrange(0, i as int)),
        decreases n - i,
    {
        let v = g.data[i];
        proof {
            let pre = g.data@.subrange(0, i as int);
            let cur = g.data@.subrange(0, i + 1);
            assert(cur.drop_last() =~= pre);
            assert(cur.last() == g.data@[i as int]);
        }
        if v > m {
            m = v;
        }
        i = i + 1;
    }
    proof {
        assert(g.data@.subrange(0, n as int) =~= g.data@);
    }
    m
}

/// The pixel's response exceeds the fraction `t_pm / 10000` of the
/// frame's maximum response.
pub open spec fn harris_above(resp: Grid<i64>, t_pm: u32, y: int, x: int) -> bool {
    (resp.at(y, x) as int) * 10000 > (t_pm as int) * resp_max_of(resp)
}

/// The pixel's response is the maximum of the 7 by 7 window centered
/// on it, clamped at the borders.
pub open spec fn window_max_at(g: Grid<i64>, y: int, x: int) -> bool {
    forall|yy: int, xx: int|
        0 <= yy < g.h && 0 <= xx < g.w && y - 3 <= yy <= y + 3 && x - 3 <= xx <= x + 3
            ==> g.at(y, x) >= #[trigger] g.at(yy, xx)
}

/// Compute the integer gradient magnitude `isqrt(gx^2 + gy^2)` and the
/// quantized direction.  Gradients of the blurred image are only valid
/// with a margin of 3 (blur radius 2 plus Sobel radius 1), so pixels
/// outside that margin get magnitude 0 and a horizontal direction.
fn mag_orient(gx: &Grid<i32>, gy: &Grid<i32>, mag: &mut Grid<u32>, orient: &mut Grid<(i8, i8)>)
    requires
        gx.wf(),
        gy.wf(),
        old(mag).wf(),
        old(orient).wf(),
        gy.same_dim(*gx),
        old(mag).same_dim(*gx),
        old(orient).same_dim(*gx),
        forall|y: int, x: int|
            0 <= y < gx.h && 0 <= x < gx.w
                ==> -1020 <= #[trigger] gx.at(y, x) as int <= 1020,
        forall|y: int, x: int|
            0 <= y < gx.h && 0 <= x < gx.w
                ==> -1020 <= #[trigger] gy.at(y, x) as int <= 1020,
    ensures
        final(mag).wf(),
        final(orient).wf(),
        final(mag).same_dim(*gx),
        final(orient).same_dim(*gx),
        forall|y: int, x: int|
            0 <= y < gx.h && 0 <= x < gx.w && interior(gx.h as int, gx.w as int, y, x, 3)
                ==> {
                    let m = (#[trigger] final(mag).at(y, x)) as int;
                    let s = (gx.at(y, x) as int) * (gx.at(y, x) as int)
                        + (gy.at(y, x) as int) * (gy.at(y, x) as int);
                    m * m <= s && s < (m + 1) * (m + 1)
                },
        forall|y: int, x: int|
            0 <= y < gx.h && 0 <= x < gx.w && !interior(gx.h as int, gx.w as int, y, x, 3)
                ==> (#[trigger] final(mag).at(y, x)) == 0,
        forall|y: int, x: int|
            0 <= y < gx.h && 0 <= x < gx.w && interior(gx.h as int, gx.w as int, y, x, 3)
                ==> #[trigger] final(orient).at(y, x)
                    == orient_of(gx.at(y, x) as int, gy.at(y, x) as int),
        forall|y: int, x: int|
            0 <= y < gx.h && 0 <= x < gx.w
                ==> -1 <= (#[trigger] final(orient).at(y, x)).0 <= 1
                    && -1 <= final(orient).at(y, x).1 <= 1,
{
    let h = gx.h;
    let w = gx.w;
    let mut y: usize = 0;
    while y < h
        invariant
            gx.wf(),
            gy.wf(),
            mag.wf(),
            orient.wf(),
            gy.same_dim(*gx),
            mag.same_dim(*gx),
            orient.same_dim(*gx),
            h == gx.h,
            w == gx.w,
            y <= h,
            forall|yy: int, xx: int|
                0 <= yy < h && 0 <= xx < w
                    ==> -1020 <= #[trigger] gx.at(yy, xx) as int <= 1020,
            forall|yy: int, xx: int|
                0 <= yy < h && 0 <= xx < w
                    ==> -1020 <= #[trigger] gy.at(yy, xx) as int <= 1020,
            forall|yy: int, xx: int|
                0 <= yy < y && 0 <= xx < w
                    ==> {
                        let m = (#[trigger] mag.at(yy, xx)) as int;
                        let s = (gx.at(yy, xx) as int) * (gx.at(yy, xx) as int)
                            + (gy.at(yy, xx) as int) * (gy.at(yy, xx) as int);
                        if interior(h as int, w as int, yy, xx, 3) {
                            m * m <= s && s < (m + 1) * (m + 1)
                        } else {
                            m == 0
                        }
                    },
            forall|yy: int, xx: int|
                0 <= yy < y && 0 <= xx < w && interior(h as int, w as int, yy, xx, 3)
                    ==> #[trigger] orient.at(yy, xx)
                        == orient_of(gx.at(yy, xx) as int, gy.at(yy, xx) as int),
            forall|yy: int, xx: int|
                0 <= yy < y && 0 <= xx < w
                    ==> -1 <= (#[trigger] orient.at(yy, xx)).0 <= 1
                        && -1 <= orient.at(yy, xx).1 <= 1,
        decreases h - y,
    {
        let mut x: usize = 0;
        while x < w
            invariant
                gx.wf(),
                gy.wf(),
                mag.wf(),
                orient.wf(),
                gy.same_dim(*gx),
                mag.same_dim(*gx),
                orient.same_dim(*gx),
                h == gx.h,
                w == gx.w,
                y < h,
                x <= w,
                forall|yy: int, xx: int|
                    0 <= yy < h && 0 <= xx < w
                        ==> -1020 <= #[trigger] gx.at(yy, xx) as int <= 1020,
                forall|yy: int, xx: int|
                    0 <= yy < h && 0 <= xx < w
                        ==> -1020 <= #[trigger] gy.at(yy, xx) as int <= 1020,
                forall|yy: int, xx: int|
                    0 <= yy < y && 0 <= xx < w
                        ==> {
                            let m = (#[trigger] mag.at(yy, xx)) as int;
                            let s = (gx.at(yy, xx) as int) * (gx.at(yy, xx) as int)
                                + (gy.at(yy, xx) as int) * (gy.at(yy, xx) as int);
                            if interior(h as int, w as int, yy, xx, 3) {
                                m * m <= s && s < (m + 1) * (m + 1)
                            } else {
                                m == 0
                            }
                        },
                forall|yy: int, xx: int|
                    0 <= yy < y && 0 <= xx < w && interior(h as int, w as int, yy, xx, 3)
                        ==> #[trigger] orient.at(yy, xx)
                            == orient_of(gx.at(yy, xx) as int, gy.at(yy, xx) as int),
                forall|xx: int|
                    0 <= xx < x
                        ==> {
                            let m = (#[trigger] mag.at(y as int, xx)) as int;
                            let s = (gx.at(y as int, xx) as int) * (gx.at(y as int, xx) as int)
                                + (gy.at(y as int, xx) as int) * (gy.at(y as int, xx) as int);
                            if interior(h as int, w as int, y as int, xx, 3) {
                                m * m <= s && s < (m + 1) * (m + 1)
                            } else {
                                m == 0
                            }
                        },
                forall|xx: int|
                    0 <= xx < x && interior(h as int, w as int, y as int, xx, 3)
                        ==> #[trigger] orient.at(y as int, xx)
                            == orient_of(gx.at(y as int, xx) as int, gy.at(y as int, xx) as int),
                forall|yy: int, xx: int|
                    0 <= yy < y && 0 <= xx < w
                        ==> -1 <= (#[trigger] orient.at(yy, xx)).0 <= 1
                            && -1 <= orient.at(yy, xx).1 <= 1,
                forall|xx: int|
                    0 <= xx < x
                        ==> -1 <= (#[trigger] orient.at(y as int, xx)).0 <= 1
                            && -1 <= orient.at(y as int, xx).1 <= 1,
            decreases w - x,
        {
            if y >= 3 && h >= 7 && y < h - 3 && x >= 3 && w >= 7 && x < w - 3 {
                let gxv: i32 = gx.get(y, x);
                let gyv: i32 = gy.get(y, x);
                proof {
                    assert(0 <= (gxv as int) * (gxv as int) <= 1040400
                        && 0 <= (gyv as int) * (gyv as int) <= 1040400
                        && -1040400 <= (gxv as int) * (gyv as int) <= 1040400) by (nonlinear_arith)
                        requires
                            -1020 <= gxv as int <= 1020,
                            -1020 <= gyv as int <= 1020,
                    ;
                }
                let sq: u32 = ((gxv as i64) * (gxv as i64) + (gyv as i64) * (gyv as i64)) as u32;
                let m = isqrt_u32(sq);
                mag.put(y, x, m);

                let ax: i32 = if gxv < 0 { -gxv } else { gxv };
                let ay: i32 = if gyv < 0 { -gyv } else { gyv };
                let d: (i8, i8) = if 10000 * ay <= 4142 * ax {
                    (1i8, 0i8)
                } else if 10000 * ay >= 24142 * ax {
                    (0i8, 1i8)
                } else if gxv * gyv > 0 {
                    (1i8, 1i8)
                } else {
                    (1i8, -1i8)
                };
                orient.put(y, x, d);
            } else {
                mag.put(y, x, 0);
                orient.put(y, x, (1i8, 0i8));
            }
            x = x + 1;
        }
        y = y + 1;
    }
}

/// Form the three per-pixel gradient products of the structure tensor.
fn grad_products(
    gx: &Grid<i32>,
    gy: &Grid<i32>,
    xx: &mut Grid<i64>,
    yy: &mut Grid<i64>,
    xy: &mut Grid<i64>,
)
    requires
        gx.wf(),
        gy.wf(),
        old(xx).wf(),
        old(yy).wf(),
        old(xy).wf(),
        gy.same_dim(*gx),
        old(xx).same_dim(*gx),
        old(yy).same_dim(*gx),
        old(xy).same_dim(*gx),
        forall|y: int, x: int|
            0 <= y < gx.h && 0 <= x < gx.w
                ==> -1020 <= #[trigger] gx.at(y, x) as int <= 1020,
        forall|y: int, x: int|
            0 <= y < gx.h && 0 <= x < gx.w
                ==> -1020 <= #[trigger] gy.at(y, x) as int <= 1020,
    ensures
        final(xx).wf(),
        final(yy).wf(),
        final(xy).wf(),
        final(xx).same_dim(*gx),
        final(yy).same_dim(*gx),
        final(xy).same_dim(*gx),
        forall|y: int, x: int|
            0 <= y < gx.h && 0 <= x < gx.w
                ==> (#[trigger] final(xx).at(y, x)) as int
                    == (gx.at(y, x) as int) * (gx.at(y, x) as int),
        forall|y: int, x: int|
            0 <= y < gx.h && 0 <= x < gx.w
                ==> (#[trigger] final(yy).at(y, x)) as int
                    == (gy.at(y, x) as int) * (gy.at(y, x) as int),
        forall|y: int, x: int|
            0 <= y < gx.h && 0 <= x < gx.w
                ==> (#[trigger] final(xy).at(y, x)) as int
                    == (gx.at(y, x) as int) * (gy.at(y, x) as int),
        forall|y: int, x: int|
            0 <= y < gx.h && 0 <= x < gx.w
                ==> -1040400 <= #[trigger] final(xx).at(y, x) <= 1040400,
        forall|y: int, x: int|
            0 <= y < gx.h && 0 <= x < gx.w
                ==> -1040400 <= #[trigger] final(yy).at(y, x) <= 1040400,
        forall|y: int, x: int|
            0 <= y < gx.h && 0 <= x < gx.w
                ==> -1040400 <= #[trigger] final(xy).at(y, x) <= 1040400,
{
    let h = gx.h;
    let w = gx.w;
    let mut y: usize = 0;
    while y < h
        invariant
            gx.wf(),
            gy.wf(),
            xx.wf(),
            yy.wf(),
            xy.wf(),
            gy.same_dim(*gx),
            xx.same_dim(*gx),
            yy.same_dim(*gx),
            xy.same_dim(*gx),
            h == gx.h,
            w == gx.w,
            y <= h,
            forall|ay: int, ax: int|
                0 <= ay < h && 0 <= ax < w
                    ==> -1020 <= #[trigger] gx.at(ay, ax) as int <= 1020,
            forall|ay: int, ax: int|
                0 <= ay < h && 0 <= ax < w
                    ==> -1020 <= #[trigger] gy.at(ay, ax) as int <= 1020,
            forall|ay: int, ax: int|
                0 <= ay < y && 0 <= ax < w
                    ==> (#[trigger] xx.at(ay, ax)) as int
                        == (gx.at(ay, ax) as int) * (gx.at(ay, ax) as int),
            forall|ay: int, ax: int|
                0 <= ay < y && 0 <= ax < w
                    ==> (#[trigger] yy.at(ay, ax)) as int
                        == (gy.at(ay, ax) as int) * (gy.at(ay, ax) as int),
            forall|ay: int, ax: int|
                0 <= ay < y && 0 <= ax < w
                    ==> (#[trigger] xy.at(ay, ax)) as int
                        == (gx.at(ay, ax) as int) * (gy.at(ay, ax) as int),
            forall|ay: int, ax: int|
                0 <= ay < y && 0 <= ax < w
                    ==> -1040400 <= #[trigger] xx.at(ay, ax) <= 1040400,
            forall|ay: int, ax: int|
                0 <= ay < y && 0 <= ax < w
                    ==> -1040400 <= #[trigger] yy.at(ay, ax) <= 1040400,
            forall|ay: int, ax: int|
                0 <= ay < y && 0 <= ax < w
                    ==> -1040400 <= #[trigger] xy.at(ay, ax) <= 1040400,
        decreases h - y,
    {
        let mut x: usize = 0;
        while x < w
            invariant
                gx.wf(),
                gy.wf(),
                xx.wf(),
                yy.wf(),
                xy.wf(),
                gy.same_dim(*gx),
                xx.same_dim(*gx),
                yy.same_dim(*gx),
                xy.same_dim(*gx),
                h == gx.h,
                w == gx.w,
                y < h,
                x <= w,
                forall|ay: int, ax: int|
                    0 <= ay < h && 0 <= ax < w
                        ==> -1020 <= #[trigger] gx.at(ay, ax) as int <= 1020,
                forall|ay: int, ax: int|
                    0 <= ay < h && 0 <= ax < w
                        ==> -1020 <= #[trigger] gy.at(ay, ax) as int <= 1020,
                forall|ay: int, ax: int|
                    0 <= ay < y && 0 <= ax < w
                        ==> (#[trigger] xx.at(ay, ax)) as int
                            == (gx.at(ay, ax) as int) * (gx.at(ay, ax) as int),
                forall|ay: int, ax: int|
                    0 <= ay < y && 0 <= ax < w
                        ==> (#[trigger] yy.at(ay, ax)) as int
                            == (gy.at(ay, ax) as int) * (gy.at(ay, ax) as int),
                forall|ay: int, ax: int|
                    0 <= ay < y && 0 <= ax < w
                        ==> (#[trigger] xy.at(ay, ax)) as int
                            == (gx.at(ay, ax) as int) * (gy.at(ay, ax) as int),
                forall|ay: int, ax: int|
                    0 <= ay < y && 0 <= ax < w
                        ==> -1040400 <= #[trigger] xx.at(ay, ax) <= 1040400,
                forall|ay: int, ax: int|
                    0 <= ay < y && 0 <= ax < w
                        ==> -1040400 <= #[trigger] yy.at(ay, ax) <= 1040400,
                forall|ay: int, ax: int|
                    0 <= ay < y && 0 <= ax < w
                        ==> -1040400 <= #[trigger] xy.at(ay, ax) <= 1040400,
                forall|ax: int|
                    0 <= ax < x
                        ==> (#[trigger] xx.at(y as int, ax)) as int
                            == (gx.at(y as int, ax) as int) * (gx.at(y as int, ax) as int),
                forall|ax: int|
                    0 <= ax < x
                        ==> (#[trigger] yy.at(y as int, ax)) as int
                            == (gy.at(y as int, ax) as int) * (gy.at(y as int, ax) as int),
                forall|ax: int|
                    0 <= ax < x
                        ==> (#[trigger] xy.at(y as int, ax)) as int
                            == (gx.at(y as int, ax) as int) * (gy.at(y as int, ax) as int),
                forall|ax: int|
                    0 <= ax < x
                        ==> -1040400 <= #[trigger] xx.at(y as int, ax) <= 1040400,
                forall|ax: int|
                    0 <= ax < x
                        ==> -1040400 <= #[trigger] yy.at(y as int, ax) <= 1040400,
                forall|ax: int|
                    0 <= ax < x
                        ==> -1040400 <= #[trigger] xy.at(y as int, ax) <= 1040400,
            decreases w - x,
        {
            let gxv: i32 = gx.get(y, x);
            let gyv: i32 = gy.get(y, x);
            proof {
                assert(0 <= (gxv as int) * (gxv as int) <= 1040400
                    && 0 <= (gyv as int) * (gyv as int) <= 1040400
                    && -1040400 <= (gxv as int) * (gyv as int) <= 1040400) by (nonlinear_arith)
                    requires
                        -1020 <= gxv as int <= 1020,
                        -1020 <= gyv as int <= 1020,
                ;
            }
            xx.put(y, x, (gxv as i64) * (gxv as i64));
            yy.put(y, x, (gyv as i64) * (gyv as i64));
            xy.put(y, x, (gxv as i64) * (gyv as i64));
            x = x + 1;
        }
        y = y + 1;
    }
}

/// Form the scaled Harris response from the smoothed tensor grids.
fn response(sxx: &Grid<i64>, syy: &Grid<i64>, sxy: &Grid<i64>, k_pm: u32, resp: &mut Grid<i64>)
    requires
        sxx.wf(),
        syy.wf(),
        sxy.wf(),
        old(resp).wf(),
        syy.same_dim(*sxx),
        sxy.same_dim(*sxx),
        old(resp).same_dim(*sxx),
        k_pm <= 10000,
        forall|y: int, x: int|
            0 <= y < sxx.h && 0 <= x < sxx.w
                ==> -1040400 <= #[trigger] sxx.at(y, x) <= 1040400,
        forall|y: int, x: int|
            0 <= y < sxx.h && 0 <= x < sxx.w
                ==> -1040400 <= #[trigger] syy.at(y, x) <= 1040400,
        forall|y: int, x: int|
            0 <= y < sxx.h && 0 <= x < sxx.w
                ==> -1040400 <= #[trigger] sxy.at(y, x) <= 1040400,
    ensures
        final(resp).wf(),
        final(resp).same_dim(*sxx),
        forall|y: int, x: int|
            0 <= y < sxx.h && 0 <= x < sxx.w
                ==> (#[trigger] final(resp).at(y, x)) as int
                    == harris_resp_of(
                        sxx.at(y, x) as int,
                        syy.at(y, x) as int,
                        sxy.at(y, x) as int,
                        k_pm as int,
                    ),
{
    let h = sxx.h;
    let w = sxx.w;
    let mut y: usize = 0;
    while y < h
        invariant
            sxx.wf(),
            syy.wf(),
            sxy.wf(),
            resp.wf(),
            syy.same_dim(*sxx),
            sxy.same_dim(*sxx),
            resp.same_dim(*sxx),
            h == sxx.h,
            w == sxx.w,
            y <= h,
            k_pm <= 10000,
            forall|ay: int, ax: int|
                0 <= ay < h && 0 <= ax < w
                    ==> -1040400 <= #[trigger] sxx.at(ay, ax) <= 1040400,
            forall|ay: int, ax: int|
                0 <= ay < h && 0 <= ax < w
                    ==> -1040400 <= #[trigger] syy.at(ay, ax) <= 1040400,
            forall|ay: int, ax: int|
                0 <= ay < h && 0 <= ax < w
                    ==> -1040400 <= #[trigger] sxy.at(ay, ax) <= 1040400,
            forall|ay: int, ax: int|
                0 <= ay < y && 0 <= ax < w
                    ==> (#[trigger] resp.at(ay, ax)) as int
                        == harris_resp_of(
                            sxx.at(ay, ax) as int,
                            syy.at(ay, ax) as int,
                            sxy.at(ay, ax) as int,
                            k_pm as int,
                        ),
        decreases h - y,
    {
        let mut x: usize = 0;
        while x < w
            invariant
                sxx.wf(),
                syy.wf(),
                sxy.wf(),
                resp.wf(),
                syy.same_dim(*sxx),
                sxy.same_dim(*sxx),
                resp.same_dim(*sxx),
                h == sxx.h,
                w == sxx.w,
                y < h,
                x <= w,
                k_pm <= 10000,
                forall|ay: int, ax: int|
                    0 <= ay < h && 0 <= ax < w
                        ==> -1040400 <= #[trigger] sxx.at(ay, ax) <= 1040400,
                forall|ay: int, ax: int|
                    0 <= ay < h && 0 <= ax < w
                        ==> -1040400 <= #[trigger] syy.at(ay, ax) <= 1040400,
                forall|ay: int, ax: int|
                    0 <= ay < h && 0 <= ax < w
                        ==> -1040400 <= #[trigger] sxy.at(ay, ax) <= 1040400,
                forall|ay: int, ax: int|
                    0 <= ay < y && 0 <= ax < w
                        ==> (#[trigger] resp.at(ay, ax)) as int
                            == harris_resp_of(
                                sxx.at(ay, ax) as int,
                                syy.at(ay, ax) as int,
                                sxy.at(ay, ax) as int,
                                k_pm as int,
                            ),
                forall|ax: int|
                    0 <= ax < x
                        ==> (#[trigger] resp.at(y as int, ax)) as int
                            == harris_resp_of(
                                sxx.at(y as int, ax) as int,
                                syy.at(y as int, ax) as int,
                                sxy.at(y as int, ax) as int,
                                k_pm as int,
                            ),
            decreases w - x,
        {
            let a: i64 = sxx.get(y, x);
            let b: i64 = syy.get(y, x);
            let c: i64 = sxy.get(y, x);
            let k: i64 = k_pm as i64;
            proof {
                assert(-1082432160000 <= (a as int) * (b as int) <= 1082432160000
                    && 0 <= (c as int) * (c as int) <= 1082432160000) by (nonlinear_arith)
                    requires
                        -1040400 <= a as int <= 1040400,
                        -1040400 <= b as int <= 1040400,
                        -1040400 <= c as int <= 1040400,
                ;
                assert(0 <= ((a as int + b as int) * (a as int + b as int)) <= 4329728640000)
                    by (nonlinear_arith)
                    requires
                        -1040400 <= a as int <= 1040400,
                        -1040400 <= b as int <= 1040400,
                ;
                assert(0 <= (k as int) * ((a as int + b as int) * (a as int + b as int))
                    <= 43297286400000000) by (nonlinear_arith)
                    requires
                        0 <= k as int <= 10000,
                        0 <= ((a as int + b as int) * (a as int + b as int)) <= 4329728640000,
                ;
            }
            let det: i64 = a * b - c * c;
            let tr: i64 = a + b;
            let rv: i64 = 10000 * det - k * (tr * tr);
            resp.put(y, x, rv);
            x = x + 1;
        }
        y = y + 1;
    }
}

/// Keep every pixel whose response beats the relative threshold and is
/// the maximum of its 7 by 7 window.
fn corner_mask(resp: &Grid<i64>, t_pm: u32, corners: &mut Grid<bool>)
    requires
        resp.wf(),
        old(corners).wf(),
        old(corners).same_dim(*resp),
        t_pm <= 10000,
    ensures
        final(corners).wf(),
        final(corners).same_dim(*resp),
        forall|y: int, x: int|
            0 <= y < resp.h && 0 <= x < resp.w
                ==> #[trigger] final(corners).at(y, x)
                    == (harris_above(*resp, t_pm, y, x) && window_max_at(*resp, y, x)),
{
    let h = resp.h;
    let w = resp.w;
    let mx: i64 = resp_max(resp);
    let mut y: usize = 0;
    while y < h
        invariant
            resp.wf(),
            corners.wf(),
            corners.same_dim(*resp),
            h == resp.h,
            w == resp.w,
            y <= h,
            t_pm <= 10000,
            mx as int == resp_max_of(*resp),
            forall|ay: int, ax: int|
                0 <= ay < y && 0 <= ax < w
                    ==> #[trigger] corners.at(ay, ax)
                        == (harris_above(*resp, t_pm, ay, ax) && window_max_at(*resp, ay, ax)),
        decreases h - y,
    {
        let mut x: usize = 0;
        while x < w
            invariant
                resp.wf(),
                corners.wf(),
                corners.same_dim(*resp),
                h == resp.h,
                w == resp.w,
                y < h,
                x <= w,
                t_pm <= 10000,
                mx as int == resp_max_of(*resp),
                forall|ay: int, ax: int|
                    0 <= ay < y && 0 <= ax < w
                        ==> #[trigger] corners.at(ay, ax)
                            == (harris_above(*resp, t_pm, ay, ax) && window_max_at(*resp, ay, ax)),
                forall|ax: int|
                    0 <= ax < x
                        ==> #[trigger] corners.at(y as int, ax)
                            == (harris_above(*resp, t_pm, y as int, ax)
                                && window_max_at(*resp, y as int, ax)),
            decreases w - x,
        {
            let rv: i64 = resp.get(y, x);
            proof {
                assert(-92233720368547758080000 <= (t_pm as int) * (mx as int)
                    <= 92233720368547758070000) by (nonlinear_arith)
                    requires
                        0 <= t_pm as int <= 10000,
                        -9223372036854775808 <= mx as int <= 9223372036854775807,
                ;
            }
            let above: bool = (rv as i128) * 10000 > (t_pm as i128) * (mx as i128);
            let v: bool = if above {
                let y0: usize = if y >= 3 { y - 3 } else { 0 };
                let y1: usize = if h - y > 3 { y + 3 } else { h - 1 };
                let x0: usize = if x >= 3 { x - 3 } else { 0 };
                let x1: usize = if w - x > 3 { x + 3 } else { w - 1 };
                let mut is_max: bool = true;
                let mut yy: usize = y0;
                while yy <= y1
                    invariant
                        resp.wf(),
                        h == resp.h,
                        w == resp.w,
                        y < h,
                        x < w,
                        rv == resp.at(y as int, x as int),
                        y0 <= yy <= y1 + 1,
                        y1 < h,
                        x1 < w,
                        y0 == if y >= 3 { y - 3 } else { 0 },
                        y1 == if h - y > 3 { y + 3 } else { h - 1 },
                        x0 == if x >= 3 { x - 3 } else { 0 },
                        x1 == if w - x > 3 { x + 3 } else { w - 1 },
                        is_max ==> (forall|ay: int, ax: int|
                            y0 <= ay < yy && x0 <= ax <= x1
                                ==> rv >= #[trigger] resp.at(ay, ax)),
                        (forall|ay: int, ax: int|
                            y0 <= ay < yy && x0 <= ax <= x1
                                ==> rv >= #[trigger] resp.at(ay, ax)) ==> is_max,
                    decreases y1 + 1 - yy,
                {
                    let mut xx: usize = x0;
                    while xx <= x1
                        invariant
                            resp.wf(),
                            h == resp.h,
                            w == resp.w,
                            y < h,
                            x < w,
                            rv == resp.at(y as int, x as int),
                            y0 <= yy <= y1,
                            y1 < h,
                            x0 <= xx <= x1 + 1,
                            x1 < w,
                            x0 == if x >= 3 { x - 3 } else { 0 },
                            is_max ==> ((forall|ay: int, ax: int|
                                y0 <= ay < yy && x0 <= ax <= x1
                                    ==> rv >= #[trigger] resp.at(ay, ax))
                                && (forall|ax: int|
                                    x0 <= ax < xx ==> rv >= #[trigger] resp.at(yy as int, ax))),
                            ((forall|ay: int, ax: int|
                                y0 <= ay < yy && x0 <= ax <= x1
                                    ==> rv >= #[trigger] resp.at(ay, ax))
                                && (forall|ax: int|
                                    x0 <= ax < xx ==> rv >= #[trigger] resp.at(yy as int, ax)))
                                ==> is_max,
                        decreases x1 + 1 - xx,
                    {
                        if resp.get(yy, xx) > rv {
                            is_max = false;
                        }
                        xx = xx + 1;
                    }
                    proof {
                        if is_max {
                            assert forall|ay: int, ax: int|
                                y0 <= ay < yy + 1 && x0 <= ax <= x1
                                implies rv >= #[trigger] resp.at(ay, ax) by {
                                if ay == yy {
                                    assert(rv >= resp.at(yy as int, ax));
                                }
                            }
                        } else {
                            if forall|ay: int, ax: int|
                                y0 <= ay < yy + 1 && x0 <= ax <= x1
                                    ==> rv >= #[trigger] resp.at(ay, ax) {
                                assert forall|ay: int, ax: int|
                                    y0 <= ay < yy && x0 <= ax <= x1
                                    implies rv >= #[trigger] resp.at(ay, ax) by {}
                                assert forall|ax: int|
                                    x0 <= ax < x1 + 1
                                    implies rv >= #[trigger] resp.at(yy as int, ax) by {
                                    assert(rv >= resp.at(yy as int, ax));
                                }
                                assert(is_max);
                            }
                        }
                    }
                    yy = yy + 1;
                }
                proof {
                    if is_max {
                        assert forall|ay: int, ax: int|
                            0 <= ay < resp.h && 0 <= ax < resp.w && y - 3 <= ay <= y + 3
                                && x - 3 <= ax <= x + 3
                            implies resp.at(y as int, x as int) >= #[trigger] resp.at(ay, ax) by {
                            assert(y0 <= ay <= y1 && x0 <= ax <= x1);
                        }
                        assert(window_max_at(*resp, y as int, x as int));
                    } else {
                        if window_max_at(*resp, y as int, x as int) {
                            assert forall|ay: int, ax: int|
                                y0 <= ay < yy && x0 <= ax <= x1
                                implies rv >= #[trigger] resp.at(ay, ax) by {
                                assert(0 <= ay < resp.h && 0 <= ax < resp.w
                                    && y - 3 <= ay <= y + 3 && x - 3 <= ax <= x + 3);
                            }
                            assert(is_max);
                        }
                        assert(!window_max_at(*resp, y as int, x as int));
                    }
                }
                is_max
            } else {
                false
            };
            corners.put(y, x, v);
            x = x + 1;
        }
        y = y + 1;
    }
}


/// Everything the Canny stage guarantees of a workspace: each buffer
/// holds the stated per-pixel value for the given image and
/// configuration, ending in the edge mask of pixels reachable from
/// strong pixels through weak ones.
pub open spec fn canny_post(img: Lightness, config: Config, ws: CannyWorkspace) -> bool {
    &&& ws.wf(img.h as int, img.w as int)
    &&& forall|y: int, x: int|
        0 <= y < img.h && 0 <= x < img.w
            ==> (#[trigger] ws.blur.at(y, x)) as int
                == if interior(img.h as int, img.w as int, y, x, 2) {
                    blur_at(img, y, x)
                } else {
                    0
                }
    &&& forall|y: int, x: int|
        0 <= y < img.h && 0 <= x < img.w
            ==> (#[trigger] ws.gx.at(y, x)) as int
                == if interior(img.h as int, img.w as int, y, x, 1) {
                    sobel_x_at(ws.blur, y, x)
                } else {
                    0
                }
    &&& forall|y: int, x: int|
        0 <= y < img.h && 0 <= x < img.w
            ==> (#[trigger] ws.gy.at(y, x)) as int
                == if interior(img.h as int, img.w as int, y, x, 1) {
                    sobel_y_at(ws.blur, y, x)
                } else {
                    0
                }
    &&& forall|y: int, x: int|
        0 <= y < img.h && 0 <= x < img.w && interior(img.h as int, img.w as int, y, x, 3)
            ==> {
                let m = (#[trigger] ws.mag.at(y, x)) as int;
                let s = (ws.gx.at(y, x) as int) * (ws.gx.at(y, x) as int)
                    + (ws.gy.at(y, x) as int) * (ws.gy.at(y, x) as int);
                m * m <= s && s < (m + 1) * (m + 1)
            }
    &&& forall|y: int, x: int|
        0 <= y < img.h && 0 <= x < img.w && !interior(img.h as int, img.w as int, y, x, 3)
            ==> (#[trigger] ws.mag.at(y, x)) == 0
    &&& forall|y: int, x: int|
        0 <= y < img.h && 0 <= x < img.w && interior(img.h as int, img.w as int, y, x, 3)
            ==> #[trigger] ws.orient.at(y, x)
                == orient_of(ws.gx.at(y, x) as int, ws.gy.at(y, x) as int)
    &&& forall|y: int, x: int|
        0 <= y < img.h && 0 <= x < img.w
            ==> (#[trigger] ws.supp.at(y, x)) as int == nms_at(ws.mag, ws.orient, y, x)
    &&& forall|y: int, x: int|
        0 <= y < img.h && 0 <= x < img.w
            ==> #[trigger] ws.supp.at(y, x) <= ws.mag.at(y, x)
    &&& forall|y: int, x: int|
        0 <= y < img.h && 0 <= x < img.w
            ==> #[trigger] ws.strong.at(y, x) == strong_at(ws.supp, config.hyst_high_pm, y, x)
    &&& forall|y: int, x: int|
        0 <= y < img.h && 0 <= x < img.w
            ==> #[trigger] ws.weak.at(y, x)
                == weak_at(ws.supp, config.hyst_low_pm, config.hyst_high_pm, y, x)
    &&& forall|y: int, x: int|
        0 <= y < img.h && 0 <= x < img.w
            ==> #[trigger] ws.edges.at(y, x)
                == edge_reach(ws.supp, config.hyst_low_pm, config.hyst_high_pm, y, x)
}

/// Everything the Harris stage guarantees of a workspace: gradients,
/// tensor products, their smoothings, the scaled response, and the
/// corner mask of relative-threshold window maxima.
pub open spec fn harris_post(img: Lightness, config: Config, ws: HarrisWorkspace) -> bool {
    &&& ws.wf(img.h as int, img.w as int)
    &&& forall|y: int, x: int|
        0 <= y < img.h && 0 <= x < img.w
            ==> (#[trigger] ws.gx.at(y, x)) as int
                == if interior(img.h as int, img.w as int, y, x, 1) {
                    sobel_x_at(img, y, x)
                } else {
                    0
                }
    &&& forall|y: int, x: int|
        0 <= y < img.h && 0 <= x < img.w
            ==> (#[trigger] ws.gy.at(y, x)) as int
                == if interior(img.h as int, img.w as int, y, x, 1) {
                    sobel_y_at(img, y, x)
                } else {
                    0
                }
    &&& forall|y: int, x: int|
        0 <= y < img.h && 0 <= x < img.w
            ==> (#[trigger] ws.xx.at(y, x)) as int
                == (ws.gx.at(y, x) as int) * (ws.gx.at(y, x) as int)
    &&& forall|y: int, x: int|
        0 <= y < img.h && 0 <= x < img.w
            ==> (#[trigger] ws.yy.at(y, x)) as int
                == (ws.gy.at(y, x) as int) * (ws.gy.at(y, x) as int)
    &&& forall|y: int, x: int|
        0 <= y < img.h && 0 <= x < img.w
            ==> (#[trigger] ws.xy.at(y, x)) as int
                == (ws.gx.at(y, x) as int) * (ws.gy.at(y, x) as int)
    &&& forall|y: int, x: int|
        0 <= y < img.h && 0 <= x < img.w
            ==> (#[trigger] ws.sxx.at(y, x)) as int
                == if interior(img.h as int, img.w as int, y, x, 2) {
                    blur64_at(ws.xx, y, x)
                } else {
                    0
                }
    &&& forall|y: int, x: int|
        0 <= y < img.h && 0 <= x < img.w
            ==> (#[trigger] ws.syy.at(y, x)) as int
                == if interior(img.h as int, img.w as int, y, x, 2) {
                    blur64_at(ws.yy, y, x)
                } else {
                    0
                }
    &&& forall|y: int, x: int|
        0 <= y < img.h && 0 <= x < img.w
            ==> (#[trigger] ws.sxy.at(y, x)) as int
                == if interior(img.h as int, img.w as int, y, x, 2) {
                    blur64_at(ws.xy, y, x)
                } else {
                    0
                }
    &&& forall|y: int, x: int|
        0 <= y < img.h && 0 <= x < img.w
            ==> (#[trigger] ws.resp.at(y, x)) as int
                == harris_resp_of(
                    ws.sxx.at(y, x) as int,
                    ws.syy.at(y, x) as int,
                    ws.sxy.at(y, x) as int,
                    config.harris_k_pm as int,
                )
    &&& forall|y: int, x: int|
        0 <= y < img.h && 0 <= x < img.w
            ==> #[trigger] ws.corners.at(y, x)
                == (harris_above(ws.resp, config.harris_thresh_pm, y, x)
                    && window_max_at(ws.resp, y, x))
}

/// The Canny edge stage.  After the call the workspace holds, pixel
/// for pixel: the blurred image, its Sobel gradients, the integer
/// gradient magnitude `isqrt(gx^2 + gy^2)` with quantized direction,
/// the suppressed magnitudes (never above the magnitudes), and the
/// hysteresis classification whose edge mask holds exactly the pixels
/// reachable from a strong pixel through weak ones.
pub fn canny(img: &Lightness, config: &Config, ws: &mut CannyWorkspace)
    requires
        img.wf(),
        old(ws).wf(img.h as int, img.w as int),
    ensures
        final(ws).wf(img.h as int, img.w as int),
        forall|y: int, x: int|
            0 <= y < img.h && 0 <= x < img.w
                ==> (#[trigger] final(ws).blur.at(y, x)) as int
                    == if interior(img.h as int, img.w as int, y, x, 2) {
                        blur_at(*img, y, x)
                    } else {
                        0
                    },
        forall|y: int, x: int|
            0 <= y < img.h && 0 <= x < img.w
                ==> (#[trigger] final(ws).gx.at(y, x)) as int
                    == if interior(img.h as int, img.w as int, y, x, 1) {
                        sobel_x_at(final(ws).blur, y, x)
                    } else {
                        0
                    },
        forall|y: int, x: int|
            0 <= y < img.h && 0 <= x < img.w
                ==> (#[trigger] final(ws).gy.at(y, x)) as int
                    == if interior(img.h as int, img.w as int, y, x, 1) {
                        sobel_y_at(final(ws).blur, y, x)
                    } else {
                        0
                    },
        forall|y: int, x: int|
            0 <= y < img.h && 0 <= x < img.w && interior(img.h as int, img.w as int, y, x, 3)
                ==> {
                    let m = (#[trigger] final(ws).mag.at(y, x)) as int;
                    let s = (final(ws).gx.at(y, x) as int) * (final(ws).gx.at(y, x) as int)
                        + (final(ws).gy.at(y, x) as int) * (final(ws).gy.at(y, x) as int);
                    m * m <= s && s < (m + 1) * (m + 1)
                },
        forall|y: int, x: int|
            0 <= y < img.h && 0 <= x < img.w && !interior(img.h as int, img.w as int, y, x, 3)
                ==> (#[trigger] final(ws).mag.at(y, x)) == 0,
        forall|y: int, x: int|
            0 <= y < img.h && 0 <= x < img.w && interior(img.h as int, img.w as int, y, x, 3)
                ==> #[trigger] final(ws).orient.at(y, x)
                    == orient_of(final(ws).gx.at(y, x) as int, final(ws).gy.at(y, x) as int),
        forall|y: int, x: int|
            0 <= y < img.h && 0 <= x < img.w
                ==> (#[trigger] final(ws).supp.at(y, x)) as int
                    == nms_at(final(ws).mag, final(ws).orient, y, x),
        forall|y: int, x: int|
            0 <= y < img.h && 0 <= x < img.w
                ==> #[trigger] final(ws).supp.at(y, x) <= final(ws).mag.at(y, x),
        forall|y: int, x: int|
            0 <= y < img.h && 0 <= x < img.w
                ==> #[trigger] final(ws).strong.at(y, x)
                    == strong_at(final(ws).supp, config.hyst_high_pm, y, x),
        forall|y: int, x: int|
            0 <= y < img.h && 0 <= x < img.w
                ==> #[trigger] final(ws).weak.at(y, x)
                    == weak_at(final(ws).supp, config.hyst_low_pm, config.hyst_high_pm, y, x),
        forall|y: int, x: int|
            0 <= y < img.h && 0 <= x < img.w
                ==> #[trigger] final(ws).edges.at(y, x)
                    == edge_reach(final(ws).supp, config.hyst_low_pm, config.hyst_high_pm, y, x),
        canny_post(*img, *config, *final(ws)),
{
    blur(img, &mut ws.bh, &mut ws.blur);
    sobel(&ws.blur, &mut ws.gx, &mut ws.gy);
    mag_orient(&ws.gx, &ws.gy, &mut ws.mag, &mut ws.orient);
    nms(&ws.mag, &ws.orient, &mut ws.supp);
    hysteresis(
        &ws.supp,
        config.hyst_low_pm,
        config.hyst_high_pm,
        &mut ws.strong,
        &mut ws.weak,
        &mut ws.edges,
    );
}

/// The Harris corner stage.  After the call the workspace holds, pixel
/// for pixel: the Sobel gradients of the raw image, the three gradient
/// products, their binomial smoothings, the scaled response
/// `harris_resp_of`, and the corner mask holding exactly the pixels
/// whose response beats the relative threshold and is maximal in its
/// 7 by 7 window.
pub fn harris(img: &Lightness, config: &Config, ws: &mut HarrisWorkspace)
    requires
        img.wf(),
        old(ws).wf(img.h as int, img.w as int),
        config.valid(),
    ensures
        final(ws).wf(img.h as int, img.w as int),
        forall|y: int, x: int|
            0 <= y < img.h && 0 <= x < img.w
                ==> (#[trigger] final(ws).gx.at(y, x)) as int
                    == if interior(img.h as int, img.w as int, y, x, 1) {
                        sobel_x_at(*img, y, x)
                    } else {
                        0
                    },
        forall|y: int, x: int|
            0 <= y < img.h && 0 <= x < img.w
                ==> (#[trigger] final(ws).gy.at(y, x)) as int
                    == if interior(img.h as int, img.w as int, y, x, 1) {
                        sobel_y_at(*img, y, x)
                    } else {
                        0
                    },
        forall|y: int, x: int|
            0 <= y < img.h && 0 <= x < img.w
                ==> (#[trigger] final(ws).xx.at(y, x)) as int
                    == (final(ws).gx.at(y, x) as int) * (final(ws).gx.at(y, x) as int),
        forall|y: int, x: int|
            0 <= y < img.h && 0 <= x < img.w
                ==> (#[trigger] final(ws).yy.at(y, x)) as int
                    == (final(ws).gy.at(y, x) as int) * (final(ws).gy.at(y, x) as int),
        forall|y: int, x: int|
            0 <= y < img.h && 0 <= x < img.w
                ==> (#[trigger] final(ws).xy.at(y, x)) as int
                    == (final(ws).gx.at(y, x) as int) * (final(ws).gy.at(y, x) as int),
        forall|y: int, x: int|
            0 <= y < img.h && 0 <= x < img.w
                ==> (#[trigger] final(ws).sxx.at(y, x)) as int
                    == if interior(img.h as int, img.w as int, y, x, 2) {
                        blur64_at(final(ws).xx, y, x)
                    } else {
                        0
                    },
        forall|y: int, x: int|
            0 <= y < img.h && 0 <= x < img.w
                ==> (#[trigger] final(ws).syy.at(y, x)) as int
                    == if interior(img.h as int, img.w as int, y, x, 2) {
                        blur64_at(final(ws).yy, y, x)
                    } else {
                        0
                    },
        forall|y: int, x: int|
            0 <= y < img.h && 0 <= x < img.w
                ==> (#[trigger] final(ws).sxy.at(y, x)) as int
                    == if interior(img.h as int, img.w as int, y, x, 2) {
                        blur64_at(final(ws).xy, y, x)
                    } else {
                        0
                    },
        forall|y: int, x: int|
            0 <= y < img.h && 0 <= x < img.w
                ==> (#[trigger] final(ws).resp.at(y, x)) as int
                    == harris_resp_of(
                        final(ws).sxx.at(y, x) as int,
                        final(ws).syy.at(y, x) as int,
                        final(ws).sxy.at(y, x) as int,
                        config.harris_k_pm as int,
                    ),
        forall|y: int, x: int|
            0 <= y < img.h && 0 <= x < img.w
                ==> #[trigger] final(ws).corners.at(y, x)
                    == (harris_above(final(ws).resp, config.harris_thresh_pm, y, x)
                        && window_max_at(final(ws).resp, y, x)),
        harris_post(*img, *config, *final(ws)),
{
    sobel(img, &mut ws.gx, &mut ws.gy);
    grad_products(&ws.gx, &ws.gy, &mut ws.xx, &mut ws.yy, &mut ws.xy);
    blur_prod(&ws.xx, &mut ws.bh1, &mut ws.sxx);
    blur_prod(&ws.yy, &mut ws.bh2, &mut ws.syy);
    blur_prod(&ws.xy, &mut ws.bh3, &mut ws.sxy);
    response(&ws.sxx, &ws.syy, &ws.sxy, config.harris_k_pm, &mut ws.resp);
    corner_mask(&ws.resp, config.harris_thresh_pm, &mut ws.corners);
}

} // verus!

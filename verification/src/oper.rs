//! Gradient operators: separable binomial blur and Sobel derivatives.
//!
//! `blur` applies the 5-tap kernel `[1, 4, 6, 4, 1] / 16` horizontally
//! and then vertically; pixels within 2 of a border are written as 0 and
//! callers must treat that margin as invalid.  `sobel` computes both
//! 3 by 3 Sobel convolutions in one pass; pixels within 1 of a border
//! are written as 0.

use vstd::prelude::*;
use crate::grid::Grid;
use crate::types::Lightness;

verus! {

/// `m <= y < h - m` and `m <= x < w - m`: the pixel keeps a margin of
/// `m` from every border.
pub open spec fn interior(h: int, w: int, y: int, x: int, m: int) -> bool {
    m <= y && y < h - m && m <= x && x < w - m
}

/// The horizontal binomial pass at one pixel.
pub open spec fn hblur_at(img: Lightness, y: int, x: int) -> int {
    (img.at(y, x - 2) as int + 4 * img.at(y, x - 1) as int + 6 * img.at(y, x) as int
        + 4 * img.at(y, x + 1) as int + img.at(y, x + 2) as int) / 16
}

/// The vertical binomial pass over the horizontal pass: the blurred
/// intensity at one interior pixel.
pub open spec fn blur_at(img: Lightness, y: int, x: int) -> int {
    (hblur_at(img, y - 2, x) + 4 * hblur_at(img, y - 1, x) + 6 * hblur_at(img, y, x)
        + 4 * hblur_at(img, y + 1, x) + hblur_at(img, y + 2, x)) / 16
}

/// The horizontal Sobel derivative at one pixel: right column minus
/// left column, middle rows weighted 2.
pub open spec fn sobel_x_at(src: Lightness, y: int, x: int) -> int {
    (src.at(y - 1, x + 1) as int + 2 * src.at(y, x + 1) as int + src.at(y + 1, x + 1) as int)
        - (src.at(y - 1, x - 1) as int + 2 * src.at(y, x - 1) as int + src.at(y + 1, x - 1) as int)
}

/// The vertical Sobel derivative at one pixel: bottom row minus top row,
/// middle columns weighted 2.
pub open spec fn sobel_y_at(src: Lightness, y: int, x: int) -> int {
    (src.at(y + 1, x - 1) as int + 2 * src.at(y + 1, x) as int + src.at(y + 1, x + 1) as int)
        - (src.at(y - 1, x - 1) as int + 2 * src.at(y - 1, x) as int + src.at(y - 1, x + 1) as int)
}

/// Smooth `img` into `out`, using `tmp` for the horizontal pass.
/// Both passes write 0 outside their valid region, so `out` is
/// `blur_at` on the 2-pixel-margin interior and 0 elsewhere.
pub fn blur(img: &Lightness, tmp: &mut Grid<u8>, out: &mut Grid<u8>)
    requires
        img.wf(),
        old(tmp).wf(),
        old(out).wf(),
        old(tmp).same_dim(*img),
        old(out).same_dim(*img),
    ensures
        final(tmp).wf(),
        final(out).wf(),
        final(tmp).same_dim(*img),
        final(out).same_dim(*img),
        forall|y: int, x: int|
            0 <= y < img.h && 0 <= x < img.w
                ==> final(tmp).at(y, x) as int
                    == if 2 <= x && x < img.w - 2 { hblur_at(*img, y, x) } else { 0 },
        forall|y: int, x: int|
            0 <= y < img.h && 0 <= x < img.w
                ==> final(out).at(y, x) as int
                    == if interior(img.h as int, img.w as int, y, x, 2) {
                        blur_at(*img, y, x)
                    } else {
                        0
                    },
{
    let h = img.h;
    let w = img.w;
    let mut y: usize = 0;
    while y < h
        invariant
            img.wf(),
            tmp.wf(),
            tmp.same_dim(*img),
            h == img.h,
            w == img.w,
            y <= h,
            forall|yy: int, xx: int|
                0 <= yy < y && 0 <= xx < w
                    ==> tmp.at(yy, xx) as int
                        == if 2 <= xx && xx < w - 2 { hblur_at(*img, yy, xx) } else { 0 },
        decreases h - y,
    {
        let mut x: usize = 0;
        while x < w
            invariant
                img.wf(),
                tmp.wf(),
                tmp.same_dim(*img),
                h == img.h,
                w == img.w,
                y < h,
                x <= w,
                forall|yy: int, xx: int|
                    0 <= yy < y && 0 <= xx < w
                        ==> tmp.at(yy, xx) as int
                            == if 2 <= xx && xx < w - 2 { hblur_at(*img, yy, xx) } else { 0 },
                forall|xx: int|
                    0 <= xx < x
                        ==> tmp.at(y as int, xx) as int
                            == if 2 <= xx && xx < w - 2 { hblur_at(*img, y as int, xx) } else { 0 },
            decreases w - x,
        {
            let v: u8 = if x >= 2 && w >= 3 && x < w - 2 {
                let s: u32 = img.get(y, x - 2) as u32 + 4 * img.get(y, x - 1) as u32
                    + 6 * img.get(y, x) as u32 + 4 * img.get(y, x + 1) as u32
                    + img.get(y, x + 2) as u32;
                (s / 16) as u8
            } else {
                0
            };
            tmp.put(y, x, v);
            x = x + 1;
        }
        y = y + 1;
    }

    let mut y: usize = 0;
    while y < h
        invariant
            img.wf(),
            tmp.wf(),
            out.wf(),
            tmp.same_dim(*img),
            out.same_dim(*img),
            h == img.h,
            w == img.w,
            y <= h,
            forall|yy: int, xx: int|
                0 <= yy < h && 0 <= xx < w
                    ==> tmp.at(yy, xx) as int
                        == if 2 <= xx && xx < w - 2 { hblur_at(*img, yy, xx) } else { 0 },
            forall|yy: int, xx: int|
                0 <= yy < y && 0 <= xx < w
                    ==> out.at(yy, xx) as int
                        == if interior(h as int, w as int, yy, xx, 2) {
                            blur_at(*img, yy, xx)
                        } else {
                            0
                        },
        decreases h - y,
    {
        let mut x: usize = 0;
        while x < w
            invariant
                img.wf(),
                tmp.wf(),
                out.wf(),
                tmp.same_dim(*img),
                out.same_dim(*img),
                h == img.h,
                w == img.w,
                y < h,
                x <= w,
                forall|yy: int, xx: int|
                    0 <= yy < h && 0 <= xx < w
                        ==> tmp.at(yy, xx) as int
                            == if 2 <= xx && xx < w - 2 { hblur_at(*img, yy, xx) } else { 0 },
                forall|yy: int, xx: int|
                    0 <= yy < y && 0 <= xx < w
                        ==> out.at(yy, xx) as int
                            == if interior(h as int, w as int, yy, xx, 2) {
                                blur_at(*img, yy, xx)
                            } else {
                                0
                            },
                forall|xx: int|
                    0 <= xx < x
                        ==> out.at(y as int, xx) as int
                            == if interior(h as int, w as int, y as int, xx, 2) {
                                blur_at(*img, y as int, xx)
                            } else {
                                0
                            },
            decreases w - x,
        {
            let v: u8 = if y >= 2 && h >= 3 && y < h - 2 && x >= 2 && w >= 3 && x < w - 2 {
                let s: u32 = tmp.get(y - 2, x) as u32 + 4 * tmp.get(y - 1, x) as u32
                    + 6 * tmp.get(y, x) as u32 + 4 * tmp.get(y + 1, x) as u32
                    + tmp.get(y + 2, x) as u32;
                (s / 16) as u8
            } else {
                0
            };
            out.put(y, x, v);
            x = x + 1;
        }
        y = y + 1;
    }
}

/// Compute both Sobel derivatives of `src` in one pass.  `gx` and `gy`
/// are `sobel_x_at` and `sobel_y_at` on the 1-pixel-margin interior and
/// 0 elsewhere; every value lies in `-1020 ..= 1020`.
pub fn sobel(src: &Lightness, gx: &mut Grid<i32>, gy: &mut Grid<i32>)
    requires
        src.wf(),
        old(gx).wf(),
        old(gy).wf(),
        old(gx).same_dim(*src),
        old(gy).same_dim(*src),
    ensures
        final(gx).wf(),
        final(gy).wf(),
        final(gx).same_dim(*src),
        final(gy).same_dim(*src),
        forall|y: int, x: int|
            0 <= y < src.h && 0 <= x < src.w
                ==> final(gx).at(y, x) as int
                    == if interior(src.h as int, src.w as int, y, x, 1) {
                        sobel_x_at(*src, y, x)
                    } else {
                        0
                    },
        forall|y: int, x: int|
            0 <= y < src.h && 0 <= x < src.w
                ==> final(gy).at(y, x) as int
                    == if interior(src.h as int, src.w as int, y, x, 1) {
                        sobel_y_at(*src, y, x)
                    } else {
                        0
                    },
        forall|y: int, x: int|
            0 <= y < src.h && 0 <= x < src.w
                ==> -1020 <= #[trigger] final(gx).at(y, x) as int <= 1020,
        forall|y: int, x: int|
            0 <= y < src.h && 0 <= x < src.w
                ==> -1020 <= #[trigger] final(gy).at(y, x) as int <= 1020,
{
    let h = src.h;
    let w = src.w;
    let mut y: usize = 0;
    while y < h
        invariant
            src.wf(),
            gx.wf(),
            gy.wf(),
            gx.same_dim(*src),
            gy.same_dim(*src),
            h == src.h,
            w == src.w,
            y <= h,
            forall|yy: int, xx: int|
                0 <= yy < y && 0 <= xx < w
                    ==> gx.at(yy, xx) as int
                        == if interior(h as int, w as int, yy, xx, 1) {
                            sobel_x_at(*src, yy, xx)
                        } else {
                            0
                        },
            forall|yy: int, xx: int|
                0 <= yy < y && 0 <= xx < w
                    ==> gy.at(yy, xx) as int
                        == if interior(h as int, w as int, yy, xx, 1) {
                            sobel_y_at(*src, yy, xx)
                        } else {
                            0
                        },
        decreases h - y,
    {
        let mut x: usize = 0;
        while x < w
            invariant
                src.wf(),
                gx.wf(),
                gy.wf(),
                gx.same_dim(*src),
                gy.same_dim(*src),
                h == src.h,
                w == src.w,
                y < h,
                x <= w,
                forall|yy: int, xx: int|
                    0 <= yy < y && 0 <= xx < w
                        ==> gx.at(yy, xx) as int
                            == if interior(h as int, w as int, yy, xx, 1) {
                                sobel_x_at(*src, yy, xx)
                            } else {
                                0
                            },
                forall|yy: int, xx: int|
                    0 <= yy < y && 0 <= xx < w
                        ==> gy.at(yy, xx) as int
                            == if interior(h as int, w as int, yy, xx, 1) {
                                sobel_y_at(*src, yy, xx)
                            } else {
                                0
                            },
                forall|xx: int|
                    0 <= xx < x
                        ==> gx.at(y as int, xx) as int
                            == if interior(h as int, w as int, y as int, xx, 1) {
                                sobel_x_at(*src, y as int, xx)
                            } else {
                                0
                            },
                forall|xx: int|
                    0 <= xx < x
                        ==> gy.at(y as int, xx) as int
                            == if interior(h as int, w as int, y as int, xx, 1) {
                                sobel_y_at(*src, y as int, xx)
                            } else {
                                0
                            },
            decreases w - x,
        {
            let (vx, vy): (i32, i32) = if y >= 1 && h >= 2 && y < h - 1 && x >= 1 && w >= 2 && x < w - 1 {
                let a: i32 = src.get(y - 1, x - 1) as i32;
                let b: i32 = src.get(y - 1, x) as i32;
                let c: i32 = src.get(y - 1, x + 1) as i32;
                let d: i32 = src.get(y, x - 1) as i32;
                let f: i32 = src.get(y, x + 1) as i32;
                let g: i32 = src.get(y + 1, x - 1) as i32;
                let k: i32 = src.get(y + 1, x) as i32;
                let m: i32 = src.get(y + 1, x + 1) as i32;
                ((c + 2 * f + m) - (a + 2 * d + g), (g + 2 * k + m) - (a + 2 * b + c))
            } else {
                (0, 0)
            };
            gx.put(y, x, vx);
            gy.put(y, x, vy);
            x = x + 1;
        }
        y = y + 1;
    }
}


/// Division by 16 truncating toward zero, as machine division does on
/// signed integers.
pub open spec fn tdiv16(s: int) -> int {
    if s >= 0 {
        s / 16
    } else {
        -((-s) / 16)
    }
}

/// The horizontal binomial pass over a product grid at one pixel.
pub open spec fn hblur64_at(g: Grid<i64>, y: int, x: int) -> int {
    tdiv16(
        g.at(y, x - 2) as int + 4 * g.at(y, x - 1) as int + 6 * g.at(y, x) as int
            + 4 * g.at(y, x + 1) as int + g.at(y, x + 2) as int,
    )
}

/// The vertical binomial pass over the horizontal pass of a product
/// grid: the smoothed value at one interior pixel.
pub open spec fn blur64_at(g: Grid<i64>, y: int, x: int) -> int {
    tdiv16(
        hblur64_at(g, y - 2, x) + 4 * hblur64_at(g, y - 1, x) + 6 * hblur64_at(g, y, x)
            + 4 * hblur64_at(g, y + 1, x) + hblur64_at(g, y + 2, x),
    )
}

/// Divide by 16 truncating toward zero.
fn tdiv16_exec(s: i64) -> (r: i64)
    requires
        -16646400 <= s <= 16646400,
    ensures
        r as int == tdiv16(s as int),
        -1040400 <= r <= 1040400,
{
    if s >= 0 {
        s / 16
    } else {
        -((-s) / 16)
    }
}

/// Smooth a gradient-product grid into `out`, using `tmp` for the
/// horizontal pass; values stay within plus or minus `1020 * 1020`.
/// Pixels within 2 of a border are written as 0.
pub fn blur_prod(g: &Grid<i64>, tmp: &mut Grid<i64>, out: &mut Grid<i64>)
    requires
        g.wf(),
        old(tmp).wf(),
        old(out).wf(),
        old(tmp).same_dim(*g),
        old(out).same_dim(*g),
        forall|y: int, x: int|
            0 <= y < g.h && 0 <= x < g.w
                ==> -1040400 <= #[trigger] g.at(y, x) <= 1040400,
    ensures
        final(tmp).wf(),
        final(out).wf(),
        final(tmp).same_dim(*g),
        final(out).same_dim(*g),
        forall|y: int, x: int|
            0 <= y < g.h && 0 <= x < g.w
                ==> final(tmp).at(y, x) as int
                    == if 2 <= x && x < g.w - 2 { hblur64_at(*g, y, x) } else { 0 },
        forall|y: int, x: int|
            0 <= y < g.h && 0 <= x < g.w
                ==> final(out).at(y, x) as int
                    == if interior(g.h as int, g.w as int, y, x, 2) {
                        blur64_at(*g, y, x)
                    } else {
                        0
                    },
        forall|y: int, x: int|
            0 <= y < g.h && 0 <= x < g.w
                ==> -1040400 <= #[trigger] final(out).at(y, x) <= 1040400,
{
    let h = g.h;
    let w = g.w;
    let mut y: usize = 0;
    while y < h
        invariant
            g.wf(),
            tmp.wf(),
            tmp.same_dim(*g),
            h == g.h,
            w == g.w,
            y <= h,
            forall|yy: int, xx: int|
                0 <= yy < g.h && 0 <= xx < g.w
                    ==> -1040400 <= #[trigger] g.at(yy, xx) <= 1040400,
            forall|yy: int, xx: int|
                0 <= yy < y && 0 <= xx < w
                    ==> tmp.at(yy, xx) as int
                        == if 2 <= xx && xx < w - 2 { hblur64_at(*g, yy, xx) } else { 0 },
            forall|yy: int, xx: int|
                0 <= yy < y && 0 <= xx < w
                    ==> -1040400 <= #[trigger] tmp.at(yy, xx) <= 1040400,
        decreases h - y,
    {
        let mut x: usize = 0;
        while x < w
            invariant
                g.wf(),
                tmp.wf(),
                tmp.same_dim(*g),
                h == g.h,
                w == g.w,
                y < h,
                x <= w,
                forall|yy: int, xx: int|
                    0 <= yy < g.h && 0 <= xx < g.w
                        ==> -1040400 <= #[trigger] g.at(yy, xx) <= 1040400,
                forall|yy: int, xx: int|
                    0 <= yy < y && 0 <= xx < w
                        ==> tmp.at(yy, xx) as int
                            == if 2 <= xx && xx < w - 2 { hblur64_at(*g, yy, xx) } else { 0 },
                forall|yy: int, xx: int|
                    0 <= yy < y && 0 <= xx < w
                        ==> -1040400 <= #[trigger] tmp.at(yy, xx) <= 1040400,
                forall|xx: int|
                    0 <= xx < x
                        ==> tmp.at(y as int, xx) as int
                            == if 2 <= xx && xx < w - 2 { hblur64_at(*g, y as int, xx) } else { 0 },
                forall|xx: int|
                    0 <= xx < x
                        ==> -1040400 <= #[trigger] tmp.at(y as int, xx) <= 1040400,
            decreases w - x,
        {
            let v: i64 = if x >= 2 && w >= 3 && x < w - 2 {
                let s: i64 = g.get(y, x - 2) + 4 * g.get(y, x - 1) + 6 * g.get(y, x)
                    + 4 * g.get(y, x + 1) + g.get(y, x + 2);
                tdiv16_exec(s)
            } else {
                0
            };
            tmp.put(y, x, v);
            x = x + 1;
        }
        y = y + 1;
    }

    let mut y: usize = 0;
    while y < h
        invariant
            g.wf(),
            tmp.wf(),
            out.wf(),
            tmp.same_dim(*g),
            out.same_dim(*g),
            h == g.h,
            w == g.w,
            y <= h,
            forall|yy: int, xx: int|
                0 <= yy < h && 0 <= xx < w
                    ==> tmp.at(yy, xx) as int
                        == if 2 <= xx && xx < w - 2 { hblur64_at(*g, yy, xx) } else { 0 },
            forall|yy: int, xx: int|
                0 <= yy < h && 0 <= xx < w
                    ==> -1040400 <= #[trigger] tmp.at(yy, xx) <= 1040400,
            forall|yy: int, xx: int|
                0 <= yy < y && 0 <= xx < w
                    ==> out.at(yy, xx) as int
                        == if interior(h as int, w as int, yy, xx, 2) {
                            blur64_at(*g, yy, xx)
                        } else {
                            0
                        },
            forall|yy: int, xx: int|
                0 <= yy < y && 0 <= xx < w
                    ==> -1040400 <= #[trigger] out.at(yy, xx) <= 1040400,
        decreases h - y,
    {
        let mut x: usize = 0;
        while x < w
            invariant
                g.wf(),
                tmp.wf(),
                out.wf(),
                tmp.same_dim(*g),
                out.same_dim(*g),
                h == g.h,
                w == g.w,
                y < h,
                x <= w,
                forall|yy: int, xx: int|
                    0 <= yy < h && 0 <= xx < w
                        ==> tmp.at(yy, xx) as int
                            == if 2 <= xx && xx < w - 2 { hblur64_at(*g, yy, xx) } else { 0 },
                forall|yy: int, xx: int|
                    0 <= yy < h && 0 <= xx < w
                        ==> -1040400 <= #[trigger] tmp.at(yy, xx) <= 1040400,
                forall|yy: int, xx: int|
                    0 <= yy < y && 0 <= xx < w
                        ==> out.at(yy, xx) as int
                            == if interior(h as int, w as int, yy, xx, 2) {
                                blur64_at(*g, yy, xx)
                            } else {
                                0
                            },
                forall|yy: int, xx: int|
                    0 <= yy < y && 0 <= xx < w
                        ==> -1040400 <= #[trigger] out.at(yy, xx) <= 1040400,
                forall|xx: int|
                    0 <= xx < x
                        ==> out.at(y as int, xx) as int
                            == if interior(h as int, w as int, y as int, xx, 2) {
                                blur64_at(*g, y as int, xx)
                            } else {
                                0
                            },
                forall|xx: int|
                    0 <= xx < x
                        ==> -1040400 <= #[trigger] out.at(y as int, xx) <= 1040400,
            decreases w - x,
        {
            let v: i64 = if y >= 2 && h >= 3 && y < h - 2 && x >= 2 && w >= 3 && x < w - 2 {
                let s: i64 = tmp.get(y - 2, x) + 4 * tmp.get(y - 1, x) + 6 * tmp.get(y, x)
                    + 4 * tmp.get(y + 1, x) + tmp.get(y + 2, x);
                tdiv16_exec(s)
            } else {
                0
            };
            out.put(y, x, v);
            x = x + 1;
        }
        y = y + 1;
    }
}

} // verus!

//! Pre-sized scratch workspaces, reused across frames.
//!
//! Each workspace owns one buffer per intermediate result of its stage.
//! `ensure` reallocates the buffers only when the frame dimensions
//! change; otherwise they are reused and overwritten in place.

use vstd::prelude::*;
use crate::grid::Grid;
use crate::types::Mask;

verus! {

/// Resize one buffer to `h` by `w` if its dimensions differ; a buffer
/// that already has the requested dimensions is left untouched.
fn ensure_grid<T: Copy>(g: &mut Grid<T>, h: usize, w: usize, v: T)
    requires
        old(g).wf(),
        h * w <= usize::MAX,
    ensures
        final(g).wf(),
        final(g).h == h,
        final(g).w == w,
        (old(g).h == h && old(g).w == w) ==> *final(g) == *old(g),
{
    if g.h != h || g.w != w {
        *g = Grid::new_fill(h, w, v);
    }
}

/// Scratch buffers of the Canny edge stage.
pub struct CannyWorkspace {
    /// Horizontal pass of the blur.
    pub bh: Grid<u8>,
    /// Blurred intensities.
    pub blur: Grid<u8>,
    /// Horizontal Sobel derivative of the blurred image.
    pub gx: Grid<i32>,
    /// Vertical Sobel derivative of the blurred image.
    pub gy: Grid<i32>,
    /// Integer gradient magnitude.
    pub mag: Grid<u32>,
    /// Quantized gradient direction, as an `(dx, dy)` step.
    pub orient: Grid<(i8, i8)>,
    /// Magnitudes after non-maximum suppression.
    pub supp: Grid<u32>,
    /// Pixels above the high hysteresis threshold.
    pub strong: Mask,
    /// Pixels between the hysteresis thresholds.
    pub weak: Mask,
    /// The final edge mask.
    pub edges: Mask,
}

impl CannyWorkspace {
    /// Every buffer is well-formed with dimensions `h` by `w`.
    pub open spec fn wf(self, h: int, w: int) -> bool {
        &&& self.bh.wf() && self.bh.h == h && self.bh.w == w
        &&& self.blur.wf() && self.blur.h == h && self.blur.w == w
        &&& self.gx.wf() && self.gx.h == h && self.gx.w == w
        &&& self.gy.wf() && self.gy.h == h && self.gy.w == w
        &&& self.mag.wf() && self.mag.h == h && self.mag.w == w
        &&& self.orient.wf() && self.orient.h == h && self.orient.w == w
        &&& self.supp.wf() && self.supp.h == h && self.supp.w == w
        &&& self.strong.wf() && self.strong.h == h && self.strong.w == w
        &&& self.weak.wf() && self.weak.h == h && self.weak.w == w
        &&& self.edges.wf() && self.edges.h == h && self.edges.w == w
    }

    /// The buffers are well-formed at some common dimensions.
    pub open spec fn wf_any(self) -> bool {
        self.wf(self.bh.h as int, self.bh.w as int)
    }

    /// Resize every buffer to `h` by `w`, reallocating only on change.
    pub fn ensure(&mut self, h: usize, w: usize)
        requires
            old(self).wf_any(),
            h * w <= usize::MAX,
        ensures
            final(self).wf(h as int, w as int),
            final(self).wf_any(),
            old(self).wf(h as int, w as int) ==> *final(self) == *old(self),
    {
        ensure_grid(&mut self.bh, h, w, 0u8);
        ensure_grid(&mut self.blur, h, w, 0u8);
        ensure_grid(&mut self.gx, h, w, 0i32);
        ensure_grid(&mut self.gy, h, w, 0i32);
        ensure_grid(&mut self.mag, h, w, 0u32);
        ensure_grid(&mut self.orient, h, w, (0i8, 0i8));
        ensure_grid(&mut self.supp, h, w, 0u32);
        ensure_grid(&mut self.strong, h, w, false);
        ensure_grid(&mut self.weak, h, w, false);
        ensure_grid(&mut self.edges, h, w, false);
    }
}

impl Default for CannyWorkspace {
    /// Empty buffers; the first `ensure` sizes them.
    fn default() -> (r: Self)
        ensures
            r.wf(0, 0),
            r.wf_any(),
    {
        CannyWorkspace {
            bh: Grid { w: 0, h: 0, data: Vec::new() },
            blur: Grid { w: 0, h: 0, data: Vec::new() },
            gx: Grid { w: 0, h: 0, data: Vec::new() },
            gy: Grid { w: 0, h: 0, data: Vec::new() },
            mag: Grid { w: 0, h: 0, data: Vec::new() },
            orient: Grid { w: 0, h: 0, data: Vec::new() },
            supp: Grid { w: 0, h: 0, data: Vec::new() },
            strong: Grid { w: 0, h: 0, data: Vec::new() },
            weak: Grid { w: 0, h: 0, data: Vec::new() },
            edges: Grid { w: 0, h: 0, data: Vec::new() },
        }
    }
}

/// Scratch buffers of the Harris corner stage.
pub struct HarrisWorkspace {
    /// Horizontal Sobel derivative of the raw image.
    pub gx: Grid<i32>,
    /// Vertical Sobel derivative of the raw image.
    pub gy: Grid<i32>,
    /// Per-pixel product `gx * gx`.
    pub xx: Grid<i64>,
    /// Per-pixel product `gy * gy`.
    pub yy: Grid<i64>,
    /// Per-pixel product `gx * gy`.
    pub xy: Grid<i64>,
    /// Horizontal blur pass scratch for `xx`.
    pub bh1: Grid<i64>,
    /// Horizontal blur pass scratch for `yy`.
    pub bh2: Grid<i64>,
    /// Horizontal blur pass scratch for `xy`.
    pub bh3: Grid<i64>,
    /// Smoothed `xx` (structure tensor).
    pub sxx: Grid<i64>,
    /// Smoothed `yy`.
    pub syy: Grid<i64>,
    /// Smoothed `xy`.
    pub sxy: Grid<i64>,
    /// Scaled Harris response.
    pub resp: Grid<i64>,
    /// The final corner mask.
    pub corners: Mask,
}

impl HarrisWorkspace {
    /// Every buffer is well-formed with dimensions `h` by `w`.
    pub open spec fn wf(self, h: int, w: int) -> bool {
        &&& self.gx.wf() && self.gx.h == h && self.gx.w == w
        &&& self.gy.wf() && self.gy.h == h && self.gy.w == w
        &&& self.xx.wf() && self.xx.h == h && self.xx.w == w
        &&& self.yy.wf() && self.yy.h == h && self.yy.w == w
        &&& self.xy.wf() && self.xy.h == h && self.xy.w == w
        &&& self.bh1.wf() && self.bh1.h == h && self.bh1.w == w
        &&& self.bh2.wf() && self.bh2.h == h && self.bh2.w == w
        &&& self.bh3.wf() && self.bh3.h == h && self.bh3.w == w
        &&& self.sxx.wf() && self.sxx.h == h && self.sxx.w == w
        &&& self.syy.wf() && self.syy.h == h && self.syy.w == w
        &&& self.sxy.wf() && self.sxy.h == h && self.sxy.w == w
        &&& self.resp.wf() && self.resp.h == h && self.resp.w == w
        &&& self.corners.wf() && self.corners.h == h && self.corners.w == w
    }

    /// The buffers are well-formed at some common dimensions.
    pub open spec fn wf_any(self) -> bool {
        self.wf(self.gx.h as int, self.gx.w as int)
    }

    /// Resize every buffer to `h` by `w`, reallocating only on change.
    pub fn ensure(&mut self, h: usize, w: usize)
        requires
            old(self).wf_any(),
            h * w <= usize::MAX,
        ensures
            final(self).wf(h as int, w as int),
            final(self).wf_any(),
            old(self).wf(h as int, w as int) ==> *final(self) == *old(self),
    {
        ensure_grid(&mut self.gx, h, w, 0i32);
        ensure_grid(&mut self.gy, h, w, 0i32);
        ensure_grid(&mut self.xx, h, w, 0i64);
        ensure_grid(&mut self.yy, h, w, 0i64);
        ensure_grid(&mut self.xy, h, w, 0i64);
        ensure_grid(&mut self.bh1, h, w, 0i64);
        ensure_grid(&mut self.bh2, h, w, 0i64);
        ensure_grid(&mut self.bh3, h, w, 0i64);
        ensure_grid(&mut self.sxx, h, w, 0i64);
        ensure_grid(&mut self.syy, h, w, 0i64);
        ensure_grid(&mut self.sxy, h, w, 0i64);
        ensure_grid(&mut self.resp, h, w, 0i64);
        ensure_grid(&mut self.corners, h, w, false);
    }
}

impl Default for HarrisWorkspace {
    /// Empty buffers; the first `ensure` sizes them.
    fn default() -> (r: Self)
        ensures
            r.wf(0, 0),
            r.wf_any(),
    {
        HarrisWorkspace {
            gx: Grid { w: 0, h: 0, data: Vec::new() },
            gy: Grid { w: 0, h: 0, data: Vec::new() },
            xx: Grid { w: 0, h: 0, data: Vec::new() },
            yy: Grid { w: 0, h: 0, data: Vec::new() },
            xy: Grid { w: 0, h: 0, data: Vec::new() },
            bh1: Grid { w: 0, h: 0, data: Vec::new() },
            bh2: Grid { w: 0, h: 0, data: Vec::new() },
            bh3: Grid { w: 0, h: 0, data: Vec::new() },
            sxx: Grid { w: 0, h: 0, data: Vec::new() },
            syy: Grid { w: 0, h: 0, data: Vec::new() },
            sxy: Grid { w: 0, h: 0, data: Vec::new() },
            resp: Grid { w: 0, h: 0, data: Vec::new() },
            corners: Grid { w: 0, h: 0, data: Vec::new() },
        }
    }
}

} // verus!

//! Per-frame orchestration: run the Canny and Harris stages, extract
//! and filter quad candidates, and decode each surviving quad.
//!
//! The two mask stages are independent — each reads only the input
//! image and its own workspace — so a caller may also run them
//! concurrently through `canny` and `harris` before extracting
//! candidates; this sequential driver is the reference order.

use vstd::prelude::*;
use crate::types::{Lightness, Tag};
use crate::detector::Detector;
use crate::mask::{canny, harris, canny_post, harris_post, seq_max_i64, lemma_seq_max_i64,
    harris_resp_of, harris_above};
use crate::post::{seq_max_u32, lemma_seq_max_u32, lemma_flat_coords, strong_at,
    is_weak_path, nms_at, grid_max_of};
use crate::oper::{interior, blur_at, hblur_at, sobel_x_at, sobel_y_at, blur64_at, hblur64_at};
use crate::candidates::{cand_ok, quad_near_edges, apply_filters_spec};
use crate::shapes::find_shapes_post;
use crate::types::Point;
use crate::config::Config;
use crate::ws::{CannyWorkspace, HarrisWorkspace};
use crate::decode::{decode, decode_spec};
use crate::mask::resp_max_of;

verus! {

/// The whole detection chain, relative to a shape grouping `ss`: the
/// grouping satisfies everything shape extraction guarantees for the
/// given masks, and the result holds exactly one tag per quad that
/// survives the configured filters, in order, each carrying the
/// decoding of the image inside its quad.
pub open spec fn tags_chain(
    img: Lightness,
    config: Config,
    cws: CannyWorkspace,
    hws: HarrisWorkspace,
    ss: Seq<Seq<Point>>,
    res: Seq<Tag>,
) -> bool {
    let quads = apply_filters_spec(config, crate::shapes::quads_spec(ss));
    &&& find_shapes_post(cws.edges, hws.corners, ss)
    &&& res.len() == quads.len()
    &&& forall|k: int|
        0 <= k < res.len()
            ==> (#[trigger] res[k]).corners == quads[k]
                && res[k].id == decode_spec(img, quads[k])
}

/// Every pixel carries the same intensity.
pub open spec fn uniform_img(img: Lightness) -> bool {
    forall|y: int, x: int|
        0 <= y < img.h && 0 <= x < img.w ==> #[trigger] img.at(y, x) == img.at(0, 0)
}

/// Run the full detection pipeline on one frame.  Afterwards every
/// workspace buffer holds exactly one element per pixel and satisfies
/// its stage's full contract; the result holds one tag per quad
/// surviving the configured filters, in order, each pairing a quad of
/// real corner-mask pixels with the decoding of the image inside it;
/// and a uniform image yields no edges, no corners and no tags.
#[verifier::rlimit(60)]
pub fn process(img: &Lightness, detector: &mut Detector) -> (res: Vec<Tag>)
    requires
        img.wf(),
        old(detector).wf_any(),
        1 <= img.h <= 0x1000,
        1 <= img.w <= 0x1000,
    ensures
        final(detector).wf_any(),
        final(detector).config == old(detector).config,
        final(detector).cws.wf(img.h as int, img.w as int),
        final(detector).hws.wf(img.h as int, img.w as int),
        forall|k: int|
            0 <= k < res@.len()
                ==> (#[trigger] res@[k]).id == decode_spec(*img, res@[k].corners),
        forall|k: int|
            0 <= k < res@.len()
                ==> cand_ok(final(detector).hws.corners, (#[trigger] res@[k]).corners),
        forall|k: int|
            0 <= k < res@.len()
                ==> quad_near_edges(final(detector).cws.edges, (#[trigger] res@[k]).corners),
        canny_post(*img, final(detector).config, final(detector).cws),
        harris_post(*img, final(detector).config, final(detector).hws),
        exists|ss: Seq<Seq<Point>>|
            #[trigger] tags_chain(*img, final(detector).config, final(detector).cws,
                final(detector).hws, ss, res@),
        uniform_img(*img)
            ==> res@.len() == 0
                && (forall|y: int, x: int|
                    0 <= y < img.h && 0 <= x < img.w
                        ==> !(#[trigger] final(detector).cws.edges.at(y, x)))
                && (forall|y: int, x: int|
                    0 <= y < img.h && 0 <= x < img.w
                        ==> !(#[trigger] final(detector).hws.corners.at(y, x))),
{
    let h = img.h;
    let w = img.w;
    detector.ensure(h, w);
    let cfg = detector.config;
    canny(img, &cfg, &mut detector.cws);
    harris(img, &cfg, &mut detector.hws);

    proof {
        if uniform_img(*img) {
            let cws = detector.cws;
            let hws = detector.hws;
            let c = img.at(0, 0) as int;
            // the blurred image is constant on its valid interior
            assert forall|y: int, x: int|
                0 <= y < h && 0 <= x < w && interior(h as int, w as int, y, x, 2)
                implies blur_at(*img, y, x) == c by {
                assert forall|yy: int|
                    y - 2 <= yy <= y + 2
                    implies hblur_at(*img, yy, x) == c by {
                    assert(img.at(yy, x - 2) == img.at(0, 0));
                    assert(img.at(yy, x - 1) == img.at(0, 0));
                    assert(img.at(yy, x) == img.at(0, 0));
                    assert(img.at(yy, x + 1) == img.at(0, 0));
                    assert(img.at(yy, x + 2) == img.at(0, 0));
                }
            }
            // so both gradients vanish on the margin-3 interior
            assert forall|y: int, x: int|
                0 <= y < h && 0 <= x < w
                implies (#[trigger] cws.mag.at(y, x)) == 0 by {
                if interior(h as int, w as int, y, x, 3) {
                    assert(cws.blur.at(y - 1, x - 1) as int == c);
                    assert(cws.blur.at(y - 1, x) as int == c);
                    assert(cws.blur.at(y - 1, x + 1) as int == c);
                    assert(cws.blur.at(y, x - 1) as int == c);
                    assert(cws.blur.at(y, x + 1) as int == c);
                    assert(cws.blur.at(y + 1, x - 1) as int == c);
                    assert(cws.blur.at(y + 1, x) as int == c);
                    assert(cws.blur.at(y + 1, x + 1) as int == c);
                    assert(sobel_x_at(cws.blur, y, x) == 0);
                    assert(sobel_y_at(cws.blur, y, x) == 0);
                    assert(cws.gx.at(y, x) as int == sobel_x_at(cws.blur, y, x));
                    assert(cws.gy.at(y, x) as int == sobel_y_at(cws.blur, y, x));
                    assert(cws.gx.at(y, x) == 0);
                    assert(cws.gy.at(y, x) == 0);
                    let m = cws.mag.at(y, x) as int;
                    assert(m * m <= 0);
                    if m > 0 {
                        assert(m * m >= 1) by (nonlinear_arith)
                            requires
                                m >= 1,
                        ;
                    }
                }
            }
            // no magnitude survives suppression
            assert forall|y: int, x: int|
                0 <= y < h && 0 <= x < w
                implies (#[trigger] cws.supp.at(y, x)) == 0 by {
                assert(cws.supp.at(y, x) as int == nms_at(cws.mag, cws.orient, y, x));
                assert(cws.supp.at(y, x) <= cws.mag.at(y, x));
            }
            // so the frame maximum is 0 and nothing is strong
            assert(grid_max_of(cws.supp) == 0) by {
                lemma_seq_max_u32(cws.supp.data@);
                if cws.supp.data@.len() > 0 {
                    assert forall|i: int| 0 <= i < cws.supp.data@.len()
                        implies cws.supp.data@[i] == 0 by {
                        lemma_flat_coords(h as int, w as int, i);
                        assert(cws.supp.at(i / (w as int), i % (w as int)) == 0);
                    }
                    let i = choose|i: int|
                        0 <= i < cws.supp.data@.len()
                            && cws.supp.data@[i] == seq_max_u32(cws.supp.data@);
                }
            }
            assert forall|y: int, x: int|
                0 <= y < h && 0 <= x < w
                implies !(#[trigger] cws.edges.at(y, x)) by {
                if cws.edges.at(y, x) {
                    let path = choose|path: Seq<(int, int)>|
                        is_weak_path(cws.supp, cfg.hyst_low_pm, cfg.hyst_high_pm, path)
                            && path.last() == (y, x);
                    assert(strong_at(cws.supp, cfg.hyst_high_pm, path[0].0, path[0].1));
                }
            }
            // the Harris side: raw gradients vanish, so the response is 0
            assert forall|y: int, x: int|
                0 <= y < h && 0 <= x < w
                implies (#[trigger] hws.resp.at(y, x)) == 0 by {
                assert forall|yy: int, xx: int|
                    0 <= yy < h && 0 <= xx < w
                    implies (#[trigger] hws.xx.at(yy, xx)) == 0 && hws.yy.at(yy, xx) == 0
                        && hws.xy.at(yy, xx) == 0 by {
                    if interior(h as int, w as int, yy, xx, 1) {
                        assert(img.at(yy - 1, xx - 1) == img.at(0, 0));
                        assert(img.at(yy - 1, xx) == img.at(0, 0));
                        assert(img.at(yy - 1, xx + 1) == img.at(0, 0));
                        assert(img.at(yy, xx - 1) == img.at(0, 0));
                        assert(img.at(yy, xx + 1) == img.at(0, 0));
                        assert(img.at(yy + 1, xx - 1) == img.at(0, 0));
                        assert(img.at(yy + 1, xx) == img.at(0, 0));
                        assert(img.at(yy + 1, xx + 1) == img.at(0, 0));
                        assert(sobel_x_at(*img, yy, xx) == 0);
                        assert(sobel_y_at(*img, yy, xx) == 0);
                    }
                }
                if interior(h as int, w as int, y, x, 2) {
                    assert forall|yy: int|
                        y - 2 <= yy <= y + 2
                        implies hblur64_at(hws.xx, yy, x) == 0
                            && hblur64_at(hws.yy, yy, x) == 0
                            && hblur64_at(hws.xy, yy, x) == 0 by {
                        assert(hws.xx.at(yy, x - 2) == 0 && hws.xx.at(yy, x - 1) == 0
                            && hws.xx.at(yy, x) == 0 && hws.xx.at(yy, x + 1) == 0
                            && hws.xx.at(yy, x + 2) == 0);
                        assert(hws.yy.at(yy, x - 2) == 0 && hws.yy.at(yy, x - 1) == 0
                            && hws.yy.at(yy, x) == 0 && hws.yy.at(yy, x + 1) == 0
                            && hws.yy.at(yy, x + 2) == 0);
                        assert(hws.xy.at(yy, x - 2) == 0 && hws.xy.at(yy, x - 1) == 0
                            && hws.xy.at(yy, x) == 0 && hws.xy.at(yy, x + 1) == 0
                            && hws.xy.at(yy, x + 2) == 0);
                    }
                    assert(blur64_at(hws.xx, y, x) == 0);
                    assert(blur64_at(hws.yy, y, x) == 0);
                    assert(blur64_at(hws.xy, y, x) == 0);
                }
                assert(hws.sxx.at(y, x) == 0);
                assert(hws.syy.at(y, x) == 0);
                assert(hws.sxy.at(y, x) == 0);
                assert(harris_resp_of(0, 0, 0, cfg.harris_k_pm as int) == 0);
                assert(hws.resp.at(y, x) as int
                    == harris_resp_of(hws.sxx.at(y, x) as int, hws.syy.at(y, x) as int,
                        hws.sxy.at(y, x) as int, cfg.harris_k_pm as int));
            }
            assert(resp_max_of(hws.resp) == 0) by {
                lemma_seq_max_i64(hws.resp.data@);
                if hws.resp.data@.len() > 0 {
                    assert forall|i: int| 0 <= i < hws.resp.data@.len()
                        implies hws.resp.data@[i] == 0 by {
                        lemma_flat_coords(h as int, w as int, i);
                        assert(hws.resp.at(i / (w as int), i % (w as int)) == 0);
                    }
                    let i = choose|i: int|
                        0 <= i < hws.resp.data@.len()
                            && hws.resp.data@[i] == seq_max_i64(hws.resp.data@);
                }
            }
            assert forall|y: int, x: int|
                0 <= y < h && 0 <= x < w
                implies !(#[trigger] hws.corners.at(y, x)) by {
                assert(!harris_above(hws.resp, cfg.harris_thresh_pm, y, x));
            }
        }
    }

    let quads = detector.candidates(&detector.cws.edges, &detector.hws.corners);
    proof {
        if uniform_img(*img) {
            assert(quads@.len() == 0);
        }
    }
    let mut res: Vec<Tag> = Vec::new();
    let n = quads.len();
    let mut k: usize = 0;
    while k < n
        invariant
            img.wf(),
            img.h <= 0x2000_0000,
            img.w <= 0x2000_0000,
            n == quads@.len(),
            k <= n,
            res@.len() == k,
            forall|i: int|
                0 <= i < quads@.len()
                    ==> cand_ok(detector.hws.corners, #[trigger] quads@[i])
                        && quad_near_edges(detector.cws.edges, #[trigger] quads@[i])
                        && crate::filters::quad_small(#[trigger] quads@[i]),
            forall|i: int|
                0 <= i < k
                    ==> (#[trigger] res@[i]).id == decode_spec(*img, res@[i].corners)
                        && res@[i].corners == quads@[i],
        decreases n - k,
    {
        let q = quads[k];
        let id = decode(img, q);
        res.push(Tag { id, corners: q });
        k = k + 1;
    }
    proof {
        let ss = choose|ss: Seq<Seq<Point>>|
            find_shapes_post(detector.cws.edges, detector.hws.corners, ss)
                && quads@ == apply_filters_spec(detector.config,
                    #[trigger] crate::shapes::quads_spec(ss));
        assert(tags_chain(*img, detector.config, detector.cws, detector.hws, ss, res@));
        assert(exists|ss2: Seq<Seq<Point>>|
            #[trigger] tags_chain(*img, detector.config, detector.cws, detector.hws, ss2, res@));
    }
    res
}

} // verus!

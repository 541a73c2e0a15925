//! A fiducial-marker (square tag) detector.
//!
//! Given a single-channel quantized intensity image, the detector locates
//! quadrilateral tag candidates through a Canny edge stage and a Harris
//! corner stage, groups edge components with a union-find labeler that
//! harvests nearby corners, reduces each component to a quad, filters the
//! quads geometrically, and decodes a 6 by 6 bit grid inside each
//! surviving quad against a fixed codebook with bounded Hamming
//! tolerance and rotational invariance.
//!
//! Floating-point concerns — intensity normalization, pose estimation
//! and any spectral filtering strategy — belong to the caller; the
//! pipeline here is exact integer arithmetic end to end.

pub mod grid;
pub mod types;
pub mod oper;
pub mod post;
pub mod config;
pub mod ws;
pub mod mask;
pub mod uf;
pub mod shapes;
pub mod detector;
pub mod filters;
pub mod decode;
pub mod candidates;
pub mod process;

use vstd::prelude::*;
use crate::types::{Lightness, Tag, Filter, Point};
use crate::config::Config;
use crate::detector::Detector;
use crate::process::{process, uniform_img, tags_chain};
use crate::mask::{canny_post, harris_post};
use crate::ws::{CannyWorkspace, HarrisWorkspace};
use crate::decode::decode_spec;

verus! {

/// Detect the tags of one frame with the default configuration,
/// allocating fresh workspaces.  The result runs the whole verified
/// chain: for some Canny and Harris workspaces satisfying their stage
/// contracts for this image and a shape grouping satisfying shape
/// extraction's contract, the result holds one tag per quad surviving
/// the default filters, in order, each decoded from the image; and a
/// uniform image yields no tags.
pub fn tags(img: &Lightness) -> (res: Vec<Tag>)
    requires
        img.wf(),
        1 <= img.h <= 0x1000,
        1 <= img.w <= 0x1000,
    ensures
        forall|k: int|
            0 <= k < res@.len()
                ==> (#[trigger] res@[k]).id == decode_spec(*img, res@[k].corners),
        exists|cws: CannyWorkspace, hws: HarrisWorkspace, ss: Seq<Seq<Point>>|
            canny_post(*img, Config::default_spec(), cws)
                && harris_post(*img, Config::default_spec(), hws)
                && #[trigger] tags_chain(*img, Config::default_spec(), cws, hws, ss, res@),
        uniform_img(*img) ==> res@.len() == 0,
{
    let mut detector = Detector::default();
    let res = process(img, &mut detector);
    proof {
        assert(detector.config == Config::default_spec());
        let ss = choose|ss: Seq<Seq<Point>>|
            #[trigger] tags_chain(*img, detector.config, detector.cws, detector.hws, ss, res@);
        assert(canny_post(*img, Config::default_spec(), detector.cws));
        assert(harris_post(*img, Config::default_spec(), detector.hws));
        assert(tags_chain(*img, Config::default_spec(), detector.cws, detector.hws, ss, res@));
        assert(exists|cws: CannyWorkspace, hws: HarrisWorkspace, ss2: Seq<Seq<Point>>|
            canny_post(*img, Config::default_spec(), cws)
                && harris_post(*img, Config::default_spec(), hws)
                && #[trigger] tags_chain(*img, Config::default_spec(), cws, hws, ss2, res@));
    }
    res
}

/// The default configuration with the filter toggles replaced.
pub open spec fn custom_config(filter: Filter) -> Config {
    Config {
        harris_k_pm: 100,
        harris_thresh_pm: 500,
        hyst_low_pm: 125,
        hyst_high_pm: 500,
        filter_ratios: filter.ratios,
        filter_angles: filter.angles,
        filter_enclosed: filter.enclosed,
    }
}

/// Detect the tags of one frame with chosen filter toggles; the
/// result runs the whole verified chain exactly as `tags`, under the
/// default thresholds with the given toggles.
pub fn tags_custom(img: &Lightness, filter: Filter) -> (res: Vec<Tag>)
    requires
        img.wf(),
        1 <= img.h <= 0x1000,
        1 <= img.w <= 0x1000,
    ensures
        forall|k: int|
            0 <= k < res@.len()
                ==> (#[trigger] res@[k]).id == decode_spec(*img, res@[k].corners),
        exists|cws: CannyWorkspace, hws: HarrisWorkspace, ss: Seq<Seq<Point>>|
            canny_post(*img, custom_config(filter), cws)
                && harris_post(*img, custom_config(filter), hws)
                && #[trigger] tags_chain(*img, custom_config(filter), cws, hws, ss, res@),
        uniform_img(*img) ==> res@.len() == 0,
{
    let base = Config::default();
    let config = Config {
        filter_ratios: filter.ratios,
        filter_angles: filter.angles,
        filter_enclosed: filter.enclosed,
        ..base
    };
    let mut detector = Detector::new(config);
    let res = process(img, &mut detector);
    proof {
        assert(detector.config == custom_config(filter));
        let ss = choose|ss: Seq<Seq<Point>>|
            #[trigger] tags_chain(*img, detector.config, detector.cws, detector.hws, ss, res@);
        assert(canny_post(*img, custom_config(filter), detector.cws));
        assert(harris_post(*img, custom_config(filter), detector.hws));
        assert(tags_chain(*img, custom_config(filter), detector.cws, detector.hws, ss, res@));
        assert(exists|cws: CannyWorkspace, hws: HarrisWorkspace, ss2: Seq<Seq<Point>>|
            canny_post(*img, custom_config(filter), cws)
                && harris_post(*img, custom_config(filter), hws)
                && #[trigger] tags_chain(*img, custom_config(filter), cws, hws, ss2, res@));
    }
    res
}

} // verus!

//! Detector configuration.
//!
//! Every threshold is a fraction of a per-frame maximum, stored in
//! permyriad (parts per 10000) so that the pipeline can compare
//! exactly: a value `v` is "above the fraction `p`" of a maximum `m`
//! when `v * 10000 > p * m`.  The field of view only matters to the
//! caller's pose stage and is not part of this record.

use vstd::prelude::*;

verus! {

/// Thresholds and filter toggles, read by every pipeline stage and
/// never mutated during a frame.
#[derive(Debug, Clone, Copy, PartialEq, Eq, Structural)]
pub struct Config {
    /// Harris sensitivity constant `k`, in permyriad (default 100, i.e. 0.01).
    pub harris_k_pm: u32,
    /// Harris acceptance threshold relative to the frame's maximum
    /// response, in permyriad (default 500, i.e. 0.05).
    pub harris_thresh_pm: u32,
    /// Hysteresis low threshold relative to the frame's maximum
    /// suppressed magnitude, in permyriad (default 125, i.e. 0.0125).
    pub hyst_low_pm: u32,
    /// Hysteresis high threshold, in permyriad (default 500, i.e. 0.05).
    pub hyst_high_pm: u32,
    /// Apply the side-length ratio filter (default on).
    pub filter_ratios: bool,
    /// Apply the corner angle filter (default on).
    pub filter_angles: bool,
    /// Apply the enclosure filter (default on).
    pub filter_enclosed: bool,
}

impl Config {
    /// The documented default configuration.
    pub open spec fn default_spec() -> Config {
        Config {
            harris_k_pm: 100,
            harris_thresh_pm: 500,
            hyst_low_pm: 125,
            hyst_high_pm: 500,
            filter_ratios: true,
            filter_angles: true,
            filter_enclosed: true,
        }
    }

    /// Thresholds are proper permyriad fractions and the hysteresis
    /// band is ordered.
    pub open spec fn valid(self) -> bool {
        &&& self.harris_k_pm <= 10000
        &&& self.harris_thresh_pm <= 10000
        &&& self.hyst_low_pm <= self.hyst_high_pm
        &&& self.hyst_high_pm <= 10000
    }
}

impl Default for Config {
    /// The documented defaults: Harris k 0.01, Harris threshold 0.05,
    /// hysteresis band 0.0125 to 0.05, all three geometric filters on.
    fn default() -> (r: Self)
        ensures
            r.valid(),
            r == Config::default_spec(),
    {
        Config {
            harris_k_pm: 100,
            harris_thresh_pm: 500,
            hyst_low_pm: 125,
            hyst_high_pm: 500,
            filter_ratios: true,
            filter_angles: true,
            filter_enclosed: true,
        }
    }
}

} // verus!

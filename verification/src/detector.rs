//! The detector: configuration plus the two stage workspaces.
//!
//! One `Detector` serves one frame at a time; its workspaces are
//! resized only when the frame dimensions change.

use vstd::prelude::*;
use crate::config::Config;
use crate::ws::{CannyWorkspace, HarrisWorkspace};

verus! {

pub struct Detector {
    pub cws: CannyWorkspace,
    pub hws: HarrisWorkspace,
    pub config: Config,
}

impl Detector {
    /// Both workspaces are well-formed at some dimensions and the
    /// configuration is sane.
    pub open spec fn wf_any(self) -> bool {
        &&& self.cws.wf_any()
        &&& self.hws.wf_any()
        &&& self.config.valid()
    }

    /// A detector with the given configuration and empty workspaces.
    pub fn new(config: Config) -> (r: Self)
        requires
            config.valid(),
        ensures
            r.wf_any(),
            r.config == config,
            r.cws.wf(0, 0),
            r.hws.wf(0, 0),
    {
        Detector {
            config,
            cws: CannyWorkspace::default(),
            hws: HarrisWorkspace::default(),
        }
    }

    /// Size both workspaces for an `h` by `w` frame, reallocating only
    /// on change.
    pub fn ensure(&mut self, h: usize, w: usize)
        requires
            old(self).wf_any(),
            h * w <= usize::MAX,
        ensures
            final(self).wf_any(),
            final(self).cws.wf(h as int, w as int),
            final(self).hws.wf(h as int, w as int),
            final(self).config == old(self).config,
            old(self).cws.wf(h as int, w as int) ==> final(self).cws == old(self).cws,
            old(self).hws.wf(h as int, w as int) ==> final(self).hws == old(self).hws,
    {
        self.cws.ensure(h, w);
        self.hws.ensure(h, w);
    }
}

impl Default for Detector {
    /// The default configuration with empty workspaces.
    fn default() -> (r: Self)
        ensures
            r.wf_any(),
            r.config == Config::default_spec(),
            r.cws.wf(0, 0),
            r.hws.wf(0, 0),
    {
        Detector {
            config: Config::default(),
            cws: CannyWorkspace::default(),
            hws: HarrisWorkspace::default(),
        }
    }
}

} // verus!

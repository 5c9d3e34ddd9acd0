//! Which path converts, and what it asks for before it is loaded.
use crate::config;
use crate::error::{rt, Error, ErrorValue};
use crate::startup;
use crate::text::join;
use crate::tg::Trial;
use vstd::prelude::*;
use vstd::string::*;

verus! {

broadcast use vstd::string::group_string_axioms;

/// Which path converts.
pub enum Conversion {
    /// The low-latency path with choices of a trial.
    DeiterisTrial {
        model_dir: String,
        assets: String,
        startup: startup::Startup,
        cuda_graph: bool,
        trial: Trial,
    },
    Legacy { model_dir: String, startup: config::Startup },
    /// The low-latency path.
    Deiteris { model_dir: String, assets: String, startup: startup::Startup, cuda_graph: bool },
    /// The path that is on the device throughout.
    DeiterisGpu { model_dir: String, assets: String, startup: startup::Startup, cuda_graph: bool },
}

/// A bundle of files that a path needs: where it is, and whether its contract is there.
pub struct Bundle {
    pub path: String,
    pub present: bool,
}

/// The directory of the pitch graphs.
pub const PITCH_BUNDLE: &'static str = "tg-gpu-pitch-v2";

/// The directory of the analysis and output graphs.
pub const FAST_BUNDLE: &'static str = "tg-fast-v1";

/// The directory of the graphs of the path that is on the device throughout.
pub const PIPELINE_BUNDLE: &'static str = "tg-full-gpu-pipeline-v1";

/// Why a path cannot be loaded, as far as its files tell. The device path asks for its own bundle first.
pub open spec fn bundle_fault(c: Conversion, pipeline: Bundle, pitch: Bundle) -> Option<ErrorValue> {
    if c is DeiterisGpu && !pipeline.present {
        Some(ErrorValue::Runtime("missing experimental full-GPU assets: "@ + pipeline.path@))
    } else if !(c is Legacy) && !pitch.present {
        Some(ErrorValue::Runtime("missing Fast V2 GPU assets: "@ + pitch.path@))
    } else {
        None
    }
}

impl Conversion {
    /// The rate of the stream.
    pub fn sample_rate(&self) -> (r: u32)
        ensures
            r == (match self {
                Conversion::Legacy { startup, .. } => startup.sample_rate,
                Conversion::Deiteris { startup, .. } => startup.sample_rate as u32,
                Conversion::DeiterisGpu { startup, .. } => startup.sample_rate as u32,
                Conversion::DeiterisTrial { startup, .. } => startup.sample_rate as u32,
            }),
    {
        match self {
            Conversion::Legacy { startup, .. } => startup.sample_rate,
            Conversion::Deiteris { startup, .. } => startup.sample_rate as u32,
            Conversion::DeiterisGpu { startup, .. } => startup.sample_rate as u32,
            Conversion::DeiterisTrial { startup, .. } => startup.sample_rate as u32,
        }
    }

    /// Checks that the files of the path are there, before anything is loaded.
    pub fn check_bundles(&self, pipeline: &Bundle, pitch: &Bundle) -> (r: Result<(), Error>)
        ensures
            match bundle_fault(*self, *pipeline, *pitch) {
                Some(e) => r matches Err(x) && x@ == e,
                None => r is Ok,
            },
    {
        let device: bool = match self {
            Conversion::DeiterisGpu { .. } => true,
            _ => false,
        };
        let legacy: bool = match self {
            Conversion::Legacy { .. } => true,
            _ => false,
        };
        if device && !pipeline.present {
            return Err(rt(join("missing experimental full-GPU assets: ", pipeline.path.as_str())));
        }
        if !legacy && !pitch.present {
            return Err(rt(join("missing Fast V2 GPU assets: ", pitch.path.as_str())));
        }
        Ok(())
    }
}

/// The path with a legacy engine needs no bundle; the others need the pitch bundle, and the one that is on the
/// device throughout its own as well. Nothing else is asked for.
pub proof fn law_paths_need_their_bundles(c: Conversion, pipeline: Bundle, pitch: Bundle)
    ensures
        c is Legacy ==> bundle_fault(c, pipeline, pitch) is None,
        c is DeiterisGpu ==> (bundle_fault(c, pipeline, pitch) is None) == (pipeline.present
            && pitch.present),
        c is Deiteris || c is DeiterisTrial ==> (bundle_fault(c, pipeline, pitch) is None)
            == pitch.present,
{
}

} // verus!

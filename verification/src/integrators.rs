use vstd::prelude::*;
use crate::text::str_equal;

verus! {

/// The light transport algorithms a scene can ask for.
#[derive(Debug, PartialEq, Eq, Clone, Copy, Structural)]
pub enum IntegratorKind {
    Normal,
    Albedo,
    Uv,
    Path,
    VolPath,
    PathMis,
    Direct,
    HybridDirect,
    HybridPath,
    HybridPathMis,
    HybridVolPathMis,
    SdfDirect,
}

/// The integrator a scene's `type` names, if it names one.
pub open spec fn spec_integrator_from_name(name: Seq<char>) -> Option<IntegratorKind> {
    if name == "normal"@ {
        Some(IntegratorKind::Normal)
    } else if name == "albedo"@ {
        Some(IntegratorKind::Albedo)
    } else if name == "uv"@ {
        Some(IntegratorKind::Uv)
    } else if name == "path"@ {
        Some(IntegratorKind::Path)
    } else if name == "volpath"@ {
        Some(IntegratorKind::VolPath)
    } else if name == "path_mis"@ {
        Some(IntegratorKind::PathMis)
    } else if name == "direct"@ {
        Some(IntegratorKind::Direct)
    } else if name == "hybrid_direct"@ {
        Some(IntegratorKind::HybridDirect)
    } else if name == "hybrid_path"@ {
        Some(IntegratorKind::HybridPath)
    } else if name == "hybrid_path_mis"@ || name == "sdf_path_mis"@ {
        Some(IntegratorKind::HybridPathMis)
    } else if name == "hybrid_vol_path_mis"@ || name == "volpath_mis"@ || name == "sdf_volpath_mis"@ {
        Some(IntegratorKind::HybridVolPathMis)
    } else if name == "sdf_direct"@ {
        Some(IntegratorKind::SdfDirect)
    } else {
        None
    }
}

impl IntegratorKind {
    /// The integrator named `name`, or `None` for a name that none has.
    pub fn from_name(name: &str) -> (res: Option<IntegratorKind>)
        ensures
            res == spec_integrator_from_name(name@),
    {
        if str_equal(name, "normal") {
            Some(IntegratorKind::Normal)
        } else if str_equal(name, "albedo") {
            Some(IntegratorKind::Albedo)
        } else if str_equal(name, "uv") {
            Some(IntegratorKind::Uv)
        } else if str_equal(name, "path") {
            Some(IntegratorKind::Path)
        } else if str_equal(name, "volpath") {
            Some(IntegratorKind::VolPath)
        } else if str_equal(name, "path_mis") {
            Some(IntegratorKind::PathMis)
        } else if str_equal(name, "direct") {
            Some(IntegratorKind::Direct)
        } else if str_equal(name, "hybrid_direct") {
            Some(IntegratorKind::HybridDirect)
        } else if str_equal(name, "hybrid_path") {
            Some(IntegratorKind::HybridPath)
        } else if str_equal(name, "hybrid_path_mis") || str_equal(name, "sdf_path_mis") {
            Some(IntegratorKind::HybridPathMis)
        } else if str_equal(name, "hybrid_vol_path_mis") || str_equal(name, "volpath_mis") || str_equal(
            name,
            "sdf_volpath_mis",
        ) {
            Some(IntegratorKind::HybridVolPathMis)
        } else if str_equal(name, "sdf_direct") {
            Some(IntegratorKind::SdfDirect)
        } else {
            None
        }
    }
}

/// How the direct lighting integrator samples light.
#[derive(Debug, PartialEq, Eq, Clone, Copy, Structural)]
pub enum DirectType {
    Bsdf,
    Naive,
    Emitter,
    Mis,
}

/// The sampling strategy named `name`, if it names one.
pub open spec fn spec_direct_type_from_name(name: Seq<char>) -> Option<DirectType> {
    if name == "bsdf"@ {
        Some(DirectType::Bsdf)
    } else if name == "naive"@ {
        Some(DirectType::Naive)
    } else if name == "emitter"@ {
        Some(DirectType::Emitter)
    } else if name == "mis"@ {
        Some(DirectType::Mis)
    } else {
        None
    }
}

/// Direct lighting integrator: one bounce of light, sampled by the chosen strategy.
pub struct DirectIntegrator {
    direct_type: DirectType,
}

impl DirectIntegrator {
    /// The sampling strategy.
    pub closed spec fn spec_direct_type(&self) -> DirectType {
        self.direct_type
    }

    /// The integrator for the strategy named `strategy` ("bsdf", "naive",
    /// "emitter" or "mis"), or `None` for a name that no strategy has.
    pub fn from_strategy(strategy: &str) -> (res: Option<DirectIntegrator>)
        ensures
            match spec_direct_type_from_name(strategy@) {
                Some(t) => res matches Some(d) && d.spec_direct_type() == t,
                None => res is None,
            },
    {
        let direct_type = if str_equal(strategy, "bsdf") {
            DirectType::Bsdf
        } else if str_equal(strategy, "naive") {
            DirectType::Naive
        } else if str_equal(strategy, "emitter") {
            DirectType::Emitter
        } else if str_equal(strategy, "mis") {
            DirectType::Mis
        } else {
            return None;
        };
        Some(DirectIntegrator { direct_type })
    }

    /// The sampling strategy.
    pub fn direct_type(&self) -> (res: DirectType)
        ensures
            res == self.spec_direct_type(),
    {
        self.direct_type
    }
}

/// The number of bounces a path integrator takes when the scene sets none.
pub const DEFAULT_MAX_DEPTH: usize = 16;

/// The number of bounces a `max_depth` setting gives: the setting itself, or
/// `DEFAULT_MAX_DEPTH` when there is none.
pub open spec fn spec_max_depth_setting(max_depth: Option<usize>) -> nat {
    match max_depth {
        Some(d) => d as nat,
        None => DEFAULT_MAX_DEPTH as nat,
    }
}

fn max_depth_setting(max_depth: Option<usize>) -> (res: usize)
    ensures
        res == spec_max_depth_setting(max_depth),
{
    match max_depth {
        Some(d) => d,
        None => DEFAULT_MAX_DEPTH,
    }
}

/// Path tracing integrator: follows each path for up to `max_depth` bounces, sampling the BSDF.
pub struct PathIntegrator {
    max_depth: usize,
}

impl PathIntegrator {
    /// The number of bounces a path may take.
    pub closed spec fn spec_max_depth(&self) -> nat {
        self.max_depth as nat
    }

    /// The integrator with the `max_depth` a scene sets, or
    /// `DEFAULT_MAX_DEPTH` bounces when it sets none.
    pub fn from_setting(max_depth: Option<usize>) -> (res: PathIntegrator)
        ensures
            res.spec_max_depth() == spec_max_depth_setting(max_depth),
    {
        PathIntegrator { max_depth: max_depth_setting(max_depth) }
    }

    /// The number of bounces a path may take.
    pub fn max_depth(&self) -> (res: usize)
        ensures
            res == self.spec_max_depth(),
    {
        self.max_depth
    }
}

/// Path tracing integrator with multiple importance sampling of lights and BSDF, up to `max_depth` bounces.
pub struct PathMisIntegrator {
    max_depth: usize,
}

impl PathMisIntegrator {
    /// The number of bounces a path may take.
    pub closed spec fn spec_max_depth(&self) -> nat {
        self.max_depth as nat
    }

    /// The integrator with the `max_depth` a scene sets, or
    /// `DEFAULT_MAX_DEPTH` bounces when it sets none.
    pub fn from_setting(max_depth: Option<usize>) -> (res: PathMisIntegrator)
        ensures
            res.spec_max_depth() == spec_max_depth_setting(max_depth),
    {
        PathMisIntegrator { max_depth: max_depth_setting(max_depth) }
    }

    /// The number of bounces a path may take.
    pub fn max_depth(&self) -> (res: usize)
        ensures
            res == self.spec_max_depth(),
    {
        self.max_depth
    }
}

/// Path tracing integrator through participating media, up to `max_depth` bounces.
pub struct VolumetricPathIntegrator {
    max_depth: usize,
}

impl VolumetricPathIntegrator {
    /// The number of bounces a path may take.
    pub closed spec fn spec_max_depth(&self) -> nat {
        self.max_depth as nat
    }

    /// The integrator with the `max_depth` a scene sets, or
    /// `DEFAULT_MAX_DEPTH` bounces when it sets none.
    pub fn from_setting(max_depth: Option<usize>) -> (res: VolumetricPathIntegrator)
        ensures
            res.spec_max_depth() == spec_max_depth_setting(max_depth),
    {
        VolumetricPathIntegrator { max_depth: max_depth_setting(max_depth) }
    }

    /// The number of bounces a path may take.
    pub fn max_depth(&self) -> (res: usize)
        ensures
            res == self.spec_max_depth(),
    {
        self.max_depth
    }
}

/// Integrator that shows the texture coordinates of the surface seen.
pub struct UvIntegrator;

} // verus!

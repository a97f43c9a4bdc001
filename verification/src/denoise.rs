use vstd::prelude::*;
use crate::text::str_equal;

verus! {

/// How the rendered image is denoised.
#[derive(Debug, PartialEq, Eq, Clone, Copy, Structural)]
pub enum DenoiseType {
    NoDenoise,
    Simple,
    Full,
}

/// The denoising that a scene's `denoise` setting asks for: `None` when the
/// setting is absent or is not text.
pub open spec fn spec_denoise_from_setting(setting: Option<Seq<char>>) -> DenoiseType {
    match setting {
        Some(s) => if s == "simple"@ {
            DenoiseType::Simple
        } else if s == "full"@ {
            DenoiseType::Full
        } else {
            DenoiseType::NoDenoise
        },
        None => DenoiseType::NoDenoise,
    }
}

impl DenoiseType {
    /// The denoising that a scene's `denoise` setting asks for ("simple" or
    /// "full"); an absent setting, one that is not text, or any other text
    /// means no denoising.
    pub fn from_setting(setting: Option<&str>) -> (res: DenoiseType)
        ensures
            res == spec_denoise_from_setting(match setting { Some(s) => Some(s@), None => None }),
    {
        match setting {
            Some(s) => if str_equal(s, "simple") {
                DenoiseType::Simple
            } else if str_equal(s, "full") {
                DenoiseType::Full
            } else {
                DenoiseType::NoDenoise
            },
            None => DenoiseType::NoDenoise,
        }
    }
}

} // verus!

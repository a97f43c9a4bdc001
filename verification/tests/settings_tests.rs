use raytracer::denoise::DenoiseType;
use raytracer::integrators::{DirectIntegrator, DirectType, IntegratorKind};
use raytracer::samplers::hash_bits;
use raytracer::text::str_equal;

#[test]
fn denoise_settings() {
    assert_eq!(DenoiseType::from_setting(None), DenoiseType::NoDenoise);
    assert_eq!(DenoiseType::from_setting(Some("simple")), DenoiseType::Simple);
    assert_eq!(DenoiseType::from_setting(Some("full")), DenoiseType::Full);
    assert_eq!(DenoiseType::from_setting(Some("other")), DenoiseType::NoDenoise);
}

#[test]
fn integrator_names() {
    assert_eq!(IntegratorKind::from_name("normal"), Some(IntegratorKind::Normal));
    assert_eq!(IntegratorKind::from_name("albedo"), Some(IntegratorKind::Albedo));
    assert_eq!(IntegratorKind::from_name("uv"), Some(IntegratorKind::Uv));
    assert_eq!(IntegratorKind::from_name("path"), Some(IntegratorKind::Path));
    assert_eq!(IntegratorKind::from_name("volpath"), Some(IntegratorKind::VolPath));
    assert_eq!(IntegratorKind::from_name("path_mis"), Some(IntegratorKind::PathMis));
    assert_eq!(IntegratorKind::from_name("direct"), Some(IntegratorKind::Direct));
    assert_eq!(IntegratorKind::from_name("hybrid_direct"), Some(IntegratorKind::HybridDirect));
    assert_eq!(IntegratorKind::from_name("hybrid_path"), Some(IntegratorKind::HybridPath));
    assert_eq!(IntegratorKind::from_name("hybrid_path_mis"), Some(IntegratorKind::HybridPathMis));
    assert_eq!(IntegratorKind::from_name("sdf_path_mis"), Some(IntegratorKind::HybridPathMis));
    assert_eq!(IntegratorKind::from_name("hybrid_vol_path_mis"), Some(IntegratorKind::HybridVolPathMis));
    assert_eq!(IntegratorKind::from_name("volpath_mis"), Some(IntegratorKind::HybridVolPathMis));
    assert_eq!(IntegratorKind::from_name("sdf_volpath_mis"), Some(IntegratorKind::HybridVolPathMis));
    assert_eq!(IntegratorKind::from_name("sdf_direct"), Some(IntegratorKind::SdfDirect));
    assert_eq!(IntegratorKind::from_name("whitted"), None);
}

#[test]
fn direct_strategies() {
    assert_eq!(DirectIntegrator::from_strategy("bsdf").unwrap().direct_type(), DirectType::Bsdf);
    assert_eq!(DirectIntegrator::from_strategy("naive").unwrap().direct_type(), DirectType::Naive);
    assert_eq!(DirectIntegrator::from_strategy("emitter").unwrap().direct_type(), DirectType::Emitter);
    assert_eq!(DirectIntegrator::from_strategy("mis").unwrap().direct_type(), DirectType::Mis);
    assert!(DirectIntegrator::from_strategy("other").is_none());
}

#[test]
fn hash_bits_values() {
    assert_eq!(hash_bits(0, 0), 0);
    assert_eq!(hash_bits(1, 0), 5873722607076820884);
    assert_eq!(hash_bits(0, 1), 1376806784277418364);
    assert_eq!(hash_bits(0.5f64.to_bits(), 0.25f64.to_bits()), 9138378324053676064);
}

#[test]
fn text_equality() {
    assert!(str_equal("sah", "sah"));
    assert!(!str_equal("sah", "sa"));
    assert!(!str_equal("", "x"));
    assert!(str_equal("", ""));
}

use raytracer::integrators::{PathIntegrator, PathMisIntegrator, VolumetricPathIntegrator, DEFAULT_MAX_DEPTH};

#[test]
fn max_depth_defaults_to_sixteen() {
    assert_eq!(DEFAULT_MAX_DEPTH, 16);
    assert_eq!(PathIntegrator::from_setting(None).max_depth(), 16);
    assert_eq!(PathMisIntegrator::from_setting(None).max_depth(), 16);
    assert_eq!(VolumetricPathIntegrator::from_setting(None).max_depth(), 16);
}

#[test]
fn max_depth_setting_is_kept() {
    assert_eq!(PathIntegrator::from_setting(Some(4)).max_depth(), 4);
    assert_eq!(PathMisIntegrator::from_setting(Some(0)).max_depth(), 0);
    assert_eq!(VolumetricPathIntegrator::from_setting(Some(64)).max_depth(), 64);
}

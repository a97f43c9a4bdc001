use raytracer::scene::{first_unknown_material, AcceleratorKind};

#[test]
fn accelerator_names() {
    assert_eq!(AcceleratorKind::from_name("bvh"), AcceleratorKind::Bvh);
    assert_eq!(AcceleratorKind::from_name("linear"), AcceleratorKind::Linear);
    assert_eq!(AcceleratorKind::from_name("kdtree"), AcceleratorKind::Linear);
    assert_eq!(AcceleratorKind::from_name(""), AcceleratorKind::Linear);
}

fn names(v: &[&str]) -> Vec<String> {
    v.iter().map(|s| s.to_string()).collect()
}

#[test]
fn every_shape_material_known() {
    let materials = names(&["white", "light", "red"]);
    assert_eq!(first_unknown_material(&names(&["red", "white", "red", "light"]), &materials), None);
    assert_eq!(first_unknown_material(&names(&[]), &materials), None);
}

#[test]
fn first_unknown_material_is_reported() {
    let materials = names(&["white", "light"]);
    assert_eq!(first_unknown_material(&names(&["white", "glass", "metal"]), &materials), Some(1));
    assert_eq!(first_unknown_material(&names(&["white"]), &names(&[])), Some(0));
}

use vstd::prelude::*;
use crate::text::str_equal;

verus! {

/// How the shapes of a scene are searched for ray hits.
#[derive(Debug, PartialEq, Eq, Clone, Copy, Structural)]
pub enum AcceleratorKind {
    /// Every shape is tested in turn.
    Linear,
    /// A bounding volume hierarchy over the shapes.
    Bvh,
}

/// The accelerator an accelerator `type` names: `"bvh"` names the hierarchy,
/// and `"linear"`, like any other name, the linear search.
pub open spec fn spec_accelerator_from_name(name: Seq<char>) -> AcceleratorKind {
    if name == "bvh"@ { AcceleratorKind::Bvh } else { AcceleratorKind::Linear }
}

impl AcceleratorKind {
    /// The accelerator named `name`; an unknown name falls back to the linear search.
    pub fn from_name(name: &str) -> (res: AcceleratorKind)
        ensures
            res == spec_accelerator_from_name(name@),
    {
        if str_equal(name, "bvh") { AcceleratorKind::Bvh } else { AcceleratorKind::Linear }
    }
}

/// Whether some material in `names` is called `name`.
pub open spec fn material_known(names: Seq<String>, name: Seq<char>) -> bool {
    exists|j: int| 0 <= j < names.len() && (#[trigger] names[j])@ == name
}

/// The first shape whose material name (`shape_materials[i]` for shape `i`)
/// is not among the scene's materials, or `None` when every shape names one
/// that exists.
pub fn first_unknown_material(shape_materials: &Vec<String>, material_names: &Vec<String>) -> (res: Option<usize>)
    ensures
        match res {
            None => forall|i: int| 0 <= i < shape_materials@.len() ==>
                material_known(material_names@, (#[trigger] shape_materials@[i])@),
            Some(i) => {
                &&& i < shape_materials@.len()
                &&& !material_known(material_names@, shape_materials@[i as int]@)
                &&& forall|k: int| 0 <= k < i ==>
                    material_known(material_names@, (#[trigger] shape_materials@[k])@)
            },
        },
{
    let n = shape_materials.len();
    let m = material_names.len();
    let mut i: usize = 0;
    while i < n
        invariant
            n == shape_materials@.len(),
            m == material_names@.len(),
            i <= n,
            forall|k: int| 0 <= k < i ==> material_known(material_names@, (#[trigger] shape_materials@[k])@),
        decreases n - i,
    {
        let mut found = false;
        let mut j: usize = 0;
        while j < m && !found
            invariant
                n == shape_materials@.len(),
                m == material_names@.len(),
                i < n,
                j <= m,
                found ==> material_known(material_names@, shape_materials@[i as int]@),
                !found ==> forall|l: int| 0 <= l < j ==> (#[trigger] material_names@[l])@ != shape_materials@[i as int]@,
            decreases m - j,
        {
            if str_equal(material_names[j].as_str(), shape_materials[i].as_str()) {
                found = true;
            }
            j = j + 1;
        }
        if !found {
            return Some(i);
        }
        i = i + 1;
    }
    None
}

} // verus!

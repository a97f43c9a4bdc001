use raytracer::sdf_bvh::{split_point, BvhNodeKind, SdfBvhLayout, SdfSplitOracle};

struct Oracle {
    splittable: bool,
    added: Vec<(usize, usize)>,
    sorted: Vec<(usize, usize)>,
}

impl SdfSplitOracle for Oracle {
    fn node_added(&mut self, lo: usize, hi: usize) {
        self.added.push((lo, hi));
    }
    fn sort_for_split(&mut self, lo: usize, hi: usize) -> bool {
        self.sorted.push((lo, hi));
        self.splittable
    }
}

#[test]
fn fewer_than_two_objects_give_none() {
    let mut o = Oracle { splittable: true, added: vec![], sorted: vec![] };
    assert!(SdfBvhLayout::build(0, &mut o).is_none());
    assert!(SdfBvhLayout::build(1, &mut o).is_none());
    assert!(o.added.is_empty());
}

#[test]
fn two_objects_make_one_leaf() {
    let mut o = Oracle { splittable: true, added: vec![], sorted: vec![] };
    let l = SdfBvhLayout::build(2, &mut o).unwrap();
    assert_eq!(l.nodes().as_slice(), &[BvhNodeKind::Leaf { start: 0, count: 2 }]);
    assert!(o.sorted.is_empty());
}

#[test]
fn collapsed_centres_make_one_leaf() {
    let mut o = Oracle { splittable: false, added: vec![], sorted: vec![] };
    let l = SdfBvhLayout::build(9, &mut o).unwrap();
    assert_eq!(l.nodes().as_slice(), &[BvhNodeKind::Leaf { start: 0, count: 9 }]);
    assert_eq!(o.sorted, vec![(0, 9)]);
}

#[test]
fn five_objects_split_in_halves() {
    let mut o = Oracle { splittable: true, added: vec![], sorted: vec![] };
    let l = SdfBvhLayout::build(5, &mut o).unwrap();
    assert_eq!(
        l.nodes().as_slice(),
        &[
            BvhNodeKind::Interior { left: 1, right: 2 },
            BvhNodeKind::Leaf { start: 0, count: 2 },
            BvhNodeKind::Interior { left: 3, right: 4 },
            BvhNodeKind::Leaf { start: 2, count: 1 },
            BvhNodeKind::Leaf { start: 3, count: 2 },
        ]
    );
    assert_eq!(o.added, vec![(0, 5), (0, 2), (2, 5), (2, 3), (3, 5)]);
}

#[test]
fn leaves_partition_objects() {
    for n in 2..50usize {
        let mut o = Oracle { splittable: true, added: vec![], sorted: vec![] };
        let l = SdfBvhLayout::build(n, &mut o).unwrap();
        let mut seen = vec![0usize; n];
        for node in l.nodes() {
            if let BvhNodeKind::Leaf { start, count } = node {
                assert!(*count >= 1 && *count <= 2);
                for p in *start..*start + *count {
                    seen[p] += 1;
                }
            }
        }
        assert!(seen.iter().all(|c| *c == 1));
        assert_eq!(o.added.len(), l.nodes().len());
    }
}

fn five_object_layout() -> SdfBvhLayout {
    let mut o = Oracle { splittable: true, added: vec![], sorted: vec![] };
    SdfBvhLayout::build(5, &mut o).unwrap()
}

#[test]
fn visit_with_every_box_hit_lists_all_objects() {
    let l = five_object_layout();
    assert_eq!(l.visit_objects(&vec![true; 5]), vec![0, 1, 2, 3, 4]);
}

#[test]
fn visit_with_root_missed_lists_nothing() {
    let l = five_object_layout();
    assert_eq!(l.visit_objects(&vec![false, true, true, true, true]), Vec::<usize>::new());
}

#[test]
fn visit_skips_missed_subtrees() {
    let l = five_object_layout();
    // right subtree (node 2) missed
    assert_eq!(l.visit_objects(&vec![true, true, false, true, true]), vec![0, 1]);
    // left leaf and one right leaf missed
    assert_eq!(l.visit_objects(&vec![true, false, true, true, false]), vec![2]);
    // missing entries count as misses
    assert_eq!(l.visit_objects(&vec![true, true]), vec![0, 1]);
}

#[test]
fn visit_reaches_hit_objects_through_enclosing_boxes() {
    let l = five_object_layout();
    // object 3 is hit: its leaf (node 4) and every box above it are hit too
    let visited = l.visit_objects(&vec![true, false, true, false, true]);
    assert_eq!(visited, vec![3, 4]);
    assert!(visited.contains(&3));
}

#[test]
fn split_point_follows_the_answer() {
    assert_eq!(split_point(0, 5, true), Some(2));
    assert_eq!(split_point(3, 10, true), Some(6));
    assert_eq!(split_point(0, 5, false), None);
    assert_eq!(split_point(4, 6, true), None);
    assert_eq!(split_point(4, 4, true), None);
}

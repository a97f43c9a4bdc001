use raytracer::bvh::{collect_emitters, split_offset, AxisSelection, BVHNodeInfo, Builder, BvhLayout, SplitOracle};

struct Recorder {
    leaves: Vec<(usize, usize)>,
    splits: Vec<(usize, usize, usize)>,
    proposal: usize,
}

impl SplitOracle for Recorder {
    fn longest_axis(&mut self, _node: usize) -> usize {
        1
    }
    fn split(&mut self, _builder: &Builder, axis: usize, _node: usize, first: usize, count: usize) -> usize {
        self.splits.push((axis, first, count));
        self.proposal
    }
    fn leaf_added(&mut self, first: usize, count: usize) {
        self.leaves.push((first, count));
    }
}

fn leaves(layout: &BvhLayout) -> Vec<(usize, usize)> {
    layout
        .nodes()
        .iter()
        .filter_map(|n| match n {
            BVHNodeInfo::Leaf { frist_primitive, primitive_count } => Some((*frist_primitive, *primitive_count)),
            BVHNodeInfo::Node { .. } => None,
        })
        .collect()
}

#[test]
fn split_offset_per_builder() {
    assert_eq!(split_offset(&Builder::EMedian, 7, 1), 3);
    assert_eq!(split_offset(&Builder::ESpatial, 7, 5), 5);
    assert_eq!(split_offset(&Builder::ESpatial, 7, 0), 3);
    assert_eq!(split_offset(&Builder::ESpatial, 7, 7), 3);
    assert_eq!(split_offset(&Builder::ESAH, 7, 6), 6);
    assert_eq!(split_offset(&Builder::ESAH, 7, 0), 3);
    assert_eq!(split_offset(&Builder::ESAH, 1, 0), 1);
}

#[test]
fn sah_fallback_halves_the_count_as_f32() {
    // beyond 2^24 the count is rounded to the nearest f32 before halving
    assert_eq!(split_offset(&Builder::ESAH, 16_777_219, 0), 8_388_610);
    assert_eq!(split_offset(&Builder::ESAH, 16_777_217, 0), 8_388_608);
    for count in [2usize, 3, 7, 16_777_215, 16_777_216, 16_777_217, 16_777_219, 16_777_221, 33_554_435, (1 << 40) | 12_345, usize::MAX] {
        let expected = ((count as f32 * 0.5) as usize).max(1);
        assert_eq!(split_offset(&Builder::ESAH, count, 0), expected, "count {count}");
        assert_eq!(split_offset(&Builder::ESAH, count, count), expected, "count {count}");
    }
}

#[test]
fn names_of_strategies() {
    assert_eq!(AxisSelection::from_name("roundrobin"), AxisSelection::ERoundRobin);
    assert_eq!(AxisSelection::from_name("longest"), AxisSelection::ELongest);
    assert_eq!(AxisSelection::from_name("other"), AxisSelection::ERoundRobin);
    assert_eq!(Builder::from_name("sah"), Builder::ESAH);
    assert_eq!(Builder::from_name("median"), Builder::EMedian);
    assert_eq!(Builder::from_name("spatial"), Builder::ESpatial);
    assert_eq!(Builder::from_name("bogus"), Builder::EMedian);
}

#[test]
fn node_info_accessors() {
    let mut n = BVHNodeInfo::Leaf { frist_primitive: 4, primitive_count: 2 };
    assert_eq!(n.frist_primitive(), 4);
    assert_eq!(n.primitive_count(), 2);
    n.to_node(9);
    assert_eq!(n, BVHNodeInfo::Node { left: 9 });
}

#[test]
fn small_inputs_stay_one_leaf() {
    for n in 0..=2usize {
        let mut o = Recorder { leaves: vec![], splits: vec![], proposal: 0 };
        let layout = BvhLayout::build(AxisSelection::ERoundRobin, Builder::EMedian, n, &mut o);
        assert_eq!(layout.nodes().as_slice(), &[BVHNodeInfo::Leaf { frist_primitive: 0, primitive_count: n }]);
        assert_eq!(o.leaves, vec![(0, n)]);
        assert!(o.splits.is_empty());
    }
}

#[test]
fn median_layout_of_seven() {
    let mut o = Recorder { leaves: vec![], splits: vec![], proposal: 0 };
    let layout = BvhLayout::build(AxisSelection::ERoundRobin, Builder::EMedian, 7, &mut o);
    let nodes = layout.nodes();
    assert_eq!(nodes[0], BVHNodeInfo::Node { left: 1 });
    assert_eq!(nodes[1], BVHNodeInfo::Node { left: 3 });
    assert_eq!(nodes[2], BVHNodeInfo::Node { left: 5 });
    assert_eq!(nodes[3], BVHNodeInfo::Leaf { frist_primitive: 0, primitive_count: 1 });
    assert_eq!(nodes[4], BVHNodeInfo::Leaf { frist_primitive: 1, primitive_count: 2 });
    assert_eq!(nodes[5], BVHNodeInfo::Leaf { frist_primitive: 3, primitive_count: 2 });
    assert_eq!(nodes[6], BVHNodeInfo::Leaf { frist_primitive: 5, primitive_count: 2 });
    assert_eq!(nodes.len(), 7);
    // round robin: the root is split along x, its children along y
    assert_eq!(o.splits, vec![(0, 0, 7), (1, 0, 3), (1, 3, 4)]);
    assert_eq!(o.leaves.len(), nodes.len());
}

#[test]
fn median_layout_of_six() {
    let mut o = Recorder { leaves: vec![], splits: vec![], proposal: 4 };
    let layout = BvhLayout::build(AxisSelection::ELongest, Builder::EMedian, 6, &mut o);
    assert_eq!(
        layout.nodes().as_slice(),
        &[
            BVHNodeInfo::Node { left: 1 },
            BVHNodeInfo::Node { left: 3 },
            BVHNodeInfo::Node { left: 5 },
            BVHNodeInfo::Leaf { frist_primitive: 0, primitive_count: 1 },
            BVHNodeInfo::Leaf { frist_primitive: 1, primitive_count: 2 },
            BVHNodeInfo::Leaf { frist_primitive: 3, primitive_count: 1 },
            BVHNodeInfo::Leaf { frist_primitive: 4, primitive_count: 2 },
        ]
    );
    // the median rule ignores what the oracle proposes
    assert_eq!(o.splits, vec![(1, 0, 6), (1, 0, 3), (1, 3, 3)]);
}

#[test]
fn subdividing_the_root_leaf_of_six() {
    let mut o = Recorder { leaves: vec![], splits: vec![], proposal: 0 };
    let mut layout = BvhLayout::with_root(AxisSelection::ELongest, Builder::EMedian, 6);
    assert_eq!(layout.nodes().as_slice(), &[BVHNodeInfo::Leaf { frist_primitive: 0, primitive_count: 6 }]);
    layout.subdivide_node(0, &mut o, 0);
    assert_eq!(layout.nodes().len(), 7);
    assert_eq!(layout.nodes()[0], BVHNodeInfo::Node { left: 1 });
    assert_eq!(leaves(&layout), vec![(0, 1), (1, 2), (3, 1), (4, 2)]);
    // a leaf of at most two primitives is left as it is
    let before = layout.nodes().clone();
    layout.subdivide_node(4, &mut o, 2);
    assert_eq!(layout.nodes(), &before);
}

#[test]
fn longest_axis_is_asked_of_the_oracle() {
    let mut o = Recorder { leaves: vec![], splits: vec![], proposal: 0 };
    let _ = BvhLayout::build(AxisSelection::ELongest, Builder::EMedian, 3, &mut o);
    assert_eq!(o.splits, vec![(1, 0, 3)]);
}

#[test]
fn leaves_partition_primitives() {
    for n in 0..40usize {
        for proposal in 0..5usize {
            for builder in [Builder::EMedian, Builder::ESpatial, Builder::ESAH] {
                let mut o = Recorder { leaves: vec![], splits: vec![], proposal };
                let layout = BvhLayout::build(AxisSelection::ERoundRobin, builder, n, &mut o);
                let mut seen = vec![0usize; n];
                for (first, count) in leaves(&layout) {
                    assert!(count <= 2);
                    if n > 0 {
                        assert!(count >= 1);
                    }
                    for p in first..first + count {
                        seen[p] += 1;
                    }
                }
                assert!(seen.iter().all(|c| *c == 1));
            }
        }
    }
}

#[test]
fn spatial_proposal_is_used_when_inside() {
    let mut o = Recorder { leaves: vec![], splits: vec![], proposal: 1 };
    let layout = BvhLayout::build(AxisSelection::ERoundRobin, Builder::ESpatial, 4, &mut o);
    let nodes = layout.nodes();
    assert_eq!(nodes[0], BVHNodeInfo::Node { left: 1 });
    assert_eq!(nodes[1], BVHNodeInfo::Leaf { frist_primitive: 0, primitive_count: 1 });
    // the right child holds three primitives and is split again at the proposed position
    assert_eq!(nodes[2], BVHNodeInfo::Node { left: 3 });
    assert_eq!(nodes[3], BVHNodeInfo::Leaf { frist_primitive: 1, primitive_count: 1 });
    assert_eq!(nodes[4], BVHNodeInfo::Leaf { frist_primitive: 2, primitive_count: 2 });
}

#[test]
fn emitters_are_listed_in_order() {
    assert_eq!(collect_emitters(&vec![false, true, true, false, true]), vec![1, 2, 4]);
    assert_eq!(collect_emitters(&vec![]), Vec::<usize>::new());
    assert_eq!(collect_emitters(&vec![false, false]), Vec::<usize>::new());
}

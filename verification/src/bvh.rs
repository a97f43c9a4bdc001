use vstd::prelude::*;
use crate::text::str_equal;
use vstd::arithmetic::div_mod::{lemma_div_denominator, lemma_fundamental_div_mod, lemma_mod_pos_bound};

verus! {

/// What a node of a bounding volume hierarchy holds: either a run of
/// primitives, or the index of its left child (the right child follows it).
#[derive(Clone, Copy, Debug, PartialEq, Eq, Structural)]
pub enum BVHNodeInfo {
    Leaf { frist_primitive: usize, primitive_count: usize },
    Node { left: usize },
}

/// How the axis along which a node is split is chosen.
#[derive(Clone, Copy, Debug, PartialEq, Eq, Structural)]
pub enum AxisSelection {
    /// Alternate between x, y and z with the depth of the node.
    ERoundRobin,
    /// Take the axis along which the node's bounding box is longest.
    ELongest,
}

/// How the position at which a node's primitives are split is chosen.
#[derive(Clone, Copy, Debug, PartialEq, Eq, Structural)]
pub enum Builder {
    /// Split at the median along the selected axis.
    EMedian,
    /// Split at the middle of the node's bounding box along the selected axis.
    ESpatial,
    /// Split where the surface area heuristic is lowest.
    ESAH,
}

/// The axis selection named `name`; unknown names select round robin.
pub open spec fn spec_axis_selection_from_name(name: Seq<char>) -> AxisSelection {
    if name == "longest"@ { AxisSelection::ELongest } else { AxisSelection::ERoundRobin }
}

impl AxisSelection {
    /// The axis selection named `name` ("roundrobin" or "longest"); unknown
    /// names select round robin.
    pub fn from_name(name: &str) -> (res: AxisSelection)
        ensures
            res == spec_axis_selection_from_name(name@),
    {
        proof {
            reveal_strlit("roundrobin");
            reveal_strlit("longest");
            assert("roundrobin"@.len() != "longest"@.len());
        }
        if str_equal(name, "roundrobin") {
            AxisSelection::ERoundRobin
        } else if str_equal(name, "longest") {
            AxisSelection::ELongest
        } else {
            AxisSelection::ERoundRobin
        }
    }
}

/// The builder named `name`; unknown names select the median builder.
pub open spec fn spec_builder_from_name(name: Seq<char>) -> Builder {
    if name == "sah"@ {
        Builder::ESAH
    } else if name == "spatial"@ {
        Builder::ESpatial
    } else {
        Builder::EMedian
    }
}

impl Builder {
    /// The builder named `name` ("sah", "median" or "spatial"); unknown names
    /// select the median builder.
    pub fn from_name(name: &str) -> (res: Builder)
        ensures
            res == spec_builder_from_name(name@),
    {
        proof {
            reveal_strlit("sah");
            reveal_strlit("median");
            reveal_strlit("spatial");
            assert("median"@.len() != "spatial"@.len());
            assert("median"@.len() != "sah"@.len());
        }
        if str_equal(name, "sah") {
            Builder::ESAH
        } else if str_equal(name, "median") {
            Builder::EMedian
        } else if str_equal(name, "spatial") {
            Builder::ESpatial
        } else {
            Builder::EMedian
        }
    }
}

/// Whether leaf `node` holds primitive `p`.
pub open spec fn leaf_contains(node: BVHNodeInfo, p: int) -> bool {
    match node {
        BVHNodeInfo::Leaf { frist_primitive, primitive_count } =>
            frist_primitive <= p < frist_primitive + primitive_count,
        BVHNodeInfo::Node { .. } => false,
    }
}

impl BVHNodeInfo {
    /// First primitive of a leaf.
    pub fn frist_primitive(&self) -> (res: usize)
        requires
            self is Leaf,
        ensures
            res == self->frist_primitive,
    {
        match self {
            BVHNodeInfo::Leaf { frist_primitive, .. } => *frist_primitive,
            BVHNodeInfo::Node { .. } => 0,
        }
    }

    /// Number of primitives of a leaf.
    pub fn primitive_count(&self) -> (res: usize)
        requires
            self is Leaf,
        ensures
            res == self->primitive_count,
    {
        match self {
            BVHNodeInfo::Leaf { primitive_count, .. } => *primitive_count,
            BVHNodeInfo::Node { .. } => 0,
        }
    }

    /// Turns the node into an inner node whose left child is node `left`.
    pub fn to_node(&mut self, left: usize)
        ensures
            *final(self) == (BVHNodeInfo::Node { left }),
    {
        *self = BVHNodeInfo::Node { left };
    }
}

/// The distance between neighbouring values an `f32` holds around `c`: 1
/// below 2^24, doubling with each further bit of `c`.
pub open spec fn f32_unit(c: nat) -> nat
    decreases c,
{
    if c < 0x100_0000 { 1 } else { 2 * f32_unit(c / 2) }
}

/// `c` converted to `f32`: the nearest value an `f32` holds, ties going to the
/// even significand.
pub open spec fn spec_nearest_f32(c: nat) -> nat {
    let u = f32_unit(c);
    let q = c / u;
    let r = c % u;
    if r * 2 > u || (r * 2 == u && q % 2 == 1) { (q + 1) * u } else { q * u }
}

/// The middle split the SAH builder falls back to: half the count taken as an
/// `f32`, truncated, and at least 1.
pub open spec fn spec_sah_fallback(count: nat) -> nat {
    let h = spec_nearest_f32(count) / 2;
    if h >= 1 { h } else { 1 }
}

/// The middle split the SAH builder falls back to, computed on integers.
fn sah_fallback(count: usize) -> (res: usize)
    ensures
        res == spec_sah_fallback(count as nat),
        count >= 2 ==> 0 < res < count,
{
    let mut unit: usize = 1;
    let mut t: usize = count;
    while t >= 0x100_0000
        invariant
            unit >= 1,
            unit == 1 || unit % 2 == 0,
            unit > 1 ==> t >= 0x80_0000,
            t == count as nat / unit as nat,
            f32_unit(count as nat) == unit * f32_unit(t as nat),
        decreases t,
    {
        proof {
            lemma_fundamental_div_mod(count as int, unit as int);
            lemma_mod_pos_bound(count as int, unit as int);
            assert(unit * t <= count) by (nonlinear_arith)
                requires
                    count == unit * t + count % unit,
                    count % unit >= 0;
            assert(unit * 2 <= unit * t) by (nonlinear_arith)
                requires
                    t >= 2,
                    unit >= 1;
            lemma_div_denominator(count as int, unit as int, 2);
            let x = f32_unit((t / 2) as nat);
            assert(f32_unit(t as nat) == 2 * x);
            assert(unit * (2 * x) == (unit * 2) * x) by (nonlinear_arith);
        }
        t = t / 2;
        unit = unit * 2;
    }
    proof {
        assert(f32_unit(t as nat) == 1);
        lemma_fundamental_div_mod(count as int, unit as int);
        lemma_mod_pos_bound(count as int, unit as int);
    }
    let q = t;
    let r = count % unit;
    proof {
        if unit > 1 {
            assert(unit * 2 <= count) by (nonlinear_arith)
                requires
                    count == unit * q + r,
                    r >= 0,
                    q >= 0x80_0000,
                    unit >= 1;
        }
    }
    let up = r > unit - r || (r == unit - r && q % 2 == 1);
    let q2 = if up { q + 1 } else { q };
    let h = if unit == 1 {
        q2 / 2
    } else {
        proof {
            assert(q2 * (unit / 2) <= count && (q2 * unit) / 2 == q2 * (unit / 2)) by (nonlinear_arith)
                requires
                    count == unit * q + r,
                    0 <= r < unit,
                    q2 <= q + 1,
                    unit % 2 == 0,
                    unit >= 2,
                    unit * 2 <= count;
        }
        q2 * (unit / 2)
    };
    proof {
        if unit > 1 {
            assert(h < count) by (nonlinear_arith)
                requires
                    h == q2 * (unit / 2),
                    count == unit * q + r,
                    0 <= r < unit,
                    q2 <= q + 1,
                    unit % 2 == 0,
                    unit * 2 <= count;
        } else {
            assert(r == 0);
            assert(q == count);
        }
        assert(h == (q2 * unit) / 2);
    }
    if h >= 1 { h } else { 1 }
}

/// Number of primitives the left child receives when a node of `count`
/// primitives is split with `builder`, `candidate` being the split position the
/// builder's ordering of the primitives proposed. The median builder always
/// splits in the middle; the other two fall back to the middle when the
/// candidate leaves one side empty (the SAH builder halving the count taken as
/// an `f32`, and giving at least one primitive).
pub open spec fn spec_split_offset(builder: Builder, count: nat, candidate: nat) -> nat {
    match builder {
        Builder::EMedian => count / 2,
        Builder::ESpatial => if candidate == 0 || candidate >= count { count / 2 } else { candidate },
        Builder::ESAH => if candidate == 0 || candidate >= count { spec_sah_fallback(count) } else { candidate },
    }
}

/// Number of primitives the left child receives when a node of `count`
/// primitives is split with `builder` at the proposed position `candidate`.
pub fn split_offset(builder: &Builder, count: usize, candidate: usize) -> (res: usize)
    ensures
        res == spec_split_offset(*builder, count as nat, candidate as nat),
        count >= 2 ==> 0 < res < count,
{
    match builder {
        Builder::EMedian => count / 2,
        Builder::ESpatial => if candidate == 0 || candidate >= count { count / 2 } else { candidate },
        Builder::ESAH => if candidate == 0 || candidate >= count { sah_fallback(count) } else { candidate },
    }
}

/// The work on primitive bounding boxes that building a hierarchy needs:
/// it orders the primitives and measures boxes, while the layout of the
/// hierarchy is decided by `BvhLayout`.
pub trait SplitOracle {
    /// The axis (0, 1 or 2) along which the bounding box of node `node` is longest.
    fn longest_axis(&mut self, node: usize) -> usize;

    /// Reorders primitives `first .. first + count` of node `node` for a split
    /// along `axis` with `builder`, and returns the proposed split position
    /// (the number of primitives that go to the left child).
    fn split(&mut self, builder: &Builder, axis: usize, node: usize, first: usize, count: usize) -> usize;

    /// Records that a leaf over primitives `first .. first + count` was appended to the nodes.
    fn leaf_added(&mut self, first: usize, count: usize);
}

/// The node layout of a bounding volume hierarchy over `n` primitives:
/// node 0 is the root, an inner node at `i` has its children at `left` and
/// `left + 1`, both after `i`, and every primitive lies in exactly one leaf.
pub struct BvhLayout {
    axis_selection: AxisSelection,
    builder: Builder,
    nodes: Vec<BVHNodeInfo>,
    num_primitives: usize,
    owner: Ghost<Seq<int>>,
    ranges: Ghost<Seq<(int, int)>>,
    proposals: Ghost<Seq<nat>>,
    depths: Ghost<Seq<nat>>,
    axes: Ghost<Seq<nat>>,
}

/// How each inner node came to be split: `proposals[i]` is the split position
/// the oracle proposed for node `i`, `depths[i]` its depth (the root's is 0,
/// children lie one deeper than their parent) and `axes[i]` the axis handed to
/// the oracle. The left child of an inner node receives the number of
/// primitives that `spec_split_offset` gives for the builder, the node's run
/// and the proposal; with round robin selection the axis is the depth modulo 3.
pub open spec fn history_wf(
    nodes: Seq<BVHNodeInfo>,
    ranges: Seq<(int, int)>,
    proposals: Seq<nat>,
    depths: Seq<nat>,
    axes: Seq<nat>,
    builder: Builder,
    axis_selection: AxisSelection,
) -> bool {
    &&& proposals.len() == nodes.len()
    &&& depths.len() == nodes.len()
    &&& axes.len() == nodes.len()
    &&& nodes.len() >= 1 ==> depths[0] == 0
    &&& forall|i: int| 0 <= i < nodes.len() ==> match #[trigger] nodes[i] {
        BVHNodeInfo::Leaf { .. } => true,
        BVHNodeInfo::Node { left } => left + 1 < nodes.len() && {
            &&& depths[left as int] == depths[i] + 1
            &&& depths[left + 1] == depths[i] + 1
            &&& ranges[left as int].1 == spec_split_offset(builder, ranges[i].1 as nat, proposals[i])
            &&& axis_selection == AxisSelection::ERoundRobin ==> axes[i] == depths[i] % 3
        },
    }
}

/// The node list that subdividing leaf `idx` (of `count` primitives) gives:
/// a leaf of more than two primitives becomes an inner node whose children
/// are appended at the end of the list, the left one holding the number of
/// primitives the builder decides for the proposal `proposals[idx]`; then the
/// left child is subdivided, then the right one.
pub open spec fn subdivided(
    nodes: Seq<BVHNodeInfo>,
    idx: int,
    count: nat,
    builder: Builder,
    proposals: Seq<nat>,
) -> Seq<BVHNodeInfo>
    decreases count,
{
    if 0 <= idx < nodes.len() && nodes[idx] is Leaf && nodes[idx]->primitive_count == count && count > 2 {
        let o = spec_split_offset(builder, count, proposals[idx]);
        if 0 < o < count {
            let left = nodes.len() as int;
            let n1 = split_nodes(nodes, idx, left as usize, o);
            let n2 = subdivided(n1, left, o, builder, proposals);
            subdivided(n2, left + 1, (count - o) as nat, builder, proposals)
        } else {
            nodes
        }
    } else {
        nodes
    }
}

/// The layout the median builder gives over `n` primitives.
pub open spec fn spec_median_layout(n: usize) -> Seq<BVHNodeInfo> {
    subdivided(
        seq![BVHNodeInfo::Leaf { frist_primitive: 0, primitive_count: n }],
        0,
        n as nat,
        Builder::EMedian,
        Seq::empty(),
    )
}

/// Subdividing never removes nodes.
proof fn lemma_subdivided_grows(nodes: Seq<BVHNodeInfo>, idx: int, count: nat, builder: Builder, p: Seq<nat>)
    ensures
        subdivided(nodes, idx, count, builder, p).len() >= nodes.len(),
        subdivided(nodes, idx, count, builder, p).len() > nodes.len() ==> subdivided(nodes, idx, count, builder, p).len() >= nodes.len() + 2,
    decreases count,
{
    if 0 <= idx < nodes.len() && nodes[idx] is Leaf && nodes[idx]->primitive_count == count && count > 2 {
        let o = spec_split_offset(builder, count, p[idx]);
        if 0 < o < count {
            let left = nodes.len() as int;
            let n1 = split_nodes(nodes, idx, left as usize, o);
            lemma_subdivided_grows(n1, left, o, builder, p);
            let n2 = subdivided(n1, left, o, builder, p);
            lemma_subdivided_grows(n2, left + 1, (count - o) as nat, builder, p);
        }
    }
}

/// Subdividing reads the proposals only of the node it starts from and of the
/// nodes it appends.
proof fn lemma_subdivided_frame(nodes: Seq<BVHNodeInfo>, idx: int, count: nat, builder: Builder, p1: Seq<nat>, p2: Seq<nat>)
    requires
        forall|j: int| (j == idx || nodes.len() <= j < subdivided(nodes, idx, count, builder, p1).len()) ==>
            #[trigger] p1[j] == p2[j],
    ensures
        subdivided(nodes, idx, count, builder, p1) == subdivided(nodes, idx, count, builder, p2),
    decreases count,
{
    if 0 <= idx < nodes.len() && nodes[idx] is Leaf && nodes[idx]->primitive_count == count && count > 2 {
        assert(p1[idx] == p2[idx]);
        let o = spec_split_offset(builder, count, p1[idx]);
        if 0 < o < count {
            let left = nodes.len() as int;
            let n1 = split_nodes(nodes, idx, left as usize, o);
            let n2 = subdivided(n1, left, o, builder, p1);
            let total = subdivided(n2, left + 1, (count - o) as nat, builder, p1);
            lemma_subdivided_grows(n1, left, o, builder, p1);
            lemma_subdivided_grows(n2, left + 1, (count - o) as nat, builder, p1);
            assert forall|j: int| (j == left || n1.len() <= j < n2.len()) implies #[trigger] p1[j] == p2[j] by {
                assert(nodes.len() <= j < total.len());
            }
            lemma_subdivided_frame(n1, left, o, builder, p1, p2);
            assert forall|j: int| (j == left + 1 || n2.len() <= j < total.len()) implies #[trigger] p1[j] == p2[j] by {
                assert(nodes.len() <= j < total.len());
            }
            lemma_subdivided_frame(n2, left + 1, (count - o) as nat, builder, p1, p2);
        }
    }
}

/// With the median builder the proposals do not matter.
proof fn lemma_median_ignores_proposals(nodes: Seq<BVHNodeInfo>, idx: int, count: nat, p1: Seq<nat>, p2: Seq<nat>)
    ensures
        subdivided(nodes, idx, count, Builder::EMedian, p1) == subdivided(nodes, idx, count, Builder::EMedian, p2),
    decreases count,
{
    if 0 <= idx < nodes.len() && nodes[idx] is Leaf && nodes[idx]->primitive_count == count && count > 2 {
        let o = spec_split_offset(Builder::EMedian, count, p1[idx]);
        if 0 < o < count {
            let left = nodes.len() as int;
            let n1 = split_nodes(nodes, idx, left as usize, o);
            lemma_median_ignores_proposals(n1, left, o, p1, p2);
            let n2 = subdivided(n1, left, o, Builder::EMedian, p1);
            lemma_median_ignores_proposals(n2, left + 1, (count - o) as nat, p1, p2);
        }
    }
}

/// `ranges[i]` is the run `(first, count)` of primitives under node `i`: the
/// root's run is all `n` primitives, a leaf's run is its own, and the two
/// children of an inner node split its run in two non-empty runs, the left
/// child's first.
pub open spec fn ranges_wf(nodes: Seq<BVHNodeInfo>, n: nat, ranges: Seq<(int, int)>) -> bool {
    &&& ranges.len() == nodes.len()
    &&& ranges.len() >= 1 ==> ranges[0] == (0int, n as int)
    &&& forall|i: int| 0 <= i < nodes.len() ==> match #[trigger] nodes[i] {
        BVHNodeInfo::Leaf { frist_primitive, primitive_count } =>
            ranges[i] == (frist_primitive as int, primitive_count as int),
        BVHNodeInfo::Node { left } => left + 1 < nodes.len() && {
            &&& ranges[left as int].0 == ranges[i].0
            &&& ranges[left + 1].0 == ranges[left as int].0 + ranges[left as int].1
            &&& ranges[left as int].1 + ranges[left + 1].1 == ranges[i].1
            &&& ranges[left as int].1 >= 1
            &&& ranges[left + 1].1 >= 1
        },
    }
}

/// A node at depth `depths[i]` whose run holds `ranges[i].1` primitives lies
/// no deeper than the primitives left to split below the root allow: depth and
/// run length together never exceed `n`.
pub open spec fn depths_bounded(depths: Seq<nat>, ranges: Seq<(int, int)>, n: nat) -> bool {
    forall|i: int| 0 <= i < depths.len() ==> #[trigger] depths[i] + ranges[i].1 <= n
}

/// Primitive `p` lies in the run of leaf `node`.
pub open spec fn run_contains(node: BVHNodeInfo, p: int) -> bool {
    node->frist_primitive <= p < node->frist_primitive + node->primitive_count
}

/// The leaves among `nodes[from..]` partition the run of `leaf`: every
/// primitive of the run lies in exactly one of them, and they hold no other.
pub open spec fn subtree_partitions_run(nodes: Seq<BVHNodeInfo>, from: int, leaf: BVHNodeInfo) -> bool {
    &&& forall|j: int, p: int| from <= j < nodes.len() && #[trigger] leaf_contains(nodes[j], p) ==>
        run_contains(leaf, p)
    &&& forall|p: int| #[trigger] run_contains(leaf, p) ==>
        exists|j: int| from <= j < nodes.len() && #[trigger] leaf_contains(nodes[j], p)
    &&& forall|i: int, j: int, p: int| from <= i < nodes.len() && from <= j < nodes.len()
        && #[trigger] leaf_contains(nodes[i], p) && #[trigger] leaf_contains(nodes[j], p) ==> i == j
}

/// The structural invariant of a node list over `n` primitives, with
/// `owner[p]` the leaf that holds primitive `p`.
pub open spec fn layout_wf(nodes: Seq<BVHNodeInfo>, n: nat, owner: Seq<int>) -> bool {
    &&& nodes.len() >= 1
    &&& forall|i: int| 0 <= i < nodes.len() ==> match #[trigger] nodes[i] {
        BVHNodeInfo::Leaf { frist_primitive, primitive_count } =>
            frist_primitive + primitive_count <= n && (n > 0 ==> primitive_count >= 1),
        BVHNodeInfo::Node { left } => i < left && left + 1 < nodes.len(),
    }
    &&& owner.len() == n
    &&& forall|p: int| 0 <= p < n ==> {
        &&& 0 <= #[trigger] owner[p] < nodes.len()
        &&& leaf_contains(nodes[owner[p]], p)
    }
    &&& forall|i: int, p: int| 0 <= i < nodes.len() && #[trigger] leaf_contains(nodes[i], p) ==> owner[p] == i
}

/// The node list after leaf `idx` is split: it becomes an inner node whose
/// children, appended at `left` and `left + 1`, hold its first `offset`
/// primitives and the rest.
pub open spec fn split_nodes(nodes: Seq<BVHNodeInfo>, idx: int, left: usize, offset: nat) -> Seq<BVHNodeInfo> {
    let f = nodes[idx]->frist_primitive;
    let c = nodes[idx]->primitive_count;
    nodes.update(idx, BVHNodeInfo::Node { left })
        .push(BVHNodeInfo::Leaf { frist_primitive: f, primitive_count: offset as usize })
        .push(BVHNodeInfo::Leaf { frist_primitive: (f + offset) as usize, primitive_count: (c - offset) as usize })
}

/// Splitting leaf `idx` at depth `depth`, after the oracle proposed
/// `proposal` and was handed `axis`, keeps the history consistent.
proof fn lemma_split_history(
    nodes: Seq<BVHNodeInfo>,
    n: nat,
    ranges: Seq<(int, int)>,
    new_ranges: Seq<(int, int)>,
    proposals: Seq<nat>,
    depths: Seq<nat>,
    axes: Seq<nat>,
    builder: Builder,
    axis_selection: AxisSelection,
    idx: int,
    left: usize,
    proposal: nat,
    axis: nat,
)
    requires
        ranges_wf(nodes, n, ranges),
        history_wf(nodes, ranges, proposals, depths, axes, builder, axis_selection),
        0 <= idx < nodes.len(),
        nodes[idx] is Leaf,
        left == nodes.len(),
        0 < spec_split_offset(builder, nodes[idx]->primitive_count as nat, proposal) < nodes[idx]->primitive_count,
        new_ranges == ranges.push((nodes[idx]->frist_primitive as int, spec_split_offset(builder, nodes[idx]->primitive_count as nat, proposal) as int))
            .push((nodes[idx]->frist_primitive + spec_split_offset(builder, nodes[idx]->primitive_count as nat, proposal),
                nodes[idx]->primitive_count - spec_split_offset(builder, nodes[idx]->primitive_count as nat, proposal))),
        axis_selection == AxisSelection::ERoundRobin ==> axis == depths[idx] % 3,
    ensures
        history_wf(
            split_nodes(nodes, idx, left, spec_split_offset(builder, nodes[idx]->primitive_count as nat, proposal)),
            new_ranges,
            proposals.update(idx, proposal).push(0).push(0),
            depths.push(depths[idx] + 1).push(depths[idx] + 1),
            axes.update(idx, axis).push(0).push(0),
            builder,
            axis_selection,
        ),
{
    let o = spec_split_offset(builder, nodes[idx]->primitive_count as nat, proposal);
    let new_nodes = split_nodes(nodes, idx, left, o);
    let np = proposals.update(idx, proposal).push(0).push(0);
    let nd = depths.push(depths[idx] + 1).push(depths[idx] + 1);
    let na = axes.update(idx, axis).push(0).push(0);
    assert(ranges[idx] == (nodes[idx]->frist_primitive as int, nodes[idx]->primitive_count as int));
    assert forall|i: int| 0 <= i < new_nodes.len() implies match #[trigger] new_nodes[i] {
        BVHNodeInfo::Leaf { .. } => true,
        BVHNodeInfo::Node { left } => left + 1 < new_nodes.len() && {
            &&& nd[left as int] == nd[i] + 1
            &&& nd[left + 1] == nd[i] + 1
            &&& new_ranges[left as int].1 == spec_split_offset(builder, new_ranges[i].1 as nat, np[i])
            &&& axis_selection == AxisSelection::ERoundRobin ==> na[i] == nd[i] % 3
        },
    } by {
        if i < nodes.len() && i != idx {
            assert(new_nodes[i] == nodes[i]);
            if let BVHNodeInfo::Node { left: l2 } = nodes[i] {
                assert(new_ranges[l2 as int] == ranges[l2 as int]);
                assert(new_ranges[i] == ranges[i]);
            }
        }
    }
}

/// When the primitives of leaf `idx`'s run have moved to leaves appended
/// after the old nodes, and the others stayed where they were, those
/// appended leaves partition the run.
proof fn lemma_partition_from_owner(
    nodes: Seq<BVHNodeInfo>,
    n: nat,
    owner: Seq<int>,
    old_nodes: Seq<BVHNodeInfo>,
    old_owner: Seq<int>,
    idx: int,
)
    requires
        layout_wf(nodes, n, owner),
        layout_wf(old_nodes, n, old_owner),
        0 <= idx < old_nodes.len() <= nodes.len(),
        old_nodes[idx] is Leaf,
        nodes[idx] is Node,
        forall|p: int| 0 <= p < n && !run_contains(old_nodes[idx], p) ==> #[trigger] owner[p] == old_owner[p],
        forall|p: int| run_contains(old_nodes[idx], p) ==> #[trigger] owner[p] == idx || old_nodes.len() <= owner[p],
    ensures
        subtree_partitions_run(nodes, old_nodes.len() as int, old_nodes[idx]),
{
    let from = old_nodes.len() as int;
    let leaf = old_nodes[idx];
    assert(leaf matches BVHNodeInfo::Leaf { frist_primitive, primitive_count } && frist_primitive + primitive_count <= n);
    assert forall|j: int, p: int| from <= j < nodes.len() && #[trigger] leaf_contains(nodes[j], p) implies
        run_contains(leaf, p) by {
        assert(nodes[j] matches BVHNodeInfo::Leaf { frist_primitive, primitive_count } && frist_primitive + primitive_count <= n);
        assert(owner[p] == j);
        if !run_contains(leaf, p) {
            assert(0 <= p < n);
            assert(owner[p] == old_owner[p]);
            assert(old_owner[p] < old_nodes.len());
        }
    }
    assert forall|p: int| #[trigger] run_contains(leaf, p) implies
        exists|j: int| from <= j < nodes.len() && #[trigger] leaf_contains(nodes[j], p) by {
        assert(0 <= p < n);
        assert(leaf_contains(nodes[owner[p]], p));
        assert(owner[p] != idx);
    }
    assert forall|i: int, j: int, p: int| from <= i < nodes.len() && from <= j < nodes.len()
        && #[trigger] leaf_contains(nodes[i], p) && #[trigger] leaf_contains(nodes[j], p) implies i == j by {
        assert(owner[p] == i);
        assert(owner[p] == j);
    }
}

/// Splitting a leaf in two non-empty parts keeps the runs under the nodes consistent.
proof fn lemma_split_ranges(nodes: Seq<BVHNodeInfo>, n: nat, ranges: Seq<(int, int)>, idx: int, left: usize, offset: nat)
    -> (new_ranges: Seq<(int, int)>)
    requires
        ranges_wf(nodes, n, ranges),
        n <= usize::MAX,
        0 <= idx < nodes.len(),
        nodes[idx] is Leaf,
        nodes[idx]->frist_primitive + nodes[idx]->primitive_count <= n,
        left == nodes.len(),
        0 < offset < nodes[idx]->primitive_count,
    ensures
        ranges_wf(split_nodes(nodes, idx, left, offset), n, new_ranges),
        new_ranges == ranges.push((nodes[idx]->frist_primitive as int, offset as int))
            .push((nodes[idx]->frist_primitive + offset, nodes[idx]->primitive_count - offset)),
{
    let f = nodes[idx]->frist_primitive as int;
    let c = nodes[idx]->primitive_count as int;
    let new_nodes = split_nodes(nodes, idx, left, offset);
    let new_ranges = ranges.push((f, offset as int)).push((f + offset, c - offset));
    assert(ranges[idx] == (f, c));
    assert forall|i: int| 0 <= i < new_nodes.len() implies match #[trigger] new_nodes[i] {
        BVHNodeInfo::Leaf { frist_primitive, primitive_count } =>
            new_ranges[i] == (frist_primitive as int, primitive_count as int),
        BVHNodeInfo::Node { left } => left + 1 < new_nodes.len() && {
            &&& new_ranges[left as int].0 == new_ranges[i].0
            &&& new_ranges[left + 1].0 == new_ranges[left as int].0 + new_ranges[left as int].1
            &&& new_ranges[left as int].1 + new_ranges[left + 1].1 == new_ranges[i].1
            &&& new_ranges[left as int].1 >= 1
            &&& new_ranges[left + 1].1 >= 1
        },
    } by {
        if i < nodes.len() && i != idx {
            assert(new_nodes[i] == nodes[i]);
            assert(new_ranges[i] == ranges[i]);
            if let BVHNodeInfo::Node { left: l2 } = nodes[i] {
                assert(new_ranges[l2 as int] == ranges[l2 as int]);
                assert(new_ranges[l2 + 1] == ranges[l2 + 1]);
            }
        }
    }
    new_ranges
}

/// Splitting a leaf in two non-empty parts keeps the structural invariant;
/// the primitives of the split leaf move to its children.
proof fn lemma_split_leaf(nodes: Seq<BVHNodeInfo>, n: nat, owner: Seq<int>, idx: int, left: usize, offset: nat)
    -> (new_owner: Seq<int>)
    requires
        layout_wf(nodes, n, owner),
        n <= usize::MAX,
        0 <= idx < nodes.len(),
        nodes[idx] is Leaf,
        left == nodes.len(),
        0 < offset < nodes[idx]->primitive_count,
    ensures
        layout_wf(split_nodes(nodes, idx, left, offset), n, new_owner),
        forall|p: int| 0 <= p < n ==> #[trigger] new_owner[p] == (
            if nodes[idx]->frist_primitive <= p < nodes[idx]->frist_primitive + offset { left as int }
            else if nodes[idx]->frist_primitive + offset <= p < nodes[idx]->frist_primitive + nodes[idx]->primitive_count { left + 1 }
            else { owner[p] }),
{
    let f = nodes[idx]->frist_primitive as int;
    let c = nodes[idx]->primitive_count as int;
    let l = left as int;
    let new_nodes = split_nodes(nodes, idx, left, offset);
    let new_owner = Seq::new(n, |p: int|
        if f <= p < f + offset { l } else if f + offset <= p < f + c { l + 1 } else { owner[p] });
    assert(new_nodes[l] == (BVHNodeInfo::Leaf { frist_primitive: f as usize, primitive_count: offset as usize }));
    assert(new_nodes[l + 1] == (BVHNodeInfo::Leaf { frist_primitive: (f + offset) as usize, primitive_count: (c - offset) as usize }));
    assert(nodes[idx] matches BVHNodeInfo::Leaf { frist_primitive, primitive_count } && frist_primitive + primitive_count <= n);
    assert forall|i: int| 0 <= i < new_nodes.len() implies match #[trigger] new_nodes[i] {
        BVHNodeInfo::Leaf { frist_primitive, primitive_count } =>
            frist_primitive + primitive_count <= n && (n > 0 ==> primitive_count >= 1),
        BVHNodeInfo::Node { left } => i < left && left + 1 < new_nodes.len(),
    } by {
        if i < nodes.len() && i != idx {
            assert(new_nodes[i] == nodes[i]);
        }
    }
    assert forall|p: int| 0 <= p < n implies {
        &&& 0 <= #[trigger] new_owner[p] < new_nodes.len()
        &&& leaf_contains(new_nodes[new_owner[p]], p)
    } by {
        if !(f <= p < f + c) {
            assert(leaf_contains(nodes[owner[p]], p));
            if owner[p] == idx {
                assert(false);
            }
            assert(new_nodes[owner[p]] == nodes[owner[p]]);
        }
    }
    assert forall|i: int, p: int| 0 <= i < new_nodes.len() && #[trigger] leaf_contains(new_nodes[i], p) implies
        new_owner[p] == i by {
        if i < nodes.len() && i != idx {
            assert(new_nodes[i] == nodes[i]);
            assert(owner[p] == i);
            assert(0 <= p < n);
            if f <= p < f + c {
                assert(leaf_contains(nodes[idx], p));
                assert(owner[p] == idx);
            }
        } else if i == l {
            assert(f <= p < f + offset);
        } else if i == l + 1 {
            assert(f + offset <= p < f + c);
        } else {
            assert(i == idx);
            assert(new_nodes[i] is Node);
        }
    }
    new_owner
}

/// `leaf_added` was called, on an oracle of type `O`, with the run
/// `(first, count)`.
pub open spec fn leaf_reported<O: SplitOracle>(run: (int, int)) -> bool {
    exists|o: &mut O, f: usize, c: usize|
        f == run.0 && c == run.1 && #[trigger] call_ensures(O::leaf_added, (o, f, c), ())
}

/// `split` was called, on an oracle of type `O`, with `builder`, `axis`,
/// node `node` and its run `(first, count)`, and answered `proposal`.
pub open spec fn split_answered<O: SplitOracle>(builder: Builder, axis: nat, node: int, run: (int, int), proposal: nat) -> bool {
    exists|o: &mut O, b: &Builder, a: usize, n: usize, f: usize, c: usize, r: usize|
        *b == builder && a == axis && n == node && f == run.0 && c == run.1 && r == proposal
            && #[trigger] call_ensures(O::split, (o, b, a, n, f, c), r)
}

/// `longest_axis` was called, on an oracle of type `O`, for node `node` and
/// answered `axis`.
pub open spec fn longest_answered<O: SplitOracle>(node: int, axis: nat) -> bool {
    exists|o: &mut O, n: usize, a: usize| n == node && a == axis && #[trigger] call_ensures(O::longest_axis, (o, n), a)
}

/// How the oracle was consulted for the nodes from `from` on and for node
/// `idx`: each of those nodes was reported with its own run when it was
/// appended, and each of them that is an inner node was split at what the
/// oracle proposed when asked with the layout's builder, the node's axis, the
/// node and its run; with longest-axis selection, that axis is what the
/// oracle answered for the node.
pub open spec fn oracle_consulted<O: SplitOracle>(
    nodes: Seq<BVHNodeInfo>,
    ranges: Seq<(int, int)>,
    proposals: Seq<nat>,
    axes: Seq<nat>,
    builder: Builder,
    axis_selection: AxisSelection,
    from: int,
    idx: int,
) -> bool {
    &&& forall|j: int| 0 <= from <= j < nodes.len() ==> leaf_reported::<O>(#[trigger] ranges[j])
    &&& forall|j: int| 0 <= j < nodes.len() && (j == idx || from <= j) && (#[trigger] nodes[j]) is Node ==> {
        &&& split_answered::<O>(builder, axes[j], j, ranges[j], proposals[j])
        &&& axis_selection == AxisSelection::ELongest ==> longest_answered::<O>(j, axes[j])
    }
}

impl BvhLayout {
    /// The nodes, root first.
    pub closed spec fn spec_nodes(&self) -> Seq<BVHNodeInfo> {
        self.nodes@
    }

    /// Number of primitives the hierarchy is built over.
    pub closed spec fn spec_num_primitives(&self) -> nat {
        self.num_primitives as nat
    }

    /// The axis selection strategy.
    pub closed spec fn spec_axis_selection(&self) -> AxisSelection {
        self.axis_selection
    }

    /// The split strategy.
    pub closed spec fn spec_builder(&self) -> Builder {
        self.builder
    }

    /// The structural invariant holds.
    pub closed spec fn wf(&self) -> bool {
        &&& layout_wf(self.nodes@, self.num_primitives as nat, self.owner@)
        &&& ranges_wf(self.nodes@, self.num_primitives as nat, self.ranges@)
        &&& history_wf(self.nodes@, self.ranges@, self.proposals@, self.depths@, self.axes@, self.builder, self.axis_selection)
        &&& depths_bounded(self.depths@, self.ranges@, self.num_primitives as nat)
    }

    /// Every leaf holds at most two primitives.
    pub open spec fn leaves_small(&self) -> bool {
        forall|i: int| 0 <= i < self.spec_nodes().len() && (#[trigger] self.spec_nodes()[i]) is Leaf ==>
            self.spec_nodes()[i]->primitive_count <= 2
    }

    /// The layout before any subdivision: a single root leaf holding all
    /// `num_primitives` primitives, at depth 0.
    pub fn with_root(axis_selection: AxisSelection, builder: Builder, num_primitives: usize) -> (res: Self)
        ensures
            res.wf(),
            res.spec_num_primitives() == num_primitives,
            res.spec_axis_selection() == axis_selection,
            res.spec_builder() == builder,
            res.spec_nodes() == seq![BVHNodeInfo::Leaf { frist_primitive: 0, primitive_count: num_primitives }],
            res.spec_depths() == seq![0nat],
    {
        let mut nodes: Vec<BVHNodeInfo> = Vec::new();
        nodes.push(BVHNodeInfo::Leaf { frist_primitive: 0, primitive_count: num_primitives });
        let ghost owner = Seq::new(num_primitives as nat, |p: int| 0int);
        let ghost ranges = seq![(0int, num_primitives as int)];
        let ghost zeros = seq![0nat];
        let layout = BvhLayout {
            axis_selection,
            builder,
            nodes,
            num_primitives,
            owner: Ghost(owner),
            ranges: Ghost(ranges),
            proposals: Ghost(zeros),
            depths: Ghost(zeros),
            axes: Ghost(zeros),
        };
        proof {
            assert forall|i: int, p: int| 0 <= i < layout.nodes@.len() && #[trigger] leaf_contains(layout.nodes@[i], p)
                implies layout.owner@[p] == i by {
                assert(i == 0);
            }
        }
        layout
    }

    /// Builds the layout over `num_primitives` primitives: the root leaf holds
    /// them all and is then subdivided until every leaf holds at most two.
    pub fn build<O: SplitOracle>(
        axis_selection: AxisSelection,
        builder: Builder,
        num_primitives: usize,
        oracle: &mut O,
    ) -> (res: Self)
        ensures
            res.wf(),
            res.spec_num_primitives() == num_primitives,
            res.spec_axis_selection() == axis_selection,
            res.spec_builder() == builder,
            res.leaves_small(),
            num_primitives <= 2 ==> res.spec_nodes() == seq![
                BVHNodeInfo::Leaf { frist_primitive: 0, primitive_count: num_primitives },
            ],
            res.spec_nodes() == subdivided(
                seq![BVHNodeInfo::Leaf { frist_primitive: 0, primitive_count: num_primitives }],
                0,
                num_primitives as nat,
                builder,
                res.spec_proposals(),
            ),
            builder == Builder::EMedian ==> res.spec_nodes() == spec_median_layout(num_primitives),
            oracle_consulted::<O>(res.spec_nodes(), res.spec_runs(), res.spec_proposals(), res.spec_axes(),
                builder, axis_selection, 0, 0),
    {
        oracle.leaf_added(0, num_primitives);
        let mut layout = BvhLayout::with_root(axis_selection, builder, num_primitives);
        let ghost root = layout.nodes@;
        proof {
            assert(leaf_reported::<O>((0int, num_primitives as int)));
            assert(layout.ranges@[0] == (0int, num_primitives as int));
        }
        layout.subdivide_node(0, oracle, 0);
        proof {
            assert(layout.spec_run(0) == (0int, num_primitives as int));
            assert(layout.spec_runs()[0] == (0int, num_primitives as int));
            if builder == Builder::EMedian {
                lemma_median_ignores_proposals(root, 0, num_primitives as nat, layout.proposals@, Seq::empty());
            }
        }
        layout
    }

    /// Subdivides leaf `node_idx`, which lies at depth `depth`: a leaf of at
    /// most two primitives is left as it is; a larger one becomes an inner node
    /// whose children are appended at the end of the nodes, holding the number
    /// of primitives the builder decides from the oracle's proposal and the
    /// rest, and they are subdivided in turn, the left one first. The leaves
    /// appended partition the leaf's run and hold at most two primitives each,
    /// and the nodes that were there before, but the subdivided one, stay.
    pub fn subdivide_node<O: SplitOracle>(&mut self, node_idx: usize, oracle: &mut O, depth: usize)
        requires
            old(self).wf(),
            node_idx < old(self).spec_nodes().len(),
            old(self).spec_nodes()[node_idx as int] is Leaf,
            old(self).spec_depths()[node_idx as int] == depth,
        ensures
            final(self).wf(),
            final(self).spec_num_primitives() == old(self).spec_num_primitives(),
            final(self).spec_axis_selection() == old(self).spec_axis_selection(),
            final(self).spec_builder() == old(self).spec_builder(),
            final(self).spec_nodes() == subdivided(
                old(self).spec_nodes(),
                node_idx as int,
                old(self).spec_nodes()[node_idx as int]->primitive_count as nat,
                old(self).spec_builder(),
                final(self).spec_proposals(),
            ),
            final(self).spec_nodes().len() >= old(self).spec_nodes().len(),
            forall|j: int| 0 <= j < old(self).spec_nodes().len() && j != node_idx ==>
                #[trigger] final(self).spec_nodes()[j] == old(self).spec_nodes()[j],
            forall|j: int| 0 <= j < old(self).spec_nodes().len() ==>
                #[trigger] final(self).spec_run(j) == old(self).spec_run(j),
            forall|j: int| 0 <= j < old(self).spec_nodes().len() ==>
                #[trigger] final(self).spec_depths()[j] == old(self).spec_depths()[j],
            old(self).spec_nodes()[node_idx as int]->primitive_count <= 2 ==>
                final(self).spec_nodes() == old(self).spec_nodes(),
            old(self).spec_nodes()[node_idx as int]->primitive_count > 2 ==> {
                &&& final(self).spec_nodes()[node_idx as int] == (BVHNodeInfo::Node { left: old(self).spec_nodes().len() as usize })
                &&& subtree_partitions_run(
                    final(self).spec_nodes(),
                    old(self).spec_nodes().len() as int,
                    old(self).spec_nodes()[node_idx as int],
                )
            },
            forall|j: int| old(self).spec_nodes().len() <= j < final(self).spec_nodes().len()
                && (#[trigger] final(self).spec_nodes()[j]) is Leaf ==> final(self).spec_nodes()[j]->primitive_count <= 2,
            forall|j: int| 0 <= j < old(self).spec_nodes().len() && j != node_idx ==>
                #[trigger] final(self).spec_proposals()[j] == old(self).spec_proposals()[j],
            forall|j: int| 0 <= j < old(self).spec_nodes().len() && j != node_idx ==>
                #[trigger] final(self).spec_axes()[j] == old(self).spec_axes()[j],
            oracle_consulted::<O>(final(self).spec_nodes(), final(self).spec_runs(), final(self).spec_proposals(),
                final(self).spec_axes(), final(self).spec_builder(), final(self).spec_axis_selection(),
                old(self).spec_nodes().len() as int, node_idx as int),
    {
        self.subdivide_from(node_idx, oracle, depth);
    }

    /// Subdivides leaf `node_idx`, found at depth `depth`, recursively: a leaf
    /// with more than two primitives becomes an inner node whose two new leaf
    /// children, appended at the end of the nodes, split its primitives at the
    /// position that the builder decides; then the left child is subdivided,
    /// then the right one.
    fn subdivide_from<O: SplitOracle>(&mut self, node_idx: usize, oracle: &mut O, depth: usize)
        requires
            old(self).wf(),
            node_idx < old(self).spec_nodes().len(),
            old(self).spec_nodes()[node_idx as int] is Leaf,
            old(self).depths@[node_idx as int] == depth,
        ensures
            final(self).wf(),
            final(self).spec_num_primitives() == old(self).spec_num_primitives(),
            final(self).spec_axis_selection() == old(self).spec_axis_selection(),
            final(self).spec_builder() == old(self).spec_builder(),
            final(self).spec_nodes().len() >= old(self).spec_nodes().len(),
            final(self).spec_nodes() == subdivided(
                old(self).spec_nodes(),
                node_idx as int,
                old(self).spec_nodes()[node_idx as int]->primitive_count as nat,
                old(self).spec_builder(),
                final(self).proposals@,
            ),
            forall|j: int| 0 <= j < old(self).spec_nodes().len() && j != node_idx ==>
                #[trigger] final(self).spec_nodes()[j] == old(self).spec_nodes()[j],
            forall|j: int| 0 <= j < old(self).spec_nodes().len() && j != node_idx ==>
                #[trigger] final(self).proposals@[j] == old(self).proposals@[j],
            forall|j: int| 0 <= j < old(self).spec_nodes().len() ==> #[trigger] final(self).ranges@[j] == old(self).ranges@[j],
            forall|j: int| 0 <= j < old(self).spec_nodes().len() ==> #[trigger] final(self).depths@[j] == old(self).depths@[j],
            old(self).spec_nodes()[node_idx as int]->primitive_count <= 2 ==>
                final(self).spec_nodes() == old(self).spec_nodes(),
            old(self).spec_nodes()[node_idx as int]->primitive_count > 2 ==>
                final(self).spec_nodes()[node_idx as int] == (BVHNodeInfo::Node { left: old(self).spec_nodes().len() as usize }),
            forall|j: int| (old(self).spec_nodes().len() <= j < final(self).spec_nodes().len() || j == node_idx)
                && (#[trigger] final(self).spec_nodes()[j]) is Leaf ==> final(self).spec_nodes()[j]->primitive_count <= 2,
            forall|p: int| 0 <= p < old(self).spec_num_primitives()
                && !run_contains(old(self).spec_nodes()[node_idx as int], p) ==>
                #[trigger] final(self).owner@[p] == old(self).owner@[p],
            forall|p: int| run_contains(old(self).spec_nodes()[node_idx as int], p) ==>
                #[trigger] final(self).owner@[p] == node_idx || old(self).spec_nodes().len() <= final(self).owner@[p],
            old(self).spec_nodes()[node_idx as int]->primitive_count > 2 ==> subtree_partitions_run(
                final(self).spec_nodes(),
                old(self).spec_nodes().len() as int,
                old(self).spec_nodes()[node_idx as int],
            ),
            forall|j: int| 0 <= j < old(self).spec_nodes().len() && j != node_idx ==>
                #[trigger] final(self).axes@[j] == old(self).axes@[j],
            oracle_consulted::<O>(final(self).nodes@, final(self).ranges@, final(self).proposals@, final(self).axes@,
                final(self).builder, final(self).axis_selection, old(self).spec_nodes().len() as int, node_idx as int),
        decreases old(self).spec_nodes()[node_idx as int]->primitive_count,
    {
        let nodes_len = self.nodes.len();
        let axis: usize = match self.axis_selection {
            AxisSelection::ERoundRobin => depth % 3,
            AxisSelection::ELongest => oracle.longest_axis(node_idx),
        };
        let info = self.nodes[node_idx];
        if info.primitive_count() <= 2 {
            proof {
                assert forall|p: int| run_contains(self.nodes@[node_idx as int], p) implies
                    #[trigger] self.owner@[p] == node_idx by {
                    assert(leaf_contains(self.nodes@[node_idx as int], p));
                }
            }
            return;
        }
        let nb_prim = info.primitive_count();
        let first_prim = info.frist_primitive();
        let ghost old_nodes = self.nodes@;
        let ghost old_owner = self.owner@;
        let ghost old_ranges = self.ranges@;
        self.nodes.set(node_idx, BVHNodeInfo::Node { left: nodes_len });
        let candidate = oracle.split(&self.builder, axis, node_idx, first_prim, nb_prim);
        proof {
            assert(split_answered::<O>(self.builder, axis as nat, node_idx as int, (first_prim as int, nb_prim as int), candidate as nat));
            if self.axis_selection == AxisSelection::ELongest {
                assert(longest_answered::<O>(node_idx as int, axis as nat));
            }
        }
        let offset = split_offset(&self.builder, nb_prim, candidate);
        proof {
            assert(old_nodes[node_idx as int] matches BVHNodeInfo::Leaf { frist_primitive, primitive_count }
                && frist_primitive + primitive_count <= self.num_primitives);
        }
        self.nodes.push(BVHNodeInfo::Leaf { frist_primitive: first_prim, primitive_count: offset });
        oracle.leaf_added(first_prim, offset);
        self.nodes.push(BVHNodeInfo::Leaf { frist_primitive: first_prim + offset, primitive_count: nb_prim - offset });
        oracle.leaf_added(first_prim + offset, nb_prim - offset);
        proof {
            assert(leaf_reported::<O>((first_prim as int, offset as int)));
            assert(leaf_reported::<O>(((first_prim + offset) as int, (nb_prim - offset) as int)));
        }
        let ghost new_owner = lemma_split_leaf(old_nodes, self.num_primitives as nat, old_owner, node_idx as int, nodes_len, offset as nat);
        let ghost new_ranges = lemma_split_ranges(old_nodes, self.num_primitives as nat, old_ranges, node_idx as int, nodes_len, offset as nat);
        proof {
            lemma_split_history(old_nodes, self.num_primitives as nat, old_ranges, new_ranges, self.proposals@,
                self.depths@, self.axes@, self.builder, self.axis_selection, node_idx as int, nodes_len,
                candidate as nat, axis as nat);
        }
        self.owner = Ghost(new_owner);
        self.ranges = Ghost(new_ranges);
        self.proposals = Ghost(self.proposals@.update(node_idx as int, candidate as nat).push(0).push(0));
        self.depths = Ghost(self.depths@.push((depth + 1) as nat).push((depth + 1) as nat));
        self.axes = Ghost(self.axes@.update(node_idx as int, axis as nat).push(0).push(0));
        let ghost n1 = self.nodes@;
        proof {
            assert(n1 == split_nodes(old_nodes, node_idx as int, nodes_len, offset as nat));
        }
        let right = self.nodes.len() - 1;
        let ghost owner1 = self.owner@;
        let ghost r1 = self.ranges@;
        let ghost a1 = self.axes@;
        let ghost p1 = self.proposals@;
        self.subdivide_from(nodes_len, oracle, depth + 1);
        let ghost n2 = self.nodes@;
        let ghost p2 = self.proposals@;
        let ghost owner2 = self.owner@;
        let ghost r2 = self.ranges@;
        let ghost a2 = self.axes@;
        self.subdivide_from(right, oracle, depth + 1);
        proof {
            let n3 = self.nodes@;
            let r3 = self.ranges@;
            let p3 = self.proposals@;
            let a3 = self.axes@;
            assert forall|j: int| 0 <= old_nodes.len() <= j < n3.len() implies leaf_reported::<O>(#[trigger] r3[j]) by {
                if j < n2.len() {
                    assert(r3[j] == r2[j]);
                    if j < n1.len() {
                        assert(r2[j] == r1[j]);
                    }
                }
            }
            assert forall|j: int| 0 <= j < n3.len() && (j == node_idx || old_nodes.len() <= j) && (#[trigger] n3[j]) is Node implies {
                &&& split_answered::<O>(self.builder, a3[j], j, r3[j], p3[j])
                &&& self.axis_selection == AxisSelection::ELongest ==> longest_answered::<O>(j, a3[j])
            } by {
                if j < n2.len() {
                    assert(r3[j] == r2[j]);
                    if j != right {
                        assert(n3[j] == n2[j]);
                        assert(p3[j] == p2[j]);
                        assert(a3[j] == a2[j]);
                        if j < n1.len() && j != nodes_len {
                            assert(n2[j] == n1[j]);
                            assert(p2[j] == p1[j]);
                            assert(a2[j] == a1[j]);
                            assert(r2[j] == r1[j]);
                        }
                    }
                }
            }
        }
        proof {
            let owner3 = self.owner@;
            let n = self.num_primitives as int;
            let f = first_prim as int;
            let o = offset as int;
            let c = nb_prim as int;
            assert(n1[nodes_len as int] == (BVHNodeInfo::Leaf { frist_primitive: first_prim, primitive_count: offset }));
            assert(n2[right as int] == n1[right as int]);
            assert(n1[right as int] == (BVHNodeInfo::Leaf { frist_primitive: (first_prim + offset) as usize, primitive_count: (nb_prim - offset) as usize }));
            assert forall|p: int| 0 <= p < n && !run_contains(old_nodes[node_idx as int], p) implies
                #[trigger] owner3[p] == old_owner[p] by {
                assert(owner1[p] == old_owner[p]);
                assert(!run_contains(n1[nodes_len as int], p));
                assert(owner2[p] == owner1[p]);
                assert(!run_contains(n2[right as int], p));
            }
            assert forall|p: int| run_contains(old_nodes[node_idx as int], p) implies
                #[trigger] owner3[p] == node_idx || old_nodes.len() <= owner3[p] by {
                assert(p < n);
                if p < f + o {
                    assert(run_contains(n1[nodes_len as int], p));
                    assert(!run_contains(n2[right as int], p));
                } else {
                    assert(!run_contains(n1[nodes_len as int], p));
                    assert(owner2[p] == owner1[p]);
                    assert(run_contains(n2[right as int], p));
                }
            }
        }
        proof {
            let p3 = self.proposals@;
            lemma_subdivided_grows(n1, nodes_len as int, offset as nat, self.builder, p2);
            assert forall|j: int| (j == nodes_len || n1.len() <= j < n2.len()) implies #[trigger] p2[j] == p3[j] by {
            }
            lemma_subdivided_frame(n1, nodes_len as int, offset as nat, self.builder, p2, p3);
            assert(p3[node_idx as int] == candidate as nat);
            assert(self.nodes@ == subdivided(old_nodes, node_idx as int, nb_prim as nat, self.builder, p3));
            lemma_partition_from_owner(self.nodes@, self.num_primitives as nat, self.owner@, old_nodes, old_owner,
                node_idx as int);
        }
    }

    /// Structural facts of a well-formed layout: the root exists, leaves stay
    /// within the primitives, and inner nodes point forward to two existing children.
    pub proof fn lemma_shape(&self)
        requires
            self.wf(),
        ensures
            self.spec_nodes().len() >= 1,
            forall|i: int| 0 <= i < self.spec_nodes().len() ==> match #[trigger] self.spec_nodes()[i] {
                BVHNodeInfo::Leaf { frist_primitive, primitive_count } =>
                    frist_primitive + primitive_count <= self.spec_num_primitives(),
                BVHNodeInfo::Node { left } => i < left && left + 1 < self.spec_nodes().len(),
            },
    {
    }

    /// The run `(first, count)` of primitives under node `i`.
    pub closed spec fn spec_run(&self, i: int) -> (int, int) {
        self.ranges@[i]
    }

    /// The runs of all nodes.
    pub closed spec fn spec_runs(&self) -> Seq<(int, int)> {
        self.ranges@
    }

    /// For each inner node, the split position the oracle proposed for it.
    pub closed spec fn spec_proposals(&self) -> Seq<nat> {
        self.proposals@
    }

    /// The depth of each node.
    pub closed spec fn spec_depths(&self) -> Seq<nat> {
        self.depths@
    }

    /// For each inner node, the axis that was handed to the oracle to split it.
    pub closed spec fn spec_axes(&self) -> Seq<nat> {
        self.axes@
    }

    /// How the inner nodes were split: the left child of an inner node holds
    /// the number of primitives the builder's rule gives for the node's run and
    /// the oracle's proposal (half the run, rounded down, for the median
    /// builder), children lie one level deeper than their parent, and with
    /// round robin selection a node is split along its depth modulo 3.
    pub proof fn lemma_history(&self)
        requires
            self.wf(),
        ensures
            history_wf(self.spec_nodes(), self.spec_runs(), self.spec_proposals(), self.spec_depths(),
                self.spec_axes(), self.spec_builder(), self.spec_axis_selection()),
            forall|i: int| 0 <= i < self.spec_runs().len() ==> #[trigger] self.spec_runs()[i] == self.spec_run(i),
    {
    }

    /// Subdivision recurses no deeper than the number of primitives: a node's
    /// depth plus the length of its run never exceeds it, so with at least one
    /// primitive every depth is below the number of primitives.
    pub proof fn lemma_depth_bound(&self)
        requires
            self.wf(),
        ensures
            forall|i: int| 0 <= i < self.spec_nodes().len() ==>
                #[trigger] self.spec_depths()[i] + self.spec_run(i).1 <= self.spec_num_primitives(),
            self.spec_num_primitives() >= 1 ==> forall|i: int| 0 <= i < self.spec_nodes().len() ==>
                #[trigger] self.spec_depths()[i] < self.spec_num_primitives(),
    {
        assert forall|i: int| 0 <= i < self.spec_nodes().len() implies
            #[trigger] self.spec_depths()[i] + self.spec_run(i).1 <= self.spec_num_primitives() by {
            assert(self.depths@[i] + self.ranges@[i].1 <= self.num_primitives);
        }
        if self.spec_num_primitives() >= 1 {
            assert forall|i: int| 0 <= i < self.spec_nodes().len() implies
                #[trigger] self.spec_depths()[i] < self.spec_num_primitives() by {
                assert(self.depths@[i] + self.ranges@[i].1 <= self.num_primitives);
                match self.nodes@[i] {
                    BVHNodeInfo::Leaf { .. } => {
                        assert(self.ranges@[i].1 >= 1);
                    },
                    BVHNodeInfo::Node { left } => {
                        assert(self.ranges@[left as int].1 >= 1);
                    },
                }
            }
        }
    }

    /// The primitives under the nodes: the root holds them all, a leaf holds
    /// its own run, and the two children of an inner node split its run in two
    /// non-empty runs, the left child's first.
    pub proof fn lemma_children_split_runs(&self)
        requires
            self.wf(),
        ensures
            self.spec_run(0) == (0int, self.spec_num_primitives() as int),
            forall|i: int| 0 <= i < self.spec_nodes().len() ==> match #[trigger] self.spec_nodes()[i] {
                BVHNodeInfo::Leaf { frist_primitive, primitive_count } =>
                    self.spec_run(i) == (frist_primitive as int, primitive_count as int),
                BVHNodeInfo::Node { left } => {
                    &&& self.spec_run(left as int).0 == self.spec_run(i).0
                    &&& self.spec_run(left + 1).0 == self.spec_run(left as int).0 + self.spec_run(left as int).1
                    &&& self.spec_run(left as int).1 + self.spec_run(left + 1).1 == self.spec_run(i).1
                    &&& self.spec_run(left as int).1 >= 1
                    &&& self.spec_run(left + 1).1 >= 1
                },
            },
    {
    }

    /// The leaves partition the primitives: every primitive lies in a leaf,
    /// and in one leaf only.
    pub proof fn lemma_leaves_partition(&self, p: int)
        requires
            self.wf(),
            0 <= p < self.spec_num_primitives(),
        ensures
            exists|i: int| 0 <= i < self.spec_nodes().len() && #[trigger] leaf_contains(self.spec_nodes()[i], p),
            forall|i: int, j: int|
                0 <= i < self.spec_nodes().len() && 0 <= j < self.spec_nodes().len()
                && #[trigger] leaf_contains(self.spec_nodes()[i], p)
                && #[trigger] leaf_contains(self.spec_nodes()[j], p) ==> i == j,
    {
        let o = self.owner@[p];
        assert(leaf_contains(self.spec_nodes()[o], p));
    }

    /// The nodes, root first.
    pub fn nodes(&self) -> (res: &Vec<BVHNodeInfo>)
        ensures
            res@ == self.spec_nodes(),
    {
        &self.nodes
    }
}

/// Positions, in increasing order, of the shapes that emit light, given
/// whether each shape emits.
pub fn collect_emitters(emissive: &Vec<bool>) -> (res: Vec<usize>)
    ensures
        forall|k: int| 0 <= k < res@.len() ==> #[trigger] res@[k] < emissive@.len() && emissive@[res@[k] as int],
        forall|k: int, l: int| 0 <= k < l < res@.len() ==> #[trigger] res@[k] < #[trigger] res@[l],
        forall|i: int| 0 <= i < emissive@.len() && #[trigger] emissive@[i] ==> res@.contains(i as usize),
{
    let mut emitters: Vec<usize> = Vec::new();
    let n = emissive.len();
    let mut i: usize = 0;
    while i < n
        invariant
            n == emissive@.len(),
            0 <= i <= n,
            forall|k: int| 0 <= k < emitters@.len() ==> #[trigger] emitters@[k] < i && emissive@[emitters@[k] as int],
            forall|k: int, l: int| 0 <= k < l < emitters@.len() ==> #[trigger] emitters@[k] < #[trigger] emitters@[l],
            forall|j: int| 0 <= j < i && #[trigger] emissive@[j] ==> emitters@.contains(j as usize),
        decreases n - i,
    {
        if emissive[i] {
            let ghost before = emitters@;
            emitters.push(i);
            proof {
                assert forall|j: int| 0 <= j < i + 1 && #[trigger] emissive@[j] implies emitters@.contains(j as usize) by {
                    if j < i {
                        let k = choose|k: int| 0 <= k < before.len() && before[k] == j as usize;
                        assert(emitters@[k] == j as usize);
                    } else {
                        assert(emitters@[before.len() as int] == i);
                    }
                }
            }
        }
        i = i + 1;
    }
    emitters
}

} // verus!

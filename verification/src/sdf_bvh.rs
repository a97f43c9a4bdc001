use vstd::prelude::*;

verus! {

/// A node of the hierarchy over signed distance objects: a run of objects,
/// or an inner node with the indices of its two children.
#[derive(Clone, Copy, Debug, PartialEq, Eq, Structural)]
pub enum BvhNodeKind {
    Leaf { start: usize, count: usize },
    Interior { left: usize, right: usize },
}

/// Whether node `k` is a leaf that holds object `p`.
pub open spec fn kind_contains(k: BvhNodeKind, p: int) -> bool {
    match k {
        BvhNodeKind::Leaf { start, count } => start <= p < start + count,
        BvhNodeKind::Interior { .. } => false,
    }
}

/// The structural invariant of a node list whose leaves hold the objects
/// `0 .. placed`, with `owner[p]` the leaf that holds object `p`: children
/// come after their parent, and each placed object lies in exactly one leaf.
pub open spec fn sdf_layout_wf(nodes: Seq<BvhNodeKind>, placed: nat, owner: Seq<int>) -> bool {
    &&& forall|i: int| 0 <= i < nodes.len() ==> match #[trigger] nodes[i] {
        BvhNodeKind::Leaf { start, count } => start + count <= placed,
        BvhNodeKind::Interior { left, right } => i < left < nodes.len() && i < right < nodes.len(),
    }
    &&& owner.len() == placed
    &&& forall|p: int| 0 <= p < placed ==> {
        &&& 0 <= #[trigger] owner[p] < nodes.len()
        &&& kind_contains(nodes[owner[p]], p)
    }
    &&& forall|i: int, p: int| 0 <= i < nodes.len() && #[trigger] kind_contains(nodes[i], p) ==> owner[p] == i
}

/// `runs[i]` is the run `(start, count)` of objects under node `i`: a
/// non-empty leaf's run is its own, and the children of an inner node split
/// its run in two non-empty runs, the left child taking the first half
/// (rounded down).
pub open spec fn sdf_runs_wf(nodes: Seq<BvhNodeKind>, runs: Seq<(int, int)>) -> bool {
    &&& runs.len() == nodes.len()
    &&& forall|i: int| 0 <= i < nodes.len() ==> match #[trigger] nodes[i] {
        BvhNodeKind::Leaf { start, count } => count > 0 ==> runs[i] == (start as int, count as int),
        BvhNodeKind::Interior { left, right } => left < nodes.len() && right < nodes.len() && {
            &&& runs[left as int].0 == runs[i].0
            &&& runs[right as int].0 == runs[left as int].0 + runs[left as int].1
            &&& runs[left as int].1 + runs[right as int].1 == runs[i].1
            &&& runs[left as int].1 == runs[i].1 / 2
            &&& runs[left as int].1 >= 1
            &&& runs[right as int].1 >= 1
        },
    }
}

/// The positions of the objects a traversal visits from node `i`, given
/// whether the ray hits the box of each node: nothing below a node that is not
/// hit, the objects of a hit leaf in order, and for a hit inner node what its
/// left child gives followed by what its right child gives.
pub open spec fn spec_visit(nodes: Seq<BvhNodeKind>, hits: Seq<bool>, i: int) -> Seq<usize>
    decreases nodes.len() - i,
{
    if 0 <= i < nodes.len() && i < hits.len() && hits[i] {
        match nodes[i] {
            BvhNodeKind::Leaf { start, count } => Seq::new(count as nat, |k: int| (start + k) as usize),
            BvhNodeKind::Interior { left, right } => {
                let l = if i < left < nodes.len() { spec_visit(nodes, hits, left as int) } else { Seq::empty() };
                let r = if i < right < nodes.len() { spec_visit(nodes, hits, right as int) } else { Seq::empty() };
                l + r
            },
        }
    } else {
        Seq::empty()
    }
}

/// Whether the hit flags agree with nested boxes: an inner node is hit
/// whenever one of its children is, as a ray does when each node's box
/// encloses the boxes of its children.
pub open spec fn hits_enclose(nodes: Seq<BvhNodeKind>, hits: Seq<bool>) -> bool {
    forall|i: int| 0 <= i < nodes.len() ==> match #[trigger] nodes[i] {
        BvhNodeKind::Leaf { .. } => true,
        BvhNodeKind::Interior { left, right } =>
            ((left < hits.len() && hits[left as int]) || (right < hits.len() && hits[right as int])) ==>
                i < hits.len() && hits[i],
    }
}

/// Whether every object the ray hits (`obj_hits[p]` for object `p`) lies in a
/// leaf whose box the ray hits, as it does when each leaf's box encloses the
/// boxes of its objects.
pub open spec fn leaves_enclose(nodes: Seq<BvhNodeKind>, hits: Seq<bool>, obj_hits: Seq<bool>) -> bool {
    forall|i: int, p: int| 0 <= i < nodes.len() && #[trigger] kind_contains(nodes[i], p)
        && 0 <= p < obj_hits.len() && #[trigger] obj_hits[p] ==> i < hits.len() && hits[i]
}

/// Where the run of objects `lo .. hi` is split, given the oracle's answer
/// `spread` on whether their centres spread: a run of more than two objects
/// whose centres spread is split in two halves at the returned position (the
/// left half rounded down); any other run becomes a leaf (`None`).
pub fn split_point(lo: usize, hi: usize, spread: bool) -> (res: Option<usize>)
    requires
        lo <= hi,
    ensures
        res == (if hi - lo > 2 && spread { Some((lo + (hi - lo) / 2) as usize) } else { None::<usize> }),
{
    let count = hi - lo;
    if count > 2 && spread { Some(lo + count / 2) } else { None }
}

/// The ordering work that building the hierarchy needs; the layout itself is
/// decided by `SdfBvhLayout`.
pub trait SdfSplitOracle {
    /// Records that a node over objects `lo .. hi` was appended to the nodes.
    fn node_added(&mut self, lo: usize, hi: usize);

    /// Sorts objects `lo .. hi` along the axis on which their centres spread
    /// most, and returns `true`; returns `false`, leaving them, when the centres
    /// do not spread along that axis.
    fn sort_for_split(&mut self, lo: usize, hi: usize) -> bool;
}

/// `node_added` was called, on an oracle of type `O`, with the objects of the
/// run `(start, count)`.
pub open spec fn node_reported<O: SdfSplitOracle>(run: (int, int)) -> bool {
    exists|o: &mut O, lo: usize, hi: usize|
        lo == run.0 && hi == run.0 + run.1 && #[trigger] call_ensures(O::node_added, (o, lo, hi), ())
}

/// `sort_for_split` was called, on an oracle of type `O`, with exactly the
/// objects of the run `(start, count)`, and answered `answer`.
pub open spec fn sort_answered<O: SdfSplitOracle>(run: (int, int), answer: bool) -> bool {
    exists|o: &mut O, lo: usize, hi: usize|
        lo == run.0 && hi == run.0 + run.1 && #[trigger] call_ensures(O::sort_for_split, (o, lo, hi), answer)
}

/// How the oracle was consulted for the nodes from `from` on: each was
/// reported with its own run, and for each run of more than two objects the
/// recorded answer is what the oracle answered when asked to sort exactly
/// the objects of that run.
pub open spec fn sdf_oracle_consulted<O: SdfSplitOracle>(runs: Seq<(int, int)>, answers: Seq<bool>, from: int, to: int) -> bool {
    forall|j: int| 0 <= from <= j < to ==> {
        &&& node_reported::<O>(#[trigger] runs[j])
        &&& runs[j].1 > 2 ==> sort_answered::<O>(runs[j], answers[j])
    }
}

/// The node layout of a hierarchy over signed distance objects: node 0 is the
/// root, and the objects, in the order the hierarchy arranged them, are
/// partitioned among the leaves.
pub struct SdfBvhLayout {
    nodes: Vec<BvhNodeKind>,
    placed: usize,
    owner: Ghost<Seq<int>>,
    runs: Ghost<Seq<(int, int)>>,
    answers: Ghost<Seq<bool>>,
}

impl SdfBvhLayout {
    /// The nodes, root first.
    pub closed spec fn spec_nodes(&self) -> Seq<BvhNodeKind> {
        self.nodes@
    }

    /// Number of objects the leaves hold.
    pub closed spec fn spec_num_objects(&self) -> nat {
        self.placed as nat
    }

    /// The structural invariant holds.
    pub closed spec fn wf(&self) -> bool {
        &&& sdf_layout_wf(self.nodes@, self.placed as nat, self.owner@)
        &&& sdf_runs_wf(self.nodes@, self.runs@)
    }

    /// The runs of all nodes.
    pub closed spec fn spec_runs(&self) -> Seq<(int, int)> {
        self.runs@
    }

    /// The run `(start, count)` of objects under node `i`.
    pub closed spec fn spec_run(&self, i: int) -> (int, int) {
        self.runs@[i]
    }

    /// For each node, the oracle's answer on whether the centres of its
    /// objects spread (`false` for a run of at most two, which is not asked).
    pub closed spec fn spec_answers(&self) -> Seq<bool> {
        self.answers@
    }

    /// Every leaf holds at least one object.
    pub open spec fn leaves_nonempty(&self) -> bool {
        forall|i: int| 0 <= i < self.spec_nodes().len() && (#[trigger] self.spec_nodes()[i]) is Leaf ==>
            self.spec_nodes()[i]->count >= 1
    }

    /// Builds the layout over `num_objects` objects, or `None` when there are
    /// fewer than two (a linear scan is used then). A run of at most two
    /// objects, or of objects whose centres do not spread, becomes a leaf; a
    /// longer run is sorted and split in two halves.
    pub fn build<O: SdfSplitOracle>(num_objects: usize, oracle: &mut O) -> (res: Option<Self>)
        ensures
            res is Some <==> num_objects >= 2,
            res matches Some(l) ==> {
                &&& l.wf()
                &&& l.spec_num_objects() == num_objects
                &&& l.spec_nodes().len() >= 1
                &&& l.spec_run(0) == (0int, num_objects as int)
                &&& l.leaves_nonempty()
                &&& forall|i: int| 0 <= i < l.spec_nodes().len() && #[trigger] l.spec_run(i).1 <= 2 ==>
                    l.spec_nodes()[i] is Leaf
                &&& l.spec_answers().len() == l.spec_nodes().len()
                &&& forall|i: int| 0 <= i < l.spec_nodes().len() && #[trigger] l.spec_run(i).1 > 2 ==>
                    (l.spec_nodes()[i] is Interior <==> l.spec_answers()[i])
                &&& sdf_oracle_consulted::<O>(l.spec_runs(), l.spec_answers(), 0, l.spec_nodes().len() as int)
            },
    {
        if num_objects <= 1 {
            return None;
        }
        let mut layout = SdfBvhLayout {
            nodes: Vec::new(),
            placed: 0,
            owner: Ghost(Seq::empty()),
            runs: Ghost(Seq::empty()),
            answers: Ghost(Seq::empty()),
        };
        let _root = layout.build_recursive(0, num_objects, oracle);
        proof {
            assert(layout.spec_runs() == layout.runs@);
        }
        Some(layout)
    }

    /// Builds the subtree over objects `lo .. hi` and returns the index of its root.
    fn build_recursive<O: SdfSplitOracle>(&mut self, lo: usize, hi: usize, oracle: &mut O) -> (res: usize)
        requires
            old(self).wf(),
            old(self).placed == lo,
            lo < hi,
            old(self).answers@.len() == old(self).spec_nodes().len(),
        ensures
            final(self).wf(),
            final(self).placed == hi,
            res == old(self).spec_nodes().len(),
            final(self).spec_nodes().len() > old(self).spec_nodes().len(),
            forall|j: int| 0 <= j < old(self).spec_nodes().len() ==>
                #[trigger] final(self).spec_nodes()[j] == old(self).spec_nodes()[j],
            forall|j: int| 0 <= j < old(self).spec_nodes().len() ==>
                #[trigger] final(self).runs@[j] == old(self).runs@[j],
            final(self).runs@[res as int] == (lo as int, hi - lo),
            forall|j: int| old(self).spec_nodes().len() <= j < final(self).spec_nodes().len()
                && (#[trigger] final(self).spec_nodes()[j]) is Leaf ==> final(self).spec_nodes()[j]->count >= 1,
            forall|j: int| old(self).spec_nodes().len() <= j < final(self).spec_nodes().len()
                && #[trigger] final(self).runs@[j].1 <= 2 ==> final(self).spec_nodes()[j] is Leaf,
            final(self).answers@.len() == final(self).spec_nodes().len(),
            forall|j: int| 0 <= j < old(self).spec_nodes().len() ==>
                #[trigger] final(self).answers@[j] == old(self).answers@[j],
            forall|j: int| old(self).spec_nodes().len() <= j < final(self).spec_nodes().len()
                && #[trigger] final(self).runs@[j].1 > 2 ==>
                (final(self).spec_nodes()[j] is Interior <==> final(self).answers@[j]),
            sdf_oracle_consulted::<O>(final(self).runs@, final(self).answers@, old(self).spec_nodes().len() as int,
                final(self).spec_nodes().len() as int),
        decreases hi - lo,
    {
        let count = hi - lo;
        let index = self.nodes.len();
        let spread = if count > 2 { oracle.sort_for_split(lo, hi) } else { false };
        proof {
            if count > 2 {
                assert(sort_answered::<O>((lo as int, count as int), spread));
            }
        }
        self.answers = Ghost(self.answers@.push(spread));
        if let Some(mid) = split_point(lo, hi, spread) {
            let ghost owner0 = self.owner@;
            self.nodes.push(BvhNodeKind::Leaf { start: 0, count: 0 });
            self.runs = Ghost(self.runs@.push((lo as int, count as int)));
            oracle.node_added(lo, hi);
            proof {
                assert(node_reported::<O>((lo as int, count as int)));
                assert forall|i: int, p: int| 0 <= i < self.nodes@.len() && #[trigger] kind_contains(self.nodes@[i], p)
                    implies self.owner@[p] == i by {
                    assert(i != index);
                }
            }
            let ghost runs0 = self.runs@;
            let ghost answers0 = self.answers@;
            let left = self.build_recursive(lo, mid, oracle);
            let ghost after_left = self.nodes@.len();
            let ghost runs1 = self.runs@;
            let ghost answers1 = self.answers@;
            let right = self.build_recursive(mid, hi, oracle);
            let ghost before = self.nodes@;
            self.nodes.set(index, BvhNodeKind::Interior { left, right });
            proof {
                assert forall|j: int| 0 <= index <= j < self.nodes@.len() implies {
                    &&& node_reported::<O>(#[trigger] self.runs@[j])
                    &&& self.runs@[j].1 > 2 ==> sort_answered::<O>(self.runs@[j], self.answers@[j])
                } by {
                    if j < after_left {
                        assert(self.runs@[j] == runs1[j]);
                        assert(self.answers@[j] == answers1[j]);
                        if j == index {
                            assert(runs1[j] == runs0[j]);
                            assert(answers1[j] == answers0[j]);
                        }
                    }
                }
                assert forall|j: int| index <= j < self.nodes@.len() && #[trigger] self.runs@[j].1 > 2
                    implies (self.nodes@[j] is Interior <==> self.answers@[j]) by {
                    if j != index {
                        assert(self.nodes@[j] == before[j]);
                        if j < after_left {
                            assert(self.runs@[j].1 > 2);
                        }
                    }
                }
                assert forall|j: int| index <= j < self.nodes@.len() && #[trigger] self.runs@[j].1 <= 2
                    implies self.nodes@[j] is Leaf by {
                    if j != index {
                        assert(self.nodes@[j] == before[j]);
                        if j < after_left {
                            assert(self.runs@[j].1 <= 2);
                        }
                    }
                }
                assert forall|i: int| 0 <= i < self.nodes@.len() implies match #[trigger] self.nodes@[i] {
                    BvhNodeKind::Leaf { start, count } => count > 0 ==> self.runs@[i] == (start as int, count as int),
                    BvhNodeKind::Interior { left, right } => left < self.nodes@.len() && right < self.nodes@.len() && {
                        &&& self.runs@[left as int].0 == self.runs@[i].0
                        &&& self.runs@[right as int].0 == self.runs@[left as int].0 + self.runs@[left as int].1
                        &&& self.runs@[left as int].1 + self.runs@[right as int].1 == self.runs@[i].1
                        &&& self.runs@[left as int].1 == self.runs@[i].1 / 2
                        &&& self.runs@[left as int].1 >= 1
                        &&& self.runs@[right as int].1 >= 1
                    },
                } by {
                    if i != index {
                        assert(self.nodes@[i] == before[i]);
                    }
                }
                assert forall|i: int| 0 <= i < self.nodes@.len() implies match #[trigger] self.nodes@[i] {
                    BvhNodeKind::Leaf { start, count } => start + count <= self.placed,
                    BvhNodeKind::Interior { left, right } => i < left < self.nodes@.len() && i < right < self.nodes@.len(),
                } by {
                    if i != index {
                        assert(self.nodes@[i] == before[i]);
                    }
                }
                assert forall|p: int| 0 <= p < self.placed implies {
                    &&& 0 <= #[trigger] self.owner@[p] < self.nodes@.len()
                    &&& kind_contains(self.nodes@[self.owner@[p]], p)
                } by {
                    assert(kind_contains(before[self.owner@[p]], p));
                    assert(self.owner@[p] != index);
                }
                assert forall|i: int, p: int| 0 <= i < self.nodes@.len() && #[trigger] kind_contains(self.nodes@[i], p)
                    implies self.owner@[p] == i by {
                    assert(i != index);
                    assert(kind_contains(before[i], p));
                }
            }
            index
        } else {
            let ghost owner0 = self.owner@;
            self.nodes.push(BvhNodeKind::Leaf { start: lo, count });
            self.runs = Ghost(self.runs@.push((lo as int, count as int)));
            oracle.node_added(lo, hi);
            self.placed = hi;
            self.owner = Ghost(owner0 + Seq::new(count as nat, |k: int| index as int));
            proof {
                let nodes = self.nodes@;
                assert forall|i: int| 0 <= i < nodes.len() implies match #[trigger] nodes[i] {
                    BvhNodeKind::Leaf { start, count } => start + count <= hi,
                    BvhNodeKind::Interior { left, right } => i < left < nodes.len() && i < right < nodes.len(),
                } by {
                    if i != index {
                        assert(nodes[i] == old(self).nodes@[i]);
                    }
                }
                assert forall|p: int| 0 <= p < hi implies {
                    &&& 0 <= #[trigger] self.owner@[p] < nodes.len()
                    &&& kind_contains(nodes[self.owner@[p]], p)
                } by {
                    if p < lo {
                        assert(self.owner@[p] == owner0[p]);
                        assert(kind_contains(old(self).nodes@[owner0[p]], p));
                    }
                }
                assert forall|i: int, p: int| 0 <= i < nodes.len() && #[trigger] kind_contains(nodes[i], p)
                    implies self.owner@[p] == i by {
                    if i != index {
                        assert(nodes[i] == old(self).nodes@[i]);
                        assert(owner0[p] == i);
                    }
                }
            }
            index
        }
    }

    /// Structural facts of a well-formed layout: leaves stay within the
    /// objects, and inner nodes point forward to existing children.
    pub proof fn lemma_shape(&self)
        requires
            self.wf(),
        ensures
            forall|i: int| 0 <= i < self.spec_nodes().len() ==> match #[trigger] self.spec_nodes()[i] {
                BvhNodeKind::Leaf { start, count } => start + count <= self.spec_num_objects(),
                BvhNodeKind::Interior { left, right } =>
                    i < left < self.spec_nodes().len() && i < right < self.spec_nodes().len(),
            },
    {
    }

    /// The objects under the nodes: a leaf holds its own run, and the two
    /// children of an inner node split its run in two non-empty runs, the left
    /// child taking the first half, rounded down.
    pub proof fn lemma_children_split_runs(&self)
        requires
            self.wf(),
            self.leaves_nonempty(),
        ensures
            forall|i: int| 0 <= i < self.spec_nodes().len() ==> match #[trigger] self.spec_nodes()[i] {
                BvhNodeKind::Leaf { start, count } => self.spec_run(i) == (start as int, count as int),
                BvhNodeKind::Interior { left, right } => {
                    &&& self.spec_run(left as int).0 == self.spec_run(i).0
                    &&& self.spec_run(right as int).0 == self.spec_run(left as int).0 + self.spec_run(left as int).1
                    &&& self.spec_run(left as int).1 + self.spec_run(right as int).1 == self.spec_run(i).1
                    &&& self.spec_run(left as int).1 == self.spec_run(i).1 / 2
                    &&& self.spec_run(left as int).1 >= 1
                    &&& self.spec_run(right as int).1 >= 1
                },
            },
    {
        assert forall|i: int| 0 <= i < self.spec_nodes().len() implies match #[trigger] self.spec_nodes()[i] {
            BvhNodeKind::Leaf { start, count } => self.spec_run(i) == (start as int, count as int),
            BvhNodeKind::Interior { left, right } => {
                &&& self.spec_run(left as int).0 == self.spec_run(i).0
                &&& self.spec_run(right as int).0 == self.spec_run(left as int).0 + self.spec_run(left as int).1
                &&& self.spec_run(left as int).1 + self.spec_run(right as int).1 == self.spec_run(i).1
                &&& self.spec_run(left as int).1 == self.spec_run(i).1 / 2
                &&& self.spec_run(left as int).1 >= 1
                &&& self.spec_run(right as int).1 >= 1
            },
        } by {
            if self.spec_nodes()[i] is Leaf {
                assert(self.spec_nodes()[i]->count >= 1);
            }
        }
    }

    /// The leaves partition the objects: every object lies in a leaf, and in one leaf only.
    pub proof fn lemma_leaves_partition(&self, p: int)
        requires
            self.wf(),
            0 <= p < self.spec_num_objects(),
        ensures
            exists|i: int| 0 <= i < self.spec_nodes().len() && #[trigger] kind_contains(self.spec_nodes()[i], p),
            forall|i: int, j: int|
                0 <= i < self.spec_nodes().len() && 0 <= j < self.spec_nodes().len()
                && #[trigger] kind_contains(self.spec_nodes()[i], p)
                && #[trigger] kind_contains(self.spec_nodes()[j], p) ==> i == j,
    {
        let o = self.owner@[p];
        assert(kind_contains(self.spec_nodes()[o], p));
    }

    /// The positions of the objects to march for a ray, depth first and left
    /// child first, given whether the ray hits the box of each node (`hits[i]`
    /// for node `i`; a missing entry counts as a miss).
    pub fn visit_objects(&self, hits: &Vec<bool>) -> (res: Vec<usize>)
        requires
            self.wf(),
        ensures
            res@ == spec_visit(self.spec_nodes(), hits@, 0),
    {
        let mut out: Vec<usize> = Vec::new();
        if self.nodes.len() > 0 {
            self.visit_from(hits, 0, &mut out);
        } else {
            assert(out@ =~= spec_visit(self.spec_nodes(), hits@, 0));
        }
        out
    }

    fn visit_from(&self, hits: &Vec<bool>, i: usize, out: &mut Vec<usize>)
        requires
            self.wf(),
            i < self.spec_nodes().len(),
        ensures
            final(out)@ == old(out)@ + spec_visit(self.spec_nodes(), hits@, i as int),
        decreases self.spec_nodes().len() - i,
    {
        let ghost before = out@;
        if i < hits.len() && hits[i] {
            match self.nodes[i] {
                BvhNodeKind::Leaf { start, count } => {
                    assert(start + count <= self.placed);
                    let mut k: usize = 0;
                    while k < count
                        invariant
                            k <= count,
                            start + count <= usize::MAX,
                            out@ == before + Seq::new(k as nat, |m: int| (start + m) as usize),
                        decreases count - k,
                    {
                        out.push(start + k);
                        proof {
                            assert(out@ =~= before + Seq::new((k + 1) as nat, |m: int| (start + m) as usize));
                        }
                        k = k + 1;
                    }
                },
                BvhNodeKind::Interior { left, right } => {
                    self.visit_from(hits, left, out);
                    self.visit_from(hits, right, out);
                    proof {
                        assert(out@ =~= before + spec_visit(self.spec_nodes(), hits@, i as int));
                    }
                },
            }
        } else {
            assert(out@ =~= before + spec_visit(self.spec_nodes(), hits@, i as int));
        }
    }

    /// A traversal visits each object at most once: from node `i` the visited
    /// positions increase strictly and lie in the run of node `i`.
    pub proof fn lemma_visit_sorted(&self, hits: Seq<bool>, i: int)
        requires
            self.wf(),
            self.leaves_nonempty(),
            0 <= i < self.spec_nodes().len(),
        ensures
            forall|a: int, b: int| 0 <= a < b < spec_visit(self.spec_nodes(), hits, i).len() ==>
                #[trigger] spec_visit(self.spec_nodes(), hits, i)[a] < #[trigger] spec_visit(self.spec_nodes(), hits, i)[b],
            forall|a: int| 0 <= a < spec_visit(self.spec_nodes(), hits, i).len() ==>
                self.spec_run(i).0 <= #[trigger] spec_visit(self.spec_nodes(), hits, i)[a] < self.spec_run(i).0 + self.spec_run(i).1,
        decreases self.spec_nodes().len() - i,
    {
        let nodes = self.spec_nodes();
        let v = spec_visit(nodes, hits, i);
        if i < hits.len() && hits[i] {
            match nodes[i] {
                BvhNodeKind::Leaf { start, count } => {
                    assert(count >= 1);
                    assert(self.spec_run(i) == (start as int, count as int));
                    assert(start + count <= self.placed);
                },
                BvhNodeKind::Interior { left, right } => {
                    self.lemma_visit_sorted(hits, left as int);
                    self.lemma_visit_sorted(hits, right as int);
                    let l = spec_visit(nodes, hits, left as int);
                    let r = spec_visit(nodes, hits, right as int);
                    assert(v == l + r);
                    assert forall|a: int| 0 <= a < v.len() implies
                        self.spec_run(i).0 <= #[trigger] v[a] < self.spec_run(i).0 + self.spec_run(i).1 by {
                        if a < l.len() {
                            assert(v[a] == l[a]);
                        } else {
                            assert(v[a] == r[a - l.len()]);
                        }
                    }
                    assert forall|a: int, b: int| 0 <= a < b < v.len() implies #[trigger] v[a] < #[trigger] v[b] by {
                        if b < l.len() {
                            assert(v[a] == l[a] && v[b] == l[b]);
                        } else if a >= l.len() {
                            assert(v[a] == r[a - l.len()] && v[b] == r[b - l.len()]);
                        } else {
                            assert(v[a] == l[a] && v[b] == r[b - l.len()]);
                        }
                    }
                },
            }
        }
    }

    /// When the ray hits every box, the traversal from node `i` visits every
    /// object of its run, once each, in order.
    pub proof fn lemma_visit_all_hit(&self, hits: Seq<bool>, i: int)
        requires
            self.wf(),
            self.leaves_nonempty(),
            0 <= i < self.spec_nodes().len(),
            hits.len() == self.spec_nodes().len(),
            forall|j: int| 0 <= j < hits.len() ==> #[trigger] hits[j],
        ensures
            spec_visit(self.spec_nodes(), hits, i) == Seq::new(self.spec_run(i).1 as nat, |k: int| (self.spec_run(i).0 + k) as usize),
        decreases self.spec_nodes().len() - i,
    {
        let nodes = self.spec_nodes();
        assert(hits[i]);
        match nodes[i] {
            BvhNodeKind::Leaf { start, count } => {
                assert(count >= 1);
                assert(self.spec_run(i) == (start as int, count as int));
                assert(spec_visit(nodes, hits, i) =~= Seq::new(self.spec_run(i).1 as nat, |k: int| (self.spec_run(i).0 + k) as usize));
            },
            BvhNodeKind::Interior { left, right } => {
                self.lemma_visit_all_hit(hits, left as int);
                self.lemma_visit_all_hit(hits, right as int);
                assert(spec_visit(nodes, hits, i) =~= Seq::new(self.spec_run(i).1 as nat, |k: int| (self.spec_run(i).0 + k) as usize));
            },
        }
    }

    /// No object the ray hits is skipped: when the node boxes enclose their
    /// children's and the leaf boxes their objects', the traversal from node
    /// `i` visits every object of its run that the ray hits (from the root,
    /// whose run is all objects, every object the ray hits).
    pub proof fn lemma_visit_reaches(&self, hits: Seq<bool>, obj_hits: Seq<bool>, i: int)
        requires
            self.wf(),
            self.leaves_nonempty(),
            0 <= i < self.spec_nodes().len(),
            hits_enclose(self.spec_nodes(), hits),
            leaves_enclose(self.spec_nodes(), hits, obj_hits),
        ensures
            forall|p: int| self.spec_run(i).0 <= p < self.spec_run(i).0 + self.spec_run(i).1
                && p < obj_hits.len() && #[trigger] obj_hits[p] ==>
                spec_visit(self.spec_nodes(), hits, i).contains(p as usize),
        decreases self.spec_nodes().len() - i,
    {
        let nodes = self.spec_nodes();
        match nodes[i] {
            BvhNodeKind::Leaf { start, count } => {
                assert(count >= 1);
                assert(self.spec_run(i) == (start as int, count as int));
                assert forall|p: int| self.spec_run(i).0 <= p < self.spec_run(i).0 + self.spec_run(i).1
                    && p < obj_hits.len() && #[trigger] obj_hits[p] implies
                    spec_visit(nodes, hits, i).contains(p as usize) by {
                    assert(kind_contains(nodes[i], p));
                    assert(hits[i]);
                    let v = spec_visit(nodes, hits, i);
                    assert(v[p - start] == p as usize);
                }
            },
            BvhNodeKind::Interior { left, right } => {
                self.lemma_visit_reaches(hits, obj_hits, left as int);
                self.lemma_visit_reaches(hits, obj_hits, right as int);
                assert forall|p: int| self.spec_run(i).0 <= p < self.spec_run(i).0 + self.spec_run(i).1
                    && p < obj_hits.len() && #[trigger] obj_hits[p] implies
                    spec_visit(nodes, hits, i).contains(p as usize) by {
                    let l = spec_visit(nodes, hits, left as int);
                    let r = spec_visit(nodes, hits, right as int);
                    if p < self.spec_run(left as int).0 + self.spec_run(left as int).1 {
                        assert(l.contains(p as usize));
                        assert(left < hits.len() && hits[left as int]);
                        assert(hits[i]);
                        let k = choose|k: int| 0 <= k < l.len() && l[k] == p as usize;
                        assert((l + r)[k] == p as usize);
                    } else {
                        assert(r.contains(p as usize));
                        assert(right < hits.len() && hits[right as int]);
                        assert(hits[i]);
                        let k = choose|k: int| 0 <= k < r.len() && r[k] == p as usize;
                        assert((l + r)[l.len() + k] == p as usize);
                    }
                    assert(spec_visit(nodes, hits, i) == l + r);
                }
            },
        }
    }

    /// The nodes, root first.
    pub fn nodes(&self) -> (res: &Vec<BvhNodeKind>)
        ensures
            res@ == self.spec_nodes(),
    {
        &self.nodes
    }
}

} // verus!

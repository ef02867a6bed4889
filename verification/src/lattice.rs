//! The segmentation lattice: candidate spans over a text of `length` code
//! points, and the search for the path of greatest score through them.

use vstd::prelude::*;

verus! {

/// The index of a node in its lattice.
pub type NodeId = usize;

/// The greatest number of nodes for which room is made before any node is
/// laid; a lattice grows beyond it as nodes arrive.
pub const RESERVE_LIMIT: usize = 65536;

/// A candidate span `[start, end)` of the text, in code points.
#[derive(Debug, Clone, Copy)]
pub struct LatticeNode {
    /// The dictionary term this span stands for; `None` for an unknown span.
    pub term_id: Option<u32>,
    pub start: usize,
    pub end: usize,
    pub score: u64,
}

/// What the search has recorded as the predecessor of a node.
#[derive(Debug, Clone, Copy)]
pub enum Previous {
    /// No path from the beginning of the text reaches the node.
    Unreached,
    /// The node starts at position 0.
    Begin,
    /// The best path to the node comes through this node.
    Node(NodeId),
}

/// The mathematical content of a lattice.
pub struct LatticeView {
    pub length: nat,
    pub nodes: Seq<LatticeNode>,
}

/// The start of a node, or with `at_end` its end.
pub open spec fn position_of(node: LatticeNode, at_end: bool) -> int {
    if at_end {
        node.end as int
    } else {
        node.start as int
    }
}

/// `bucket` lists, in the order of insertion, exactly the nodes whose start
/// (or end, with `at_end`) is `position`.
pub open spec fn lists_nodes_at(
    bucket: Seq<NodeId>,
    nodes: Seq<LatticeNode>,
    at_end: bool,
    position: int,
) -> bool {
    &&& forall|k: int|
        0 <= k < bucket.len() ==> (#[trigger] bucket[k]) < nodes.len() && position_of(
            nodes[bucket[k] as int],
            at_end,
        ) == position
    &&& forall|k1: int, k2: int| 0 <= k1 < k2 < bucket.len() ==> bucket[k1] < bucket[k2]
    &&& forall|j: int|
        0 <= j < nodes.len() && position_of(#[trigger] nodes[j], at_end) == position
            ==> bucket.contains(j as usize)
}

/// Every node is a non-empty span inside the text.
pub open spec fn spans_within(nodes: Seq<LatticeNode>, length: nat) -> bool {
    forall|i: int| 0 <= i < nodes.len() ==> (#[trigger] nodes[i]).start < nodes[i].end <= length
}

/// The best node to come from, among the first `n` nodes, for a span that
/// starts at `position`: a node that ends there, is reached from the
/// beginning of the text, and has the greatest total score, which must be more
/// than 0. Of several with that total the one inserted first is taken. The
/// result is the node's index with its total.
pub open spec fn best_before(nodes: Seq<LatticeNode>, position: int, n: int) -> Option<(int, nat)>
    decreases position, n,
{
    if n <= 0 || n > nodes.len() || position < 0 {
        None
    } else {
        let earlier = best_before(nodes, position, n - 1);
        let bound = match earlier {
            Some((_, total)) => total,
            None => 0nat,
        };
        if nodes[n - 1].end == position {
            match total_score(nodes, n - 1) {
                Some(total) => if total > bound {
                    Some((n - 1, total))
                } else {
                    earlier
                },
                None => earlier,
            }
        } else {
            earlier
        }
    }
}

/// The score of the best path from the beginning of the text that ends with
/// node `j`: the node's own score, and for a node that does not start at 0 the
/// total of the best node to come from. `None` where no path reaches the node.
pub open spec fn total_score(nodes: Seq<LatticeNode>, j: int) -> Option<nat>
    decreases nodes[j].end, 0int,
{
    if j < 0 || j >= nodes.len() || nodes[j].start >= nodes[j].end {
        None
    } else if nodes[j].start == 0 {
        Some(nodes[j].score as nat)
    } else {
        match best_before(nodes, nodes[j].start as int, nodes.len() as int) {
            Some((_, total)) => Some(nodes[j].score as nat + total),
            None => None,
        }
    }
}

/// The predecessor that the search records for node `j`.
pub open spec fn previous_of(nodes: Seq<LatticeNode>, j: int) -> Previous {
    if j < 0 || j >= nodes.len() || nodes[j].start >= nodes[j].end {
        Previous::Unreached
    } else if nodes[j].start == 0 {
        Previous::Begin
    } else {
        match best_before(nodes, nodes[j].start as int, nodes.len() as int) {
            Some((left, _)) => Previous::Node(left as usize),
            None => Previous::Unreached,
        }
    }
}

/// The best path from the beginning of the text to node `j`, as node indices
/// in text order.
pub open spec fn path_to(nodes: Seq<LatticeNode>, j: int) -> Seq<int>
    decreases nodes[j].end,
{
    if j < 0 || j >= nodes.len() || nodes[j].start >= nodes[j].end {
        Seq::empty()
    } else if nodes[j].start == 0 {
        seq![j]
    } else {
        match best_before(nodes, nodes[j].start as int, nodes.len() as int) {
            Some((left, _)) => if 0 <= left < nodes.len() && nodes[left].end == nodes[j].start {
                path_to(nodes, left).push(j)
            } else {
                seq![j]
            },
            None => seq![j],
        }
    }
}

/// The indices of the nodes on the path of greatest score from position 0 to
/// position `length - 1`; empty where there is none.
pub open spec fn best_path_indices(nodes: Seq<LatticeNode>, length: nat) -> Seq<int> {
    if length == 0 {
        Seq::empty()
    } else {
        match best_before(nodes, length - 1, nodes.len() as int) {
            Some((last, _)) => path_to(nodes, last),
            None => Seq::empty(),
        }
    }
}

/// The nodes on the path of greatest score, in text order.
pub open spec fn best_path(nodes: Seq<LatticeNode>, length: nat) -> Seq<LatticeNode> {
    best_path_indices(nodes, length).map_values(|j: int| nodes[j])
}

/// What `best_before` returns is a node among the first `n` that ends at
/// `position`, with its total score, which is positive.
pub proof fn lemma_best_before_is_candidate(nodes: Seq<LatticeNode>, position: int, n: int)
    ensures
        match best_before(nodes, position, n) {
            Some((best, total)) => {
                &&& 0 <= best < n <= nodes.len()
                &&& nodes[best].end == position
                &&& nodes[best].start < nodes[best].end
                &&& total_score(nodes, best) == Some(total)
                &&& total > 0
            },
            None => true,
        },
    decreases n,
{
    if n <= 0 || n > nodes.len() || position < 0 {
    } else {
        lemma_best_before_is_candidate(nodes, position, n - 1);
    }
}

/// Nodes that do not end at `position` leave the choice as it is.
proof fn lemma_best_before_skips(nodes: Seq<LatticeNode>, position: int, m: int, n: int)
    requires
        0 <= m <= n <= nodes.len(),
        0 <= position,
        forall|j: int| m <= j < n ==> (#[trigger] nodes[j]).end != position,
    ensures
        best_before(nodes, position, n) == best_before(nodes, position, m),
    decreases n - m,
{
    if m < n {
        lemma_best_before_skips(nodes, position, m, n - 1);
        assert(nodes[n - 1].end != position);
    }
}

/// A path that ends at `end` has at most `end` nodes, so its total is at most
/// `end` times the greatest score.
proof fn lemma_total_score_bound(nodes: Seq<LatticeNode>, j: int)
    ensures
        total_score(nodes, j) matches Some(total) ==> total <= nodes[j].end * u64::MAX,
    decreases nodes[j].end,
{
    if j < 0 || j >= nodes.len() || nodes[j].start >= nodes[j].end {
    } else if nodes[j].start == 0 {
    } else {
        let begin = nodes[j].start as int;
        lemma_best_before_is_candidate(nodes, begin, nodes.len() as int);
        match best_before(nodes, begin, nodes.len() as int) {
            Some((left, total)) => {
                lemma_total_score_bound(nodes, left);
            },
            None => {},
        }
    }
}

/// `indices` names a path through the lattice from position 0 to position
/// `target`: spans of the lattice, each starting where the one before it
/// ends.
pub open spec fn is_path(nodes: Seq<LatticeNode>, indices: Seq<int>, target: int) -> bool {
    &&& indices.len() > 0
    &&& forall|k: int|
        0 <= k < indices.len() ==> 0 <= (#[trigger] indices[k]) < nodes.len()
            && nodes[indices[k]].start < nodes[indices[k]].end
    &&& nodes[indices[0]].start == 0
    &&& forall|k: int|
        0 <= k < indices.len() - 1 ==> nodes[#[trigger] indices[k]].end
            == nodes[indices[k + 1]].start
    &&& nodes[indices.last()].end == target
}

/// The sum of the scores of the nodes that `indices` names.
pub open spec fn path_score(nodes: Seq<LatticeNode>, indices: Seq<int>) -> nat
    decreases indices.len(),
{
    if indices.len() == 0 {
        0
    } else {
        path_score(nodes, indices.drop_last()) + nodes[indices.last()].score as nat
    }
}

/// Among the first `n` nodes, no node that ends at `position` and is reached
/// with a positive total has a greater total than the one `best_before`
/// returns, and none with the same total was inserted before it.
pub proof fn lemma_best_before_is_greatest(
    nodes: Seq<LatticeNode>,
    position: int,
    n: int,
    j: int,
)
    requires
        0 <= j < n <= nodes.len(),
        0 <= position,
        nodes[j].end == position,
        total_score(nodes, j) matches Some(total) && total > 0,
    ensures
        best_before(nodes, position, n) matches Some((best, most)) && most >= total_score(
            nodes,
            j,
        ).unwrap() && (most == total_score(nodes, j).unwrap() ==> best <= j),
    decreases n,
{
    lemma_best_before_is_candidate(nodes, position, n - 1);
    if j < n - 1 {
        lemma_best_before_is_greatest(nodes, position, n - 1, j);
    }
}

/// The path that the search records to a reached node is a path to that
/// node's end, and its score is the node's total.
pub proof fn lemma_path_to_is_path(nodes: Seq<LatticeNode>, j: int)
    requires
        total_score(nodes, j) is Some,
    ensures
        is_path(nodes, path_to(nodes, j), nodes[j].end as int),
        path_to(nodes, j).last() == j,
        path_score(nodes, path_to(nodes, j)) == total_score(nodes, j).unwrap(),
    decreases nodes[j].end,
{
    if nodes[j].start == 0 {
        assert(path_to(nodes, j).drop_last() =~= Seq::<int>::empty());
        assert(path_score(nodes, Seq::<int>::empty()) == 0);
    } else {
        let begin = nodes[j].start as int;
        lemma_best_before_is_candidate(nodes, begin, nodes.len() as int);
        let (left, _) = best_before(nodes, begin, nodes.len() as int).unwrap();
        lemma_path_to_is_path(nodes, left);
        let before = path_to(nodes, left);
        let whole = path_to(nodes, j);
        assert(whole == before.push(j));
        assert(whole.drop_last() =~= before);
        assert(path_score(nodes, whole) == path_score(nodes, before) + nodes[j].score);
        assert forall|k: int| 0 <= k < whole.len() - 1 implies nodes[#[trigger] whole[k]].end
            == nodes[whole[k + 1]].start by {
            if k < before.len() - 1 {
                assert(whole[k] == before[k]);
                assert(whole[k + 1] == before[k + 1]);
            }
        }
    }
}

/// Where every score is positive, the node at the end of any path is reached,
/// with a total that is no less than the path's score.
pub proof fn lemma_total_score_dominates(nodes: Seq<LatticeNode>, indices: Seq<int>, target: int)
    requires
        is_path(nodes, indices, target),
        forall|j: int| 0 <= j < nodes.len() ==> (#[trigger] nodes[j]).score > 0,
    ensures
        total_score(nodes, indices.last()) matches Some(total) && total >= path_score(
            nodes,
            indices,
        ) && total > 0,
    decreases indices.len(),
{
    let last = indices.last();
    let before = indices.drop_last();
    assert(nodes[last].score > 0);
    if indices.len() == 1 {
        assert(before =~= Seq::<int>::empty());
        assert(path_score(nodes, before) == 0);
    } else {
        let left = before.last();
        assert(left == indices[indices.len() - 2]);
        assert(nodes[indices[indices.len() - 2]].end
            == nodes[indices[indices.len() - 2 + 1]].start);
        assert forall|k: int|
            0 <= k < before.len() implies 0 <= (#[trigger] before[k]) < nodes.len()
            && nodes[before[k]].start < nodes[before[k]].end by {
            assert(before[k] == indices[k]);
        }
        assert forall|k: int| 0 <= k < before.len() - 1 implies nodes[#[trigger] before[k]].end
            == nodes[before[k + 1]].start by {
            assert(before[k] == indices[k]);
            assert(before[k + 1] == indices[k + 1]);
        }
        assert(before[0] == indices[0]);
        lemma_total_score_dominates(nodes, before, nodes[left].end as int);
        lemma_best_before_is_greatest(
            nodes,
            nodes[last].start as int,
            nodes.len() as int,
            left,
        );
    }
}

/// The path that the search returns leads from position 0 to position
/// `length - 1` through spans that each start where the one before ends.
pub proof fn lemma_best_path_connects(nodes: Seq<LatticeNode>, length: nat)
    ensures
        best_path_indices(nodes, length).len() > 0 ==> is_path(
            nodes,
            best_path_indices(nodes, length),
            length - 1,
        ),
{
    if length > 0 {
        lemma_best_before_is_candidate(nodes, length - 1, nodes.len() as int);
        match best_before(nodes, length - 1, nodes.len() as int) {
            Some((last, _)) => {
                lemma_path_to_is_path(nodes, last);
            },
            None => {},
        }
    }
}

/// Where every score is positive, no path from position 0 to position
/// `length - 1` has a greater score than the one the search returns; and of
/// the paths of that score, none ends with a node inserted earlier.
pub proof fn lemma_best_path_is_optimal(nodes: Seq<LatticeNode>, length: nat, other: Seq<int>)
    requires
        forall|j: int| 0 <= j < nodes.len() ==> (#[trigger] nodes[j]).score > 0,
        is_path(nodes, other, length - 1),
    ensures
        best_path_indices(nodes, length).len() > 0,
        path_score(nodes, best_path_indices(nodes, length)) >= path_score(nodes, other),
        path_score(nodes, best_path_indices(nodes, length)) == path_score(nodes, other)
            ==> best_path_indices(nodes, length).last() <= other.last(),
{
    assert(nodes[other.last()].start < nodes[other.last()].end);
    lemma_total_score_dominates(nodes, other, length - 1);
    lemma_best_before_is_greatest(nodes, length - 1, nodes.len() as int, other.last());
    lemma_best_before_is_candidate(nodes, length - 1, nodes.len() as int);
    let (last, _) = best_before(nodes, length - 1, nodes.len() as int).unwrap();
    lemma_path_to_is_path(nodes, last);
}

/// `path` is a chain of non-empty spans from position 0 to position `target`,
/// each starting where the one before it ends; or it is empty.
pub open spec fn is_chain(path: Seq<LatticeNode>, target: int) -> bool {
    &&& path.len() > 0 ==> path[0].start == 0 && path.last().end == target
    &&& forall|k: int| 0 <= k < path.len() ==> (#[trigger] path[k]).start < path[k].end
    &&& forall|k: int| 0 <= k < path.len() - 1 ==> (#[trigger] path[k]).end == path[k + 1].start
}

/// The nodes of the best path are nodes of the lattice, and they form a chain
/// from position 0 to position `length - 1`.
pub proof fn lemma_best_path_is_chain(nodes: Seq<LatticeNode>, length: nat)
    ensures
        is_chain(best_path(nodes, length), length - 1),
        forall|k: int|
            0 <= k < best_path(nodes, length).len() ==> nodes.contains(
                #[trigger] best_path(nodes, length)[k],
            ),
{
    lemma_best_path_connects(nodes, length);
    let indices = best_path_indices(nodes, length);
    let path = best_path(nodes, length);
    assert forall|k: int| 0 <= k < path.len() implies nodes.contains(#[trigger] path[k]) by {
        assert(0 <= indices[k] < nodes.len());
        assert(nodes[indices[k]] == path[k]);
    }
    assert forall|k: int| 0 <= k < path.len() implies (#[trigger] path[k]).start < path[k].end by {
        assert(0 <= indices[k] < nodes.len());
    }
    assert forall|k: int| 0 <= k < path.len() - 1 implies (#[trigger] path[k]).end == path[k
        + 1].start by {
        assert(nodes[indices[k]].end == nodes[indices[k + 1]].start);
    }
}

/// Appending a node keeps a bucket in step with the nodes, once the node's
/// index is appended to the bucket of its position and to no other.
proof fn lemma_bucket_after_push(
    bucket: Seq<NodeId>,
    nodes: Seq<LatticeNode>,
    node: LatticeNode,
    at_end: bool,
    position: int,
)
    requires
        lists_nodes_at(bucket, nodes, at_end, position),
        nodes.len() <= usize::MAX,
    ensures
        position_of(node, at_end) == position ==> lists_nodes_at(
            bucket.push(nodes.len() as usize),
            nodes.push(node),
            at_end,
            position,
        ),
        position_of(node, at_end) != position ==> lists_nodes_at(
            bucket,
            nodes.push(node),
            at_end,
            position,
        ),
{
    let grown = nodes.push(node);
    let id = nodes.len() as usize;
    if position_of(node, at_end) == position {
        let longer = bucket.push(id);
        assert forall|j: int|
            0 <= j < grown.len() && position_of(#[trigger] grown[j], at_end) == position
            implies longer.contains(j as usize) by {
            if j < nodes.len() {
                assert(grown[j] == nodes[j]);
                let k = choose|k: int| 0 <= k < bucket.len() && bucket[k] == j as usize;
                assert(longer[k] == j as usize);
            } else {
                assert(longer[bucket.len() as int] == id);
            }
        }
    } else {
        assert forall|j: int|
            0 <= j < grown.len() && position_of(#[trigger] grown[j], at_end) == position
            implies bucket.contains(j as usize) by {
            assert(grown[j] == nodes[j]);
        }
    }
}

/// The first node index that a scan of `bucket` has not passed after `k`
/// entries.
spec fn frontier(bucket: Seq<NodeId>, k: int, n: int) -> int {
    if k < bucket.len() {
        bucket[k] as int
    } else {
        n
    }
}

/// No node between two neighbouring entries of a bucket belongs to it.
proof fn lemma_bucket_gap(
    bucket: Seq<NodeId>,
    nodes: Seq<LatticeNode>,
    at_end: bool,
    position: int,
    k: int,
)
    requires
        lists_nodes_at(bucket, nodes, at_end, position),
        nodes.len() <= usize::MAX,
        0 <= k <= bucket.len(),
    ensures
        0 <= frontier(bucket, k, nodes.len() as int) <= nodes.len(),
        k > 0 ==> bucket[k - 1] < frontier(bucket, k, nodes.len() as int),
        forall|j: int|
            (if k > 0 {
                bucket[k - 1] + 1
            } else {
                0
            }) <= j < frontier(bucket, k, nodes.len() as int) ==> position_of(
                #[trigger] nodes[j],
                at_end,
            ) != position,
{
    let n = nodes.len() as int;
    if 0 < k < bucket.len() {
        assert(bucket[k - 1] < bucket[k]);
    }
    assert forall|j: int|
        (if k > 0 {
            bucket[k - 1] + 1
        } else {
            0
        }) <= j < frontier(bucket, k, n) implies position_of(#[trigger] nodes[j], at_end)
        != position by {
        if position_of(nodes[j], at_end) == position {
            assert(bucket.contains(j as usize));
            let at = choose|at: int| 0 <= at < bucket.len() && bucket[at] == j as usize;
            if at < k {
                if at < k - 1 {
                    assert(bucket[at] < bucket[k - 1]);
                }
            } else if at > k {
                assert(bucket[k] < bucket[at]);
            }
        }
    }
}

/// `previous` and `total` are what the search is to hold for node `j` once it
/// has come to it.
spec fn recorded_as(nodes: Seq<LatticeNode>, j: int, previous: Previous, total: u128) -> bool {
    &&& previous == previous_of(nodes, j)
    &&& match total_score(nodes, j) {
        Some(best) => total == best,
        None => total == nodes[j].score,
    }
}

/// `previous` and `total` are what the search holds for node `j` before it
/// has come to it.
spec fn untouched_as(nodes: Seq<LatticeNode>, j: int, previous: Previous, total: u128) -> bool {
    previous is Unreached && total == nodes[j].score
}

/// The search has found what the specification chooses.
spec fn same_choice(found: Option<(NodeId, u128)>, best: Option<(int, nat)>) -> bool {
    match found {
        Some((node, total)) => best == Some((node as int, total as nat)),
        None => best is None,
    }
}

/// The nodes that the references of a path point to.
pub open spec fn nodes_of(path: Seq<&LatticeNode>) -> Seq<LatticeNode> {
    path.map_values(|node: &LatticeNode| *node)
}

/// The nodes of a path, with the indices of the path's nodes from its last
/// node back to its first.
pub struct NodePath<'a> {
    nodes: &'a [LatticeNode],
    node_path: Vec<NodeId>,
}

impl<'a> NodePath<'a> {
    /// Every index of the path names a node.
    pub closed spec fn well_formed(&self) -> bool {
        forall|k: int|
            0 <= k < self.node_path@.len() ==> (#[trigger] self.node_path@[k]) < self.nodes@.len()
    }

    /// The nodes of the path in text order.
    pub closed spec fn nodes_in_order(&self) -> Seq<LatticeNode> {
        Seq::new(
            self.node_path@.len(),
            |k: int| self.nodes@[self.node_path@[self.node_path@.len() - 1 - k] as int],
        )
    }

    /// The nodes of the path, from the first in the text to the last.
    pub fn path(&self) -> (path: Vec<&'a LatticeNode>)
        requires
            self.well_formed(),
        ensures
            nodes_of(path@) == self.nodes_in_order(),
    {
        let mut path: Vec<&'a LatticeNode> = Vec::new();
        let mut left: usize = self.node_path.len();
        while left > 0
            invariant
                self.well_formed(),
                left <= self.node_path@.len(),
                path@.len() == self.node_path@.len() - left,
                forall|k: int|
                    0 <= k < path@.len() ==> *(#[trigger] path@[k]) == self.nodes_in_order()[k],
            decreases left,
        {
            left -= 1;
            let node: &'a LatticeNode = &self.nodes[self.node_path[left]];
            path.push(node);
        }
        assert(nodes_of(path@) =~= self.nodes_in_order());
        path
    }
}

/// The candidate spans of a text, in the order in which they were laid, with
/// the lists of the spans that start and that end at each position.
#[derive(Clone)]
pub struct Lattice {
    length: usize,
    nodes: Vec<LatticeNode>,
    /// `start[p]` lists the nodes that start at `p`.
    start: Vec<Vec<NodeId>>,
    /// `end[p]` lists the nodes that end at `p + 1`; position 0 is the
    /// beginning of the text, where no node ends.
    end: Vec<Vec<NodeId>>,
}

impl View for Lattice {
    type V = LatticeView;

    closed spec fn view(&self) -> LatticeView {
        LatticeView { length: self.length as nat, nodes: self.nodes@ }
    }
}

impl Lattice {
    /// Every node is a non-empty span inside the text, and the lists of the
    /// positions name the nodes that start and that end there.
    pub closed spec fn well_formed(&self) -> bool {
        &&& self.start@.len() == self.length
        &&& self.end@.len() == self.length
        &&& spans_within(self.nodes@, self.length as nat)
        &&& forall|p: int|
            0 <= p < self.length ==> lists_nodes_at(
                (#[trigger] self.start@[p])@,
                self.nodes@,
                false,
                p,
            )
        &&& forall|p: int|
            0 <= p < self.length ==> lists_nodes_at(
                (#[trigger] self.end@[p])@,
                self.nodes@,
                true,
                p + 1,
            )
    }

    /// The nodes of a well-formed lattice are non-empty spans inside the
    /// text, and so are the nodes of its best path.
    pub proof fn lemma_path_within(&self)
        requires
            self.well_formed(),
        ensures
            spans_within(self@.nodes, self@.length),
            spans_within(best_path(self@.nodes, self@.length), self@.length),
    {
        lemma_best_path_connects(self@.nodes, self@.length);
    }

    /// An empty lattice over a text of `length` code points, with room for
    /// `node_count` nodes, as far as `RESERVE_LIMIT` allows.
    pub fn new(node_count: usize, length: usize) -> (lattice: Lattice)
        ensures
            lattice.well_formed(),
            lattice@.length == length,
            lattice@.nodes == Seq::<LatticeNode>::empty(),
    {
        let mut start: Vec<Vec<NodeId>> = Vec::new();
        let mut end: Vec<Vec<NodeId>> = Vec::new();
        let mut p: usize = 0;
        while p < length
            invariant
                p <= length,
                start@.len() == p,
                end@.len() == p,
                forall|q: int| 0 <= q < p ==> (#[trigger] start@[q])@.len() == 0,
                forall|q: int| 0 <= q < p ==> (#[trigger] end@[q])@.len() == 0,
            decreases length - p,
        {
            start.push(Vec::new());
            end.push(Vec::new());
            p += 1;
        }
        let reserved = if node_count > RESERVE_LIMIT {
            RESERVE_LIMIT
        } else {
            node_count
        };
        Lattice { length, nodes: Vec::with_capacity(reserved), start, end }
    }

    /// Appends `node`, which must be a non-empty span inside the text.
    pub fn add_node(&mut self, node: LatticeNode)
        requires
            old(self).well_formed(),
            node.start < node.end <= old(self)@.length,
        ensures
            final(self).well_formed(),
            final(self)@.length == old(self)@.length,
            final(self)@.nodes == old(self)@.nodes.push(node),
    {
        let node_id = self.nodes.len();
        self.start[node.start].push(node_id);
        self.end[node.end - 1].push(node_id);
        self.nodes.push(node);
        proof {
            let before = old(self).nodes@;
            let after = self.nodes@;
            assert forall|p: int| 0 <= p < self.length implies lists_nodes_at(
                (#[trigger] self.start@[p])@,
                after,
                false,
                p,
            ) by {
                lemma_bucket_after_push(old(self).start@[p]@, before, node, false, p);
            }
            assert forall|p: int| 0 <= p < self.length implies lists_nodes_at(
                (#[trigger] self.end@[p])@,
                after,
                true,
                p + 1,
            ) by {
                lemma_bucket_after_push(old(self).end@[p]@, before, node, true, p + 1);
            }
        }
    }

    /// The best node to come from for a span that starts at `position`.
    fn best_ending_at(
        &self,
        position: usize,
        previous: &Vec<Previous>,
        totals: &Vec<u128>,
    ) -> (best: Option<(NodeId, u128)>)
        requires
            self.well_formed(),
            position <= self.length,
            previous@.len() == self.nodes@.len(),
            totals@.len() == self.nodes@.len(),
            forall|j: int|
                0 <= j < self.nodes@.len() && self.nodes@[j].end == position ==> recorded_as(
                    self.nodes@,
                    j,
                    #[trigger] previous@[j],
                    totals@[j],
                ),
        ensures
            same_choice(best, best_before(self.nodes@, position as int, self.nodes@.len() as int)),
    {
        let ghost nodes = self.nodes@;
        let count = self.nodes.len();
        let ghost n = count as int;
        if position == 0 {
            // Only the beginning of the text stands at position 0.
            proof {
                lemma_best_before_skips(nodes, 0, 0, n);
            }
            return None;
        }
        let bucket = &self.end[position - 1];
        let mut best: Option<(NodeId, u128)> = None;
        let mut k: usize = 0;
        proof {
            lemma_bucket_gap(bucket@, nodes, true, position as int, 0);
            lemma_best_before_skips(nodes, position as int, 0, frontier(bucket@, 0, n));
        }
        while k < bucket.len()
            invariant
                k <= bucket@.len(),
                n == nodes.len(),
                n <= usize::MAX,
                nodes == self.nodes@,
                previous@.len() == n,
                totals@.len() == n,
                1 <= position,
                lists_nodes_at(bucket@, nodes, true, position as int),
                forall|j: int|
                    0 <= j < n && nodes[j].end == position ==> recorded_as(
                        nodes,
                        j,
                        #[trigger] previous@[j],
                        totals@[j],
                    ),
                0 <= frontier(bucket@, k as int, n) <= n,
                same_choice(
                    best,
                    best_before(nodes, position as int, frontier(bucket@, k as int, n)),
                ),
            decreases bucket@.len() - k,
        {
            let left = bucket[k];
            assert(position_of(nodes[bucket@[k as int] as int], true) == position);
            assert(recorded_as(nodes, left as int, previous@[left as int], totals@[left as int]));
            match previous[left] {
                Previous::Unreached => {},
                _ => {
                    let total = totals[left];
                    let bound = match best {
                        Some((_, most)) => most,
                        None => 0,
                    };
                    if total > bound {
                        best = Some((left, total));
                    }
                },
            }
            assert(same_choice(best, best_before(nodes, position as int, left + 1)));
            k += 1;
            proof {
                lemma_bucket_gap(bucket@, nodes, true, position as int, k as int);
                lemma_best_before_skips(
                    nodes,
                    position as int,
                    left + 1,
                    frontier(bucket@, k as int, n),
                );
            }
        }
        best
    }

    /// Runs the search over all positions: the predecessor and the total
    /// score of every node.
    fn propagate(&self) -> (links: (Vec<Previous>, Vec<u128>))
        requires
            self.well_formed(),
            self.length >= 1,
        ensures
            links.0@.len() == self.nodes@.len(),
            links.1@.len() == self.nodes@.len(),
            forall|j: int|
                0 <= j < self.nodes@.len() ==> recorded_as(
                    self.nodes@,
                    j,
                    #[trigger] links.0@[j],
                    links.1@[j],
                ),
    {
        let ghost nodes = self.nodes@;
        let count = self.nodes.len();
        let mut previous: Vec<Previous> = Vec::new();
        let mut totals: Vec<u128> = Vec::new();
        let mut i: usize = 0;
        while i < count
            invariant
                i <= count,
                count == nodes.len(),
                nodes == self.nodes@,
                previous@.len() == i,
                totals@.len() == i,
                forall|j: int|
                    0 <= j < i ==> untouched_as(nodes, j, #[trigger] previous@[j], totals@[j]),
            decreases count - i,
        {
            previous.push(Previous::Unreached);
            totals.push(self.nodes[i].score as u128);
            i += 1;
        }
        let mut position: usize = 0;
        while position < self.length
            invariant
                position <= self.length,
                self.well_formed(),
                count == nodes.len(),
                nodes == self.nodes@,
                previous@.len() == count,
                totals@.len() == count,
                forall|j: int|
                    0 <= j < count && nodes[j].start < position ==> recorded_as(
                        nodes,
                        j,
                        #[trigger] previous@[j],
                        totals@[j],
                    ),
                forall|j: int|
                    0 <= j < count && nodes[j].start >= position ==> untouched_as(
                        nodes,
                        j,
                        #[trigger] previous@[j],
                        totals@[j],
                    ),
            decreases self.length - position,
        {
            let starting = &self.start[position];
            let mut k: usize = 0;
            proof {
                lemma_bucket_gap(starting@, nodes, false, position as int, 0);
            }
            while k < starting.len()
                invariant
                    k <= starting@.len(),
                    position < self.length,
                    self.well_formed(),
                    count == nodes.len(),
                    nodes == self.nodes@,
                    previous@.len() == count,
                    totals@.len() == count,
                    lists_nodes_at(starting@, nodes, false, position as int),
                    0 <= frontier(starting@, k as int, count as int) <= count,
                    forall|j: int|
                        0 <= j < count && (nodes[j].start < position || (nodes[j].start == position
                            && j < frontier(starting@, k as int, count as int))) ==> recorded_as(
                            nodes,
                            j,
                            #[trigger] previous@[j],
                            totals@[j],
                        ),
                    forall|j: int|
                        0 <= j < count && (nodes[j].start > position || (nodes[j].start == position
                            && j >= frontier(starting@, k as int, count as int))) ==> untouched_as(
                            nodes,
                            j,
                            #[trigger] previous@[j],
                            totals@[j],
                        ),
                decreases starting@.len() - k,
            {
                let right = starting[k];
                assert(position_of(nodes[starting@[k as int] as int], false) == position);
                assert(untouched_as(
                    nodes,
                    right as int,
                    previous@[right as int],
                    totals@[right as int],
                ));
                if position == 0 {
                    previous.set(right, Previous::Begin);
                } else {
                    let best = self.best_ending_at(position, &previous, &totals);
                    match best {
                        Some((left, total)) => {
                            proof {
                                lemma_best_before_is_candidate(
                                    nodes,
                                    position as int,
                                    count as int,
                                );
                                lemma_total_score_bound(nodes, left as int);
                                assert(total <= position * u64::MAX);
                            }
                            previous.set(right, Previous::Node(left));
                            let sum = totals[right] + total;
                            totals.set(right, sum);
                        },
                        None => {},
                    }
                }
                assert(recorded_as(
                    nodes,
                    right as int,
                    previous@[right as int],
                    totals@[right as int],
                ));
                k += 1;
                proof {
                    lemma_bucket_gap(starting@, nodes, false, position as int, k as int);
                }
            }
            position += 1;
        }
        (previous, totals)
    }

    /// Walks back from `last` to the beginning of the text.
    fn trace_back<'a>(&'a self, last: NodeId, previous: &Vec<Previous>) -> (found: NodePath<'a>)
        requires
            self.well_formed(),
            last < self.nodes@.len(),
            total_score(self.nodes@, last as int) is Some,
            previous@.len() == self.nodes@.len(),
            forall|j: int|
                0 <= j < self.nodes@.len() ==> (#[trigger] previous@[j]) == previous_of(
                    self.nodes@,
                    j,
                ),
        ensures
            found.well_formed(),
            found.nodes_in_order() == path_to(self.nodes@, last as int).map_values(
                |j: int| self.nodes@[j],
            ),
    {
        let ghost nodes = self.nodes@;
        let count = self.nodes.len();
        let mut node_path: Vec<NodeId> = Vec::new();
        let mut current = last;
        loop
            invariant
                self.well_formed(),
                nodes == self.nodes@,
                count == nodes.len(),
                current < nodes.len(),
                total_score(nodes, current as int) is Some,
                previous@.len() == nodes.len(),
                forall|j: int|
                    0 <= j < nodes.len() ==> (#[trigger] previous@[j]) == previous_of(nodes, j),
                forall|k: int|
                    0 <= k < node_path@.len() ==> (#[trigger] node_path@[k]) < nodes.len(),
                path_to(nodes, last as int) == path_to(nodes, current as int) + Seq::new(
                    node_path@.len(),
                    |k: int| node_path@[node_path@.len() - 1 - k] as int,
                ),
            ensures
                previous@[current as int] is Begin,
            decreases nodes[current as int].end,
        {
            assert(previous@[current as int] == previous_of(nodes, current as int));
            match previous[current] {
                Previous::Node(left) => {
                    let ghost begin = nodes[current as int].start as int;
                    let ghost walked = Seq::new(
                        node_path@.len(),
                        |k: int| node_path@[node_path@.len() - 1 - k] as int,
                    );
                    proof {
                        lemma_best_before_is_candidate(nodes, begin, nodes.len() as int);
                        assert(best_before(nodes, begin, nodes.len() as int) is Some);
                        let (chosen, _) = best_before(nodes, begin, nodes.len() as int).unwrap();
                        assert(left == chosen);
                        assert(path_to(nodes, current as int) == path_to(nodes, chosen).push(
                            current as int,
                        ));
                    }
                    node_path.push(current);
                    proof {
                        let longer = Seq::new(
                            node_path@.len(),
                            |k: int| node_path@[node_path@.len() - 1 - k] as int,
                        );
                        assert(longer =~= seq![current as int] + walked);
                        assert(path_to(nodes, left as int).push(current as int) + walked
                            =~= path_to(nodes, left as int) + longer);
                    }
                    current = left;
                },
                Previous::Begin => {
                    break ;
                },
                Previous::Unreached => {
                    assert(false);
                    break ;
                },
            }
        }
        let ghost walked = Seq::new(
            node_path@.len(),
            |k: int| node_path@[node_path@.len() - 1 - k] as int,
        );
        node_path.push(current);
        let found = NodePath { nodes: self.nodes.as_slice(), node_path };
        proof {
            let longer = Seq::new(
                node_path@.len(),
                |k: int| node_path@[node_path@.len() - 1 - k] as int,
            );
            assert(longer =~= seq![current as int] + walked);
            assert(path_to(nodes, current as int) == seq![current as int]);
            assert(path_to(nodes, last as int) =~= longer);
            assert(found.nodes_in_order() =~= longer.map_values(|j: int| nodes[j]));
        }
        found
    }

    /// The path of greatest score from position 0 to position `length - 1`;
    /// `None` where no path connects the two.
    pub fn find_node_path(&self) -> (found: Option<NodePath<'_>>)
        requires
            self.well_formed(),
        ensures
            match found {
                Some(found) => found.well_formed() && found.nodes_in_order() == best_path(
                    self@.nodes,
                    self@.length,
                ) && best_path(self@.nodes, self@.length).len() > 0,
                None => best_path(self@.nodes, self@.length).len() == 0,
            },
    {
        if self.length == 0 || self.nodes.len() == 0 {
            return None;
        }
        let (previous, totals) = self.propagate();
        let last = self.best_ending_at(self.length - 1, &previous, &totals);
        match last {
            Some((last, _)) => {
                proof {
                    lemma_best_before_is_candidate(
                        self.nodes@,
                        self.length - 1,
                        self.nodes@.len() as int,
                    );
                    lemma_path_to_is_path(self.nodes@, last as int);
                }
                Some(self.trace_back(last, &previous))
            },
            None => None,
        }
    }

    /// The path of greatest score from position 0 to position `length - 1`,
    /// as its nodes in text order; empty where no path connects the two.
    pub fn find_path(&self) -> (path: Vec<&LatticeNode>)
        requires
            self.well_formed(),
        ensures
            nodes_of(path@) == best_path(self@.nodes, self@.length),
    {
        match self.find_node_path() {
            Some(found) => found.path(),
            None => {
                let path: Vec<&LatticeNode> = Vec::new();
                assert(nodes_of(path@) =~= best_path(self@.nodes, self@.length));
                path
            },
        }
    }
}

} // verus!

//! The order in which the nodes of a snapshot are tried, as a mathematical
//! object, and what holds of it.
//!
//! The candidates are listed once: first the replicas, in the order of the
//! replica set, then every node, in the order of the snapshot. Either list
//! may be rotated. A node that is down is left out, and so is a replica where
//! it comes up again among the nodes. What is left is tried rank by rank, and
//! within a rank in the order of the list.

use crate::latency::{LatencyAwareness, LatencyStat};
use crate::replication::walk_position;
use crate::routing::NodeRef;
use crate::topology::Node;
use vstd::prelude::*;

verus! {

/// The number of ranks: eight tiers, each with its healthy nodes before the
/// others.
pub const RANKS: u8 = 16;

/// Everything that the order of the candidates depends on.
pub struct Ranking {
    pub nodes: Seq<Node>,
    pub replicas: Seq<NodeRef>,
    /// Where the list of replicas starts.
    pub replica_shift: int,
    /// Where the list of nodes starts.
    pub node_shift: int,
    /// Set for a fixed order: health is then not looked at.
    pub fixed: bool,
    pub datacenter: Option<Seq<char>>,
    pub rack: Option<Seq<char>>,
    pub awareness: Option<LatencyAwareness>,
    pub stats: Map<u128, LatencyStat>,
    pub now: u64,
    /// A node that has been tried and is not to be tried again.
    pub tried: Option<NodeRef>,
}

/// Whether `first` stands before `second` in `order`.
pub open spec fn precedes(order: Seq<NodeRef>, first: NodeRef, second: NodeRef) -> bool {
    exists|a: int, b: int| 0 <= a < b < order.len() && order[a] == first && order[b] == second
}

/// Whether a node is another one than `tried`.
pub open spec fn is_not(tried: NodeRef) -> spec_fn(NodeRef) -> bool {
    |node: NodeRef| node != tried
}

impl Ranking {
    pub open spec fn is_valid(&self) -> bool {
        &&& self.nodes.len() <= usize::MAX
        &&& self.replicas.no_duplicates()
        &&& forall|k: int|
            0 <= k < self.replicas.len() ==> (#[trigger] self.replicas[k]).index < self.nodes.len()
        &&& 0 <= self.replica_shift
        &&& self.replica_shift < self.replicas.len() || self.replica_shift == 0
        &&& 0 <= self.node_shift
        &&& self.node_shift < self.nodes.len() || self.node_shift == 0
    }

    /// The length of the list of candidates.
    pub open spec fn entry_count(&self) -> int {
        (self.replicas.len() + self.nodes.len()) as int
    }

    /// The node at place `j` of the list of candidates.
    pub open spec fn entry_node(&self, j: int) -> NodeRef {
        if j < self.replicas.len() {
            self.replicas[walk_position(self.replicas.len() as int, self.replica_shift, j)]
        } else {
            NodeRef {
                index: walk_position(
                    self.nodes.len() as int,
                    self.node_shift,
                    j - self.replicas.len(),
                ) as usize,
            }
        }
    }

    /// Whether place `j` of the list stands for its node: the node is up,
    /// and where it is a replica, the place is among the replicas.
    pub open spec fn stands(&self, j: int) -> bool {
        let node = self.entry_node(j);
        &&& 0 <= j < self.entry_count()
        &&& node.index < self.nodes.len()
        &&& self.nodes[node.index as int].is_up
        &&& j >= self.replicas.len() ==> !self.replicas.contains(node)
    }

    /// Whether the node at place `j` of the list is to be tried: the place
    /// stands for it, and it has not been tried.
    pub open spec fn includes(&self, j: int) -> bool {
        self.stands(j) && self.tried != Some(self.entry_node(j))
    }

    /// Whether `node` is a node of the snapshot that is up and has not been
    /// tried.
    pub open spec fn is_candidate(&self, node: NodeRef) -> bool {
        node.index < self.nodes.len() && self.nodes[node.index as int].is_up && self.tried
            != Some(node)
    }

    pub open spec fn is_replica(&self, node: NodeRef) -> bool {
        self.replicas.contains(node)
    }

    /// Whether `node` stands in the preferred datacenter; every node does
    /// where none is preferred.
    pub open spec fn is_local(&self, node: NodeRef) -> bool {
        match self.datacenter {
            Some(dc) => self.nodes[node.index as int].in_datacenter(dc),
            None => true,
        }
    }

    /// Whether `node` stands in the preferred rack of the preferred
    /// datacenter; every node does where no rack is preferred, or no
    /// datacenter.
    pub open spec fn is_rack_local(&self, node: NodeRef) -> bool {
        match (self.datacenter, self.rack) {
            (Some(dc), Some(rack)) => self.nodes[node.index as int].in_datacenter(dc)
                && self.nodes[node.index as int].in_rack(rack),
            _ => true,
        }
    }

    /// The tier of `node`, from 0 to 7: replicas before the others, among
    /// them the local datacenter before the others, and there the local rack
    /// first.
    pub open spec fn tier(&self, node: NodeRef) -> int {
        (if self.is_replica(node) {
            0int
        } else {
            4int
        }) + (if self.is_local(node) {
            0int
        } else {
            2int
        }) + (if self.is_rack_local(node) {
            0int
        } else {
            1int
        })
    }

    /// The average of `node`, where it says something.
    pub open spec fn reliable_average(&self, node: NodeRef) -> Option<u64> {
        let host = self.nodes[node.index as int].host_id;
        match self.awareness {
            Some(a) => if self.stats.contains_key(host) && a.is_reliable(self.stats[host], self.now) {
                Some(self.stats[host].average)
            } else {
                None
            },
            None => None,
        }
    }

    /// The lowest reliable average among the nodes of `tier` that are up, at
    /// the places below `upto`. A node that has been tried counts here like
    /// any other.
    pub open spec fn floor_upto(&self, tier: int, upto: int) -> Option<u64>
        decreases upto,
    {
        if upto <= 0 {
            None
        } else {
            let rest = self.floor_upto(tier, upto - 1);
            let node = self.entry_node(upto - 1);
            if self.stands(upto - 1) && self.tier(node) == tier {
                match (rest, self.reliable_average(node)) {
                    (Some(r), Some(a)) => Some(
                        if a < r {
                            a
                        } else {
                            r
                        },
                    ),
                    (None, Some(a)) => Some(a),
                    (_, None) => rest,
                }
            } else {
                rest
            }
        }
    }

    /// The lowest reliable average of `tier`.
    pub open spec fn floor(&self, tier: int) -> Option<u64> {
        self.floor_upto(tier, self.entry_count())
    }

    /// Whether `node` goes behind the healthy nodes of its tier.
    pub open spec fn is_behind(&self, node: NodeRef) -> bool {
        let host = self.nodes[node.index as int].host_id;
        !self.fixed && match self.awareness {
            Some(a) => self.stats.contains_key(host) && a.is_deprioritized(
                self.stats[host],
                self.floor(self.tier(node)),
                self.now,
            ),
            None => false,
        }
    }

    /// The rank of `node`, from 0 to 15: tier by tier, the healthy first.
    pub open spec fn rank(&self, node: NodeRef) -> int {
        2 * self.tier(node) + (if self.is_behind(node) {
            1int
        } else {
            0int
        })
    }

    /// What is tried from rank `stage` and place `from` on.
    pub open spec fn rest(&self, stage: int, from: int) -> Seq<NodeRef>
        decreases RANKS - stage, self.entry_count() - from,
    {
        if stage >= RANKS || stage < 0 || from < 0 {
            Seq::empty()
        } else if from >= self.entry_count() {
            self.rest(stage + 1, 0)
        } else if self.includes(from) && self.rank(self.entry_node(from)) == stage {
            seq![self.entry_node(from)] + self.rest(stage, from + 1)
        } else {
            self.rest(stage, from + 1)
        }
    }

    /// The whole order.
    pub open spec fn plan(&self) -> Seq<NodeRef> {
        self.rest(0, 0)
    }

    /// Whether `node` is still to come at rank `stage` and place `from`.
    pub open spec fn follows(&self, node: NodeRef, stage: int, from: int) -> bool {
        exists|j: int|
            0 <= j < self.entry_count() && self.includes(j) && #[trigger] self.entry_node(j) == node
                && (self.rank(node) > stage || (self.rank(node) == stage && j >= from))
    }

    /// No node is listed at two places that stand for it.
    pub proof fn lemma_entries_differ(&self, i: int, j: int)
        requires
            self.is_valid(),
            self.includes(i),
            self.includes(j),
            self.entry_node(i) == self.entry_node(j),
        ensures
            i == j,
    {
        let r = self.replicas.len() as int;
        let n = self.nodes.len() as int;
        if i < r && j < r {
            let pi = walk_position(r, self.replica_shift, i);
            let pj = walk_position(r, self.replica_shift, j);
            assert(self.replicas[pi] == self.replicas[pj]);
        } else if i >= r && j >= r {
            let pi = walk_position(n, self.node_shift, i - r);
            let pj = walk_position(n, self.node_shift, j - r);
            assert(pi as usize == pj as usize);
        } else if i < r {
            let pi = walk_position(r, self.replica_shift, i);
            assert(self.replicas[pi] == self.entry_node(j));
        } else {
            let pj = walk_position(r, self.replica_shift, j);
            assert(self.replicas[pj] == self.entry_node(i));
        }
    }

    /// Every candidate is listed at a place that stands for it.
    pub proof fn lemma_candidates_are_listed(&self, node: NodeRef)
        requires
            self.is_valid(),
            self.is_candidate(node),
        ensures
            exists|j: int|
                0 <= j < self.entry_count() && self.includes(j) && #[trigger] self.entry_node(j)
                    == node,
    {
        let r = self.replicas.len() as int;
        let n = self.nodes.len() as int;
        if self.replicas.contains(node) {
            let t = choose|t: int| 0 <= t < r && self.replicas[t] == node;
            let j = if t >= self.replica_shift {
                t - self.replica_shift
            } else {
                t - self.replica_shift + r
            };
            assert(walk_position(r, self.replica_shift, j) == t);
            assert(self.includes(j) && self.entry_node(j) == node);
        } else {
            let t = node.index as int;
            let k = if t >= self.node_shift {
                t - self.node_shift
            } else {
                t - self.node_shift + n
            };
            assert(walk_position(n, self.node_shift, k) == t);
            assert(self.entry_node(r + k) == node);
            assert(self.includes(r + k));
        }
    }

    /// What `rest` holds: every node that is still to come, once, rank by
    /// rank.
    pub proof fn lemma_rest(&self, stage: int, from: int)
        requires
            self.is_valid(),
            0 <= stage <= RANKS,
            0 <= from <= self.entry_count(),
        ensures
            self.rest(stage, from).no_duplicates(),
            forall|node: NodeRef| #[trigger]
                self.rest(stage, from).contains(node) <==> self.follows(node, stage, from),
            forall|a: int, b: int|
                0 <= a < b < self.rest(stage, from).len() ==> self.rank(self.rest(stage, from)[a])
                    <= self.rank(self.rest(stage, from)[b]),
            forall|a: int|
                0 <= a < self.rest(stage, from).len() ==> self.rank(
                    #[trigger] self.rest(stage, from)[a],
                ) >= stage,
        decreases RANKS - stage, self.entry_count() - from,
    {
        let whole = self.rest(stage, from);
        if stage >= RANKS {
            assert forall|node: NodeRef| #[trigger] whole.contains(node) <==> self.follows(
                node,
                stage,
                from,
            ) by {
                assert(self.rank(node) < RANKS);
            }
        } else if from >= self.entry_count() {
            self.lemma_rest(stage + 1, 0);
            assert forall|node: NodeRef| #[trigger] whole.contains(node) <==> self.follows(
                node,
                stage,
                from,
            ) by {
                assert(self.follows(node, stage + 1, 0) <==> self.follows(node, stage, from));
            }
        } else {
            self.lemma_rest(stage, from + 1);
            let tail = self.rest(stage, from + 1);
            let head = self.entry_node(from);
            if self.includes(from) && self.rank(head) == stage {
                assert(whole == seq![head] + tail);
                assert(whole[0] == head);
                assert forall|k: int| 0 <= k < tail.len() implies whole[k + 1] == tail[k] by {}
                if tail.contains(head) {
                    let j = choose|j: int|
                        0 <= j < self.entry_count() && self.includes(j) && #[trigger] self.entry_node(
                            j,
                        ) == head && (self.rank(head) > stage || (self.rank(head) == stage && j
                            >= from + 1));
                    self.lemma_entries_differ(j, from);
                }
                assert forall|node: NodeRef| #[trigger] whole.contains(node) <==> self.follows(
                    node,
                    stage,
                    from,
                ) by {
                    if whole.contains(node) {
                        let k = choose|k: int| 0 <= k < whole.len() && whole[k] == node;
                        if k > 0 {
                            assert(tail[k - 1] == node);
                            assert(tail.contains(node));
                            assert(self.follows(node, stage, from + 1));
                        }
                        assert(self.follows(node, stage, from));
                    }
                    if self.follows(node, stage, from) {
                        let j = choose|j: int|
                            0 <= j < self.entry_count() && self.includes(j)
                                && #[trigger] self.entry_node(j) == node && (self.rank(node) > stage
                                || (self.rank(node) == stage && j >= from));
                        if j == from {
                            assert(whole[0] == node);
                        } else {
                            assert(self.follows(node, stage, from + 1));
                            assert(tail.contains(node));
                            let k = choose|k: int| 0 <= k < tail.len() && tail[k] == node;
                            assert(whole[k + 1] == node);
                        }
                        assert(whole.contains(node));
                    }
                }
                assert forall|a: int, b: int| 0 <= a < b < whole.len() implies whole[a]
                    != whole[b] by {
                    if a == 0 {
                        assert(tail[b - 1] == whole[b]);
                    } else {
                        assert(tail[a - 1] == whole[a]);
                        assert(tail[b - 1] == whole[b]);
                    }
                }
                assert forall|a: int, b: int| 0 <= a < b < whole.len() implies self.rank(whole[a])
                    <= self.rank(whole[b]) by {
                    assert(tail[b - 1] == whole[b]);
                    if a > 0 {
                        assert(tail[a - 1] == whole[a]);
                    }
                }
                assert forall|a: int| 0 <= a < whole.len() implies self.rank(#[trigger] whole[a])
                    >= stage by {
                    if a > 0 {
                        assert(tail[a - 1] == whole[a]);
                    }
                }
            } else {
                assert(whole == tail);
                assert forall|node: NodeRef| #[trigger] whole.contains(node) <==> self.follows(
                    node,
                    stage,
                    from,
                ) by {
                    if self.follows(node, stage, from) {
                        let j = choose|j: int|
                            0 <= j < self.entry_count() && self.includes(j)
                                && #[trigger] self.entry_node(j) == node && (self.rank(node) > stage
                                || (self.rank(node) == stage && j >= from));
                        assert(j != from || self.rank(node) > stage);
                        assert(self.follows(node, stage, from + 1));
                    }
                    if self.follows(node, stage, from + 1) {
                        assert(self.follows(node, stage, from));
                    }
                }
            }
        }
    }

    /// The order holds every node that is up and has not been tried, once,
    /// and no other.
    pub proof fn lemma_plan_members(&self)
        requires
            self.is_valid(),
        ensures
            self.plan().no_duplicates(),
            forall|node: NodeRef| #[trigger]
                self.plan().contains(node) <==> self.is_candidate(node),
    {
        self.lemma_rest(0, 0);
        assert forall|node: NodeRef| #[trigger] self.plan().contains(node) <==> self.is_candidate(
            node,
        ) by {
            if self.is_candidate(node) {
                self.lemma_candidates_are_listed(node);
                assert(self.follows(node, 0, 0));
            }
        }
    }

    /// The order goes rank by rank.
    pub proof fn lemma_plan_is_ranked(&self)
        requires
            self.is_valid(),
        ensures
            forall|a: int, b: int|
                0 <= a < b < self.plan().len() ==> self.rank(self.plan()[a]) <= self.rank(
                    self.plan()[b],
                ),
    {
        self.lemma_rest(0, 0);
    }

    /// Within one rank the order is that of the list.
    pub proof fn lemma_rest_keeps_the_list_order(&self, stage: int, from: int, i: int, j: int)
        requires
            self.is_valid(),
            0 <= stage <= RANKS,
            0 <= from <= self.entry_count(),
            0 <= i < j < self.entry_count(),
            self.includes(i),
            self.includes(j),
            self.rank(self.entry_node(i)) == self.rank(self.entry_node(j)),
            self.rank(self.entry_node(i)) > stage || (self.rank(self.entry_node(i)) == stage && i
                >= from),
        ensures
            precedes(self.rest(stage, from), self.entry_node(i), self.entry_node(j)),
        decreases RANKS - stage, self.entry_count() - from,
    {
        let whole = self.rest(stage, from);
        let first = self.entry_node(i);
        let second = self.entry_node(j);
        if stage >= RANKS {
            assert(self.rank(first) < RANKS);
        } else if from >= self.entry_count() {
            self.lemma_rest_keeps_the_list_order(stage + 1, 0, i, j);
        } else {
            let head = self.entry_node(from);
            let tail = self.rest(stage, from + 1);
            if self.includes(from) && self.rank(head) == stage {
                assert(whole == seq![head] + tail);
                assert forall|k: int| 0 <= k < tail.len() implies whole[k + 1] == tail[k] by {}
                if i == from {
                    self.lemma_rest(stage, from + 1);
                    assert(self.follows(second, stage, from + 1));
                    assert(tail.contains(second));
                    let b = choose|b: int| 0 <= b < tail.len() && tail[b] == second;
                    assert(whole[0] == first && whole[b + 1] == second);
                } else {
                    self.lemma_rest_keeps_the_list_order(stage, from + 1, i, j);
                    let (a, b) = choose|a: int, b: int|
                        0 <= a < b < tail.len() && tail[a] == first && tail[b] == second;
                    assert(whole[a + 1] == first && whole[b + 1] == second);
                }
            } else {
                self.lemma_rest_keeps_the_list_order(stage, from + 1, i, j);
            }
        }
    }

    /// Whether `node` is the one that its list starts with: the list of
    /// replicas for a replica, the list of nodes for another.
    pub open spec fn starts_its_list(&self, node: NodeRef) -> bool {
        if self.is_replica(node) {
            self.replicas[self.replica_shift] == node
        } else {
            self.node_shift == node.index
        }
    }

    /// The node that its list starts with is tried before every other node
    /// whose rank is not better than its own.
    pub proof fn lemma_start_of_a_list_comes_first(&self, first: NodeRef, second: NodeRef)
        requires
            self.is_valid(),
            self.is_candidate(first),
            self.is_candidate(second),
            first != second,
            self.starts_its_list(first),
            self.rank(first) <= self.rank(second),
        ensures
            precedes(self.plan(), first, second),
    {
        let plan = self.plan();
        let r = self.replicas.len() as int;
        self.lemma_plan_members();
        self.lemma_plan_is_ranked();
        if self.rank(first) < self.rank(second) {
            assert(plan.contains(first) && plan.contains(second));
            let a = choose|a: int| 0 <= a < plan.len() && plan[a] == first;
            let b = choose|b: int| 0 <= b < plan.len() && plan[b] == second;
            if b < a {
                assert(self.rank(plan[b]) <= self.rank(plan[a]));
            }
            assert(a < b);
        } else {
            self.lemma_candidates_are_listed(second);
            let j = choose|j: int|
                0 <= j < self.entry_count() && self.includes(j) && #[trigger] self.entry_node(j)
                    == second;
            assert(self.tier(first) == self.tier(second));
            assert(self.is_replica(first) == self.is_replica(second));
            if self.is_replica(first) {
                assert(r > 0);
                assert(walk_position(r, self.replica_shift, 0) == self.replica_shift);
                assert(self.entry_node(0) == first);
                if j >= r {
                    assert(!self.replicas.contains(second));
                }
                assert(self.includes(0));
                self.lemma_rest_keeps_the_list_order(0, 0, 0, j);
            } else {
                assert(walk_position(self.nodes.len() as int, self.node_shift, 0)
                    == self.node_shift);
                assert(self.entry_node(r) == first);
                if j < r {
                    let p = walk_position(r, self.replica_shift, j);
                    assert(self.replicas[p] == second);
                }
                assert(self.includes(r));
                self.lemma_rest_keeps_the_list_order(0, 0, r, j);
            }
        }
    }

    /// Leaving out a node that has been tried takes that node out of the
    /// order and changes nothing else.
    pub proof fn lemma_tried_is_left_out(&self, tried: NodeRef, stage: int, from: int)
        requires
            self.tried is None,
        ensures
            self.without(tried).rest(stage, from) == self.rest(stage, from).filter(is_not(tried)),
        decreases RANKS - stage, self.entry_count() - from,
    {
        let other = self.without(tried);
        let keep = is_not(tried);
        if stage >= RANKS || stage < 0 || from < 0 {
            reveal(Seq::filter);
            assert(Seq::<NodeRef>::empty().filter(keep) == Seq::<NodeRef>::empty());
        } else if from >= self.entry_count() {
            self.lemma_tried_is_left_out(tried, stage + 1, 0);
        } else {
            self.lemma_tried_is_left_out(tried, stage, from + 1);
            let node = self.entry_node(from);
            let tail = self.rest(stage, from + 1);
            assert(other.entry_node(from) == node);
            assert(self.stands(from) == other.stands(from));
            self.lemma_same_floor(other, self.tier(node), self.entry_count());
            assert(self.rank(node) == other.rank(node));
            if self.includes(from) && self.rank(node) == stage {
                tail.lemma_filter_prepend(node, keep);
                if node == tried {
                    assert(Seq::<NodeRef>::empty() + tail.filter(keep) =~= tail.filter(keep));
                }
            }
        }
    }

    /// The same ranking, with `tried` left out.
    pub open spec fn without(&self, tried: NodeRef) -> Ranking {
        Ranking { tried: Some(tried), ..*self }
    }

    /// The lowest reliable average of a tier does not depend on which node
    /// has been tried.
    pub proof fn lemma_same_floor(&self, other: Ranking, tier: int, upto: int)
        requires
            self.nodes == other.nodes,
            self.replicas == other.replicas,
            self.replica_shift == other.replica_shift,
            self.node_shift == other.node_shift,
            self.datacenter == other.datacenter,
            self.rack == other.rack,
            self.awareness == other.awareness,
            self.stats == other.stats,
            self.now == other.now,
        ensures
            self.floor_upto(tier, upto) == other.floor_upto(tier, upto),
        decreases upto,
    {
        if upto > 0 {
            self.lemma_same_floor(other, tier, upto - 1);
            let node = self.entry_node(upto - 1);
            assert(other.entry_node(upto - 1) == node);
            assert(self.stands(upto - 1) == other.stands(upto - 1));
            assert(self.tier(node) == other.tier(node));
        }
    }

    /// Where a fixed order is asked for, the order does not depend on the
    /// health of the nodes, nor on the time.
    pub proof fn lemma_fixed_rest(&self, other: Ranking, stage: int, from: int)
        requires
            self.fixed,
            other.fixed,
            self.tried == other.tried,
            self.nodes == other.nodes,
            self.replicas == other.replicas,
            self.replica_shift == other.replica_shift,
            self.node_shift == other.node_shift,
            self.datacenter == other.datacenter,
            self.rack == other.rack,
        ensures
            self.rest(stage, from) == other.rest(stage, from),
        decreases RANKS - stage, self.entry_count() - from,
    {
        if stage >= RANKS || stage < 0 || from < 0 {
        } else if from >= self.entry_count() {
            self.lemma_fixed_rest(other, stage + 1, 0);
        } else {
            self.lemma_fixed_rest(other, stage, from + 1);
            let node = self.entry_node(from);
            assert(other.entry_node(from) == node);
            assert(self.includes(from) == other.includes(from));
            assert(self.tier(node) == other.tier(node));
            assert(self.rank(node) == other.rank(node));
        }
    }
}

} // verus!

//! The default load-balancing policy: token-aware, datacenter-aware and
//! latency-aware, with a fixed order for lightweight transactions.

use crate::failure::{
    as_micros, counts_against_latency, duration_micros, is_reliable_measure, sample_of, to_sample,
};
use crate::latency::{LatencyAwareness, LatencyStat, LatencyTracker};
use crate::ranking::{is_not, Ranking, RANKS};
use crate::replication::{intent_replicas, is_member, replicas_for, walk_position};
use crate::routing::{NodeRef, RoutingInfo};
use crate::topology::{ClusterData, Node};
use scylla_cql::errors::QueryError;
use std::time::Duration;
use vstd::prelude::*;

verus! {

/// A name as the contracts see it.
pub open spec fn name_view(name: Option<String>) -> Option<Seq<char>> {
    match name {
        Some(n) => Some(n@),
        None => None,
    }
}

/// The default policy's preferences and what it has learnt of the nodes.
pub struct DefaultPolicy {
    pub preferred_datacenter: Option<String>,
    /// Counts only together with a preferred datacenter: without one, no
    /// node is preferred for its rack.
    pub preferred_rack: Option<String>,
    pub latency_awareness: Option<LatencyAwareness>,
    pub tracker: LatencyTracker,
    /// The time of the last tick, in milliseconds.
    pub now: u64,
    /// Where the order of equally good nodes starts; a caller that wants
    /// load spread draws it anew for every query.
    pub seed: u64,
}

impl DefaultPolicy {
    /// Where a list of `len` candidates starts: at its head in a fixed
    /// order, else where the seed says.
    pub open spec fn shift(&self, fixed: bool, len: nat) -> int {
        if fixed || len == 0 {
            0
        } else {
            self.seed as int % len as int
        }
    }

    /// What the order of the candidates for `query` depends on, where
    /// `tried` is left out; nothing where the snapshot does not know the
    /// keyspace of a token-aware query.
    pub open spec fn ranking_without(
        &self,
        query: &RoutingInfo,
        cluster: &ClusterData,
        tried: Option<NodeRef>,
    ) -> Option<Ranking> {
        match intent_replicas(cluster, query) {
            Some(replicas) => Some(
                Ranking {
                    nodes: cluster.nodes(),
                    replicas,
                    replica_shift: self.shift(query.is_confirmed_lwt, replicas.len()),
                    node_shift: self.shift(query.is_confirmed_lwt, cluster.nodes().len()),
                    fixed: query.is_confirmed_lwt,
                    datacenter: name_view(self.preferred_datacenter),
                    rack: name_view(self.preferred_rack),
                    awareness: self.latency_awareness,
                    stats: self.tracker@,
                    now: self.now,
                    tried,
                },
            ),
            None => None,
        }
    }

    /// What the order of the candidates for `query` depends on.
    pub open spec fn ranking(&self, query: &RoutingInfo, cluster: &ClusterData) -> Option<Ranking> {
        self.ranking_without(query, cluster, None)
    }

    /// The nodes to try for `query`, the best first, without `tried`.
    pub open spec fn lineup(
        &self,
        query: &RoutingInfo,
        cluster: &ClusterData,
        tried: Option<NodeRef>,
    ) -> Seq<NodeRef> {
        match self.ranking_without(query, cluster, tried) {
            Some(r) => r.plan(),
            None => Seq::empty(),
        }
    }

    /// The nodes to try for `query`, the best first.
    pub open spec fn candidates(&self, query: &RoutingInfo, cluster: &ClusterData) -> Seq<NodeRef> {
        self.lineup(query, cluster, None)
    }

    /// The nodes to try for `query` after `tried` has failed, the best
    /// first, as the policy sees them now.
    pub open spec fn others(&self, query: &RoutingInfo, cluster: &ClusterData, tried: NodeRef) -> Seq<
        NodeRef,
    > {
        self.lineup(query, cluster, Some(tried))
    }
}

/// Where a plan stands.
#[derive(Clone, Copy)]
struct Cursor {
    stage: u8,
    /// Whether the replicas have been gone through at this stage.
    in_nodes: bool,
    position: usize,
    /// The lowest reliable average of the tier of this stage, once it has
    /// been asked for.
    floor: Option<Option<u64>>,
}

/// The order of the candidates for one query, worked out one node at a time.
pub struct Plan<'a> {
    cluster: &'a ClusterData,
    policy: &'a DefaultPolicy,
    replicas: Vec<NodeRef>,
    fixed: bool,
    replica_shift: usize,
    node_shift: usize,
    /// A node that has been tried and is not given again.
    tried: Option<NodeRef>,
    cursor: Cursor,
}

/// The place of the list that comes `step` places after `shift`.
fn rotate(step: usize, shift: usize, len: usize) -> (r: usize)
    requires
        step < len,
        shift < len,
    ensures
        r == walk_position(len as int, shift as int, step as int),
        r < len,
{
    if shift >= len - step {
        shift - (len - step)
    } else {
        shift + step
    }
}

impl<'a> View for Plan<'a> {
    type V = Seq<NodeRef>;

    /// The nodes that the plan has yet to give.
    closed spec fn view(&self) -> Seq<NodeRef> {
        self.ranking().rest(
            self.cursor.stage as int,
            self.place(self.cursor.in_nodes, self.cursor.position),
        )
    }
}

impl<'a> Plan<'a> {
    /// What the plan ranks by.
    pub closed spec fn ranking(&self) -> Ranking {
        Ranking {
            nodes: self.cluster.nodes(),
            replicas: self.replicas@,
            replica_shift: self.replica_shift as int,
            node_shift: self.node_shift as int,
            fixed: self.fixed,
            datacenter: name_view(self.policy.preferred_datacenter),
            rack: name_view(self.policy.preferred_rack),
            awareness: self.policy.latency_awareness,
            stats: self.policy.tracker@,
            now: self.policy.now,
            tried: self.tried,
        }
    }

    /// The place in the list of candidates of the `position`-th replica, or
    /// of the `position`-th node.
    spec fn place(&self, in_nodes: bool, position: usize) -> int {
        if in_nodes {
            self.replicas@.len() + position
        } else {
            position as int
        }
    }

    spec fn cursor_fits(&self, cursor: Cursor) -> bool {
        &&& cursor.stage <= RANKS
        &&& cursor.in_nodes ==> cursor.position <= self.cluster.nodes().len()
        &&& !cursor.in_nodes ==> cursor.position <= self.replicas@.len()
        &&& cursor.floor matches Some(f) ==> f == self.ranking().floor(cursor.stage as int / 2)
    }

    #[verifier::type_invariant]
    spec fn well_formed(&self) -> bool {
        self.ranking().is_valid() && self.cursor_fits(self.cursor)
    }

    /// The node at a place of the list.
    fn entry_at(&self, in_nodes: bool, position: usize) -> (r: NodeRef)
        requires
            in_nodes ==> position < self.cluster.nodes().len(),
            !in_nodes ==> position < self.replicas@.len(),
        ensures
            r == self.ranking().entry_node(self.place(in_nodes, position)),
            self.cluster.holds(r),
    {
        proof {
            use_type_invariant(self);
        }
        if in_nodes {
            NodeRef { index: rotate(position, self.node_shift, self.cluster.num_nodes()) }
        } else {
            self.replicas[rotate(position, self.replica_shift, self.replicas.len())]
        }
    }

    /// The tier of a node of the snapshot.
    fn tier_of(&self, node: NodeRef, data: &Node, is_replica: bool) -> (r: u8)
        requires
            self.cluster.holds(node),
            *data == self.cluster.nodes()[node.index as int],
            is_replica == self.ranking().is_replica(node),
        ensures
            r == self.ranking().tier(node),
            r < 8,
    {
        let local = match &self.policy.preferred_datacenter {
            Some(dc) => data.is_in_datacenter(dc),
            None => true,
        };
        let rack_local = match (&self.policy.preferred_datacenter, &self.policy.preferred_rack) {
            (Some(dc), Some(rack)) => data.is_in_datacenter(dc) && data.is_in_rack(rack),
            _ => true,
        };
        let by_ownership: u8 = if is_replica {
            0
        } else {
            4
        };
        let by_datacenter: u8 = if local {
            0
        } else {
            2
        };
        let by_rack: u8 = if rack_local {
            0
        } else {
            1
        };
        by_ownership + by_datacenter + by_rack
    }

    /// Whether a place of the list stands for its node, be the node tried or
    /// not, and if so, the node, what the snapshot holds of it and its tier.
    fn judge(&self, in_nodes: bool, position: usize) -> (r: Option<(NodeRef, &Node, u8)>)
        requires
            in_nodes ==> position < self.cluster.nodes().len(),
            !in_nodes ==> position < self.replicas@.len(),
        ensures
            ({
                let place = self.place(in_nodes, position);
                &&& r is Some <==> self.ranking().stands(place)
                &&& r matches Some((node, data, tier)) ==> {
                    &&& node == self.ranking().entry_node(place)
                    &&& self.cluster.holds(node)
                    &&& *data == self.cluster.nodes()[node.index as int]
                    &&& tier == self.ranking().tier(node)
                }
            }),
    {
        proof {
            use_type_invariant(self);
        }
        let node = self.entry_at(in_nodes, position);
        let data = match self.cluster.node(node) {
            Some(d) => d,
            None => {
                return None;
            },
        };
        if !data.is_up {
            return None;
        }
        let is_replica = if in_nodes {
            is_member(&self.replicas, node)
        } else {
            proof {
                let p = walk_position(
                    self.replicas@.len() as int,
                    self.replica_shift as int,
                    position as int,
                );
                assert(self.replicas@[p] == node);
            }
            true
        };
        if in_nodes && is_replica {
            return None;
        }
        let tier = self.tier_of(node, data, is_replica);
        Some((node, data, tier))
    }

    /// The reliable average of a node, where it has one.
    fn reliable_average(&self, node: NodeRef, data: &Node) -> (r: Option<u64>)
        requires
            self.cluster.holds(node),
            *data == self.cluster.nodes()[node.index as int],
        ensures
            r == self.ranking().reliable_average(node),
    {
        match &self.policy.latency_awareness {
            Some(awareness) => match self.policy.tracker.stat(data.host_id) {
                Some(stat) => if awareness.reliable(&stat, self.policy.now) {
                    Some(stat.average)
                } else {
                    None
                },
                None => None,
            },
            None => None,
        }
    }

    /// The lower of an average and the lowest so far.
    fn lower(so_far: Option<u64>, average: Option<u64>) -> (r: Option<u64>)
        ensures
            r == (match (so_far, average) {
                (Some(s), Some(a)) => Some(
                    if a < s {
                        a
                    } else {
                        s
                    },
                ),
                (None, Some(a)) => Some(a),
                (_, None) => so_far,
            }),
    {
        match average {
            Some(a) => match so_far {
                Some(s) => Some(
                    if a < s {
                        a
                    } else {
                        s
                    },
                ),
                None => Some(a),
            },
            None => so_far,
        }
    }

    /// The lowest reliable average of a tier.
    fn floor_of(&self, tier: u8) -> (r: Option<u64>)
        ensures
            r == self.ranking().floor(tier as int),
    {
        proof {
            use_type_invariant(self);
        }
        let ghost ranking = self.ranking();
        let mut lowest: Option<u64> = None;
        let replica_count = self.replicas.len();
        let mut i: usize = 0;
        while i < replica_count
            invariant
                ranking == self.ranking(),
                replica_count == self.replicas@.len(),
                i <= replica_count,
                lowest == ranking.floor_upto(tier as int, i as int),
            decreases replica_count - i,
        {
            match self.judge(false, i) {
                Some((node, data, found)) => {
                    if found == tier {
                        lowest = Self::lower(lowest, self.reliable_average(node, data));
                    }
                },
                None => {},
            }
            i += 1;
        }
        let node_count = self.cluster.num_nodes();
        let mut k: usize = 0;
        while k < node_count
            invariant
                ranking == self.ranking(),
                replica_count == self.replicas@.len(),
                node_count == self.cluster.nodes().len(),
                k <= node_count,
                lowest == ranking.floor_upto(tier as int, replica_count + k),
            decreases node_count - k,
        {
            match self.judge(true, k) {
                Some((node, data, found)) => {
                    if found == tier {
                        lowest = Self::lower(lowest, self.reliable_average(node, data));
                    }
                },
                None => {},
            }
            k += 1;
        }
        lowest
    }

    /// Whether a node goes behind the healthy ones of its tier, given the
    /// floor of that tier.
    fn is_behind(&self, node: NodeRef, data: &Node, floor: Option<u64>) -> (r: bool)
        requires
            self.cluster.holds(node),
            *data == self.cluster.nodes()[node.index as int],
            floor == self.ranking().floor(self.ranking().tier(node)),
        ensures
            r == self.ranking().is_behind(node),
    {
        if self.fixed {
            return false;
        }
        match &self.policy.latency_awareness {
            Some(awareness) => match self.policy.tracker.stat(data.host_id) {
                Some(stat) => awareness.deprioritized(&stat, floor, self.policy.now),
                None => false,
            },
            None => false,
        }
    }

    /// Gives the next node of the order, if one is left.
    pub fn next(&mut self) -> (r: Option<NodeRef>)
        ensures
            match r {
                Some(node) => old(self)@.len() > 0 && node == old(self)@[0] && final(self)@ == old(
                    self,
                )@.skip(1),
                None => old(self)@.len() == 0 && final(self)@.len() == 0,
            },
            final(self).ranking() == old(self).ranking(),
    {
        let ghost ranking = self.ranking();
        let ghost before = self@;
        loop
            invariant
                ranking == old(self).ranking(),
                before == old(self)@,
                self.ranking() == ranking,
                self@ == before,
            decreases
                    RANKS - self.cursor.stage,
                    ranking.entry_count() - self.place(self.cursor.in_nodes, self.cursor.position),
                    (if self.cursor.in_nodes {
                        0int
                    } else {
                        1int
                    }),
        {
            proof {
                use_type_invariant(&*self);
            }
            let cursor = self.cursor;
            if cursor.stage >= RANKS {
                return None;
            }
            let limit = if cursor.in_nodes {
                self.cluster.num_nodes()
            } else {
                self.replicas.len()
            };
            if cursor.position >= limit {
                if cursor.in_nodes {
                    self.cursor = Cursor {
                        stage: cursor.stage + 1,
                        in_nodes: false,
                        position: 0,
                        floor: None,
                    };
                } else {
                    self.cursor = Cursor { in_nodes: true, position: 0, ..cursor };
                }
            } else {
                let mut found: Option<NodeRef> = None;
                let mut floor = cursor.floor;
                match self.judge(cursor.in_nodes, cursor.position) {
                    Some((node, data, tier)) => {
                        if tier == cursor.stage / 2 {
                            let behind = if self.fixed || self.policy.latency_awareness.is_none() {
                                false
                            } else {
                                let known = match floor {
                                    Some(f) => f,
                                    None => {
                                        let f = self.floor_of(tier);
                                        floor = Some(f);
                                        f
                                    },
                                };
                                self.is_behind(node, data, known)
                            };
                            let rank = 2 * tier + (if behind {
                                1
                            } else {
                                0
                            });
                            let is_tried = match self.tried {
                                Some(tried) => tried.index == node.index,
                                None => false,
                            };
                            if rank == cursor.stage && !is_tried {
                                found = Some(node);
                            }
                        }
                    },
                    None => {},
                }
                self.cursor = Cursor {
                    stage: cursor.stage,
                    in_nodes: cursor.in_nodes,
                    position: cursor.position + 1,
                    floor,
                };
                if found.is_some() {
                    return found;
                }
            }
        }
    }
}

impl DefaultPolicy {
    /// Where a list of `len` candidates starts.
    fn start(&self, fixed: bool, len: usize) -> (r: usize)
        ensures
            r == self.shift(fixed, len as nat),
            r < len || r == 0,
    {
        if fixed || len == 0 {
            0
        } else {
            (self.seed % (len as u64)) as usize
        }
    }

    /// Lays out the order of the candidates for `query`.
    pub fn plan<'a>(&'a self, query: &RoutingInfo, cluster: &'a ClusterData) -> (r: Plan<'a>)
        ensures
            r@ == self.candidates(query, cluster),
    {
        self.lay_out(query, cluster, None)
    }

    /// Lays out the order of the candidates for `query` that are left once
    /// `tried` has failed.
    pub fn plan_after<'a>(
        &'a self,
        query: &RoutingInfo,
        cluster: &'a ClusterData,
        tried: NodeRef,
    ) -> (r: Plan<'a>)
        ensures
            r@ == self.others(query, cluster, tried),
    {
        self.lay_out(query, cluster, Some(tried))
    }

    fn lay_out<'a>(
        &'a self,
        query: &RoutingInfo,
        cluster: &'a ClusterData,
        tried: Option<NodeRef>,
    ) -> (r: Plan<'a>)
        ensures
            r@ == self.lineup(query, cluster, tried),
    {
        let node_count = cluster.num_nodes();
        match replicas_for(cluster, query) {
            Some(replicas) => {
                proof {
                    let p = crate::topology::keyspace_position(
                        cluster.keyspaces(),
                        query.keyspace->0@,
                        0,
                    );
                    if query.is_token_aware() {
                        crate::replication::lemma_replica_set(
                            cluster.nodes(),
                            cluster.ring(),
                            cluster.keyspaces()[p->0].strategy,
                            query.token->0,
                        );
                    }
                }
                let replica_shift = self.start(query.is_confirmed_lwt, replicas.len());
                let node_shift = self.start(query.is_confirmed_lwt, node_count);
                Plan {
                    cluster,
                    policy: self,
                    replicas,
                    fixed: query.is_confirmed_lwt,
                    replica_shift,
                    node_shift,
                    tried,
                    cursor: Cursor { stage: 0, in_nodes: false, position: 0, floor: None },
                }
            },
            None => Plan {
                cluster,
                policy: self,
                replicas: Vec::new(),
                fixed: true,
                replica_shift: 0,
                node_shift: 0,
                tried,
                cursor: Cursor { stage: RANKS, in_nodes: false, position: 0, floor: None },
            },
        }
    }
}

/// The first of a sequence, if it has one.
pub open spec fn head_of(nodes: Seq<NodeRef>) -> Option<NodeRef> {
    if nodes.len() > 0 {
        Some(nodes[0])
    } else {
        None
    }
}

/// A sequence without its first.
pub open spec fn tail_of(nodes: Seq<NodeRef>) -> Seq<NodeRef> {
    if nodes.len() > 0 {
        nodes.skip(1)
    } else {
        Seq::empty()
    }
}

/// The nodes to try after the first one: worked out one at a time by the
/// default policy, or listed by another.
pub enum FallbackPlan<'a> {
    Ranked(Plan<'a>),
    /// The nodes, and how many of them have been given.
    Listed(Vec<NodeRef>, usize),
}

impl<'a> View for FallbackPlan<'a> {
    type V = Seq<NodeRef>;

    /// The nodes that the plan has yet to give.
    open spec fn view(&self) -> Seq<NodeRef> {
        match self {
            FallbackPlan::Ranked(plan) => plan@,
            FallbackPlan::Listed(nodes, given) => if *given <= nodes@.len() {
                nodes@.skip(*given as int)
            } else {
                Seq::empty()
            },
        }
    }
}

impl<'a> FallbackPlan<'a> {
    /// Gives the next node of the plan, if one is left.
    pub fn next(&mut self) -> (r: Option<NodeRef>)
        ensures
            r == head_of(old(self)@),
            final(self)@ == tail_of(old(self)@),
    {
        match self {
            FallbackPlan::Ranked(plan) => {
                let r = plan.next();
                proof {
                    if r is None {
                        assert(final(plan)@ =~= Seq::empty());
                    }
                }
                r
            },
            FallbackPlan::Listed(nodes, given) => {
                if *given < nodes.len() {
                    let node = nodes[*given];
                    proof {
                        assert(nodes@.skip(*given as int).skip(1) =~= nodes@.skip(*given + 1));
                    }
                    *given = *given + 1;
                    Some(node)
                } else {
                    proof {
                        assert(old(self)@ =~= Seq::empty());
                    }
                    None
                }
            },
        }
    }
}

impl DefaultPolicy {
    /// The statistics after an attempt on `node` that took `sample`
    /// microseconds: those of the node are brought up to date where the
    /// policy is latency-aware and the node is one of the snapshot, and
    /// nothing changes otherwise.
    pub open spec fn stats_after(
        &self,
        cluster: &ClusterData,
        node: NodeRef,
        success: bool,
        sample: u64,
    ) -> Map<u128, LatencyStat> {
        match self.latency_awareness {
            Some(a) => if cluster.holds(node) {
                let host = cluster.nodes()[node.index as int].host_id;
                self.tracker@.insert(
                    host,
                    if success {
                        a.after_success(self.tracker@.get(host), sample, self.now)
                    } else {
                        a.after_failure(self.tracker@.get(host), sample, self.now)
                    },
                )
            } else {
                self.tracker@
            },
            None => self.tracker@,
        }
    }

    /// Whether nothing but the statistics differs between two states.
    pub open spec fn same_settings(&self, other: &DefaultPolicy) -> bool {
        &&& self.preferred_datacenter == other.preferred_datacenter
        &&& self.preferred_rack == other.preferred_rack
        &&& self.latency_awareness == other.latency_awareness
        &&& self.now == other.now
        &&& self.seed == other.seed
    }

    /// A policy without preferences, not latency-aware.
    pub fn new() -> (r: Self)
        ensures
            r.preferred_datacenter is None,
            r.preferred_rack is None,
            r.latency_awareness is None,
            r.tracker@ == Map::<u128, LatencyStat>::empty(),
            r.now == 0,
            r.seed == 0,
    {
        DefaultPolicy {
            preferred_datacenter: None,
            preferred_rack: None,
            latency_awareness: None,
            tracker: LatencyTracker::new(),
            now: 0,
            seed: 0,
        }
    }

    /// Tells the policy the time, and gives it a new seed for the order of
    /// equally good nodes.
    pub fn tick(&mut self, now: u64, seed: u64)
        ensures
            final(self).now == now,
            final(self).seed == seed,
            final(self).preferred_datacenter == old(self).preferred_datacenter,
            final(self).preferred_rack == old(self).preferred_rack,
            final(self).latency_awareness == old(self).latency_awareness,
            final(self).tracker == old(self).tracker,
    {
        self.now = now;
        self.seed = seed;
    }

    /// Forgets what was learnt of the nodes that are not in the snapshot.
    pub fn forget_departed(&mut self, cluster: &ClusterData)
        ensures
            final(self).tracker@ == old(self).tracker@.restrict(
                crate::latency::member_ids(cluster.nodes()),
            ),
            final(self).same_settings(old(self)),
    {
        self.tracker.retain_members(cluster);
    }

    /// Brings the statistics of `node` up to date after an attempt that took
    /// `sample` microseconds.
    fn note(&mut self, cluster: &ClusterData, node: NodeRef, success: bool, sample: u64)
        ensures
            final(self).tracker@ == old(self).stats_after(cluster, node, success, sample),
            final(self).same_settings(old(self)),
    {
        let awareness = match self.latency_awareness {
            Some(a) => a,
            None => {
                return ;
            },
        };
        let host = match cluster.node(node) {
            Some(data) => data.host_id,
            None => {
                return ;
            },
        };
        let known = self.tracker.stat(host);
        let stat = if success {
            awareness.record_success(known, sample, self.now)
        } else {
            awareness.record_failure(known, sample, self.now)
        };
        self.tracker.store(host, stat);
    }

    /// Notes that an attempt on `node` succeeded after `sample`
    /// microseconds.
    pub fn note_success(&mut self, cluster: &ClusterData, node: NodeRef, sample: u64)
        ensures
            final(self).tracker@ == old(self).stats_after(cluster, node, true, sample),
            final(self).same_settings(old(self)),
    {
        self.note(cluster, node, true, sample);
    }

    /// Notes that an attempt on `node` failed with `error` after `sample`
    /// microseconds. A failure that does not count against the node changes
    /// nothing.
    pub fn note_failure(
        &mut self,
        cluster: &ClusterData,
        node: NodeRef,
        sample: u64,
        error: &QueryError,
    )
        ensures
            final(self).tracker@ == (if counts_against_latency(*error) {
                old(self).stats_after(cluster, node, false, sample)
            } else {
                old(self).tracker@
            }),
            final(self).same_settings(old(self)),
    {
        if is_reliable_measure(error) {
            self.note(cluster, node, false, sample);
        }
    }
}

/// A policy that decides which nodes to contact for each query: the first
/// with `pick`, the others, should the first fail, with `fallback`.
pub trait LoadBalancingPolicy {
    /// The nodes that the policy would have tried for `query`, the best
    /// first.
    spec fn order(&self, query: &RoutingInfo, cluster: &ClusterData) -> Seq<NodeRef>;

    /// The order names nodes of the snapshot that are up, each once.
    proof fn lemma_order(&self, query: &RoutingInfo, cluster: &ClusterData)
        requires
            cluster.is_valid(),
        ensures
            self.order(query, cluster).no_duplicates(),
            forall|k: int|
                0 <= k < self.order(query, cluster).len() ==> cluster.holds(
                    #[trigger] self.order(query, cluster)[k],
                ) && cluster.nodes()[self.order(query, cluster)[k].index as int].is_up,
    ;

    /// Returns the first node to contact for a given query.
    fn pick<'a>(&'a self, query: &'a RoutingInfo, cluster: &'a ClusterData) -> (r: Option<NodeRef>)
        ensures
            r == head_of(self.order(query, cluster)),
    ;

    /// Returns the nodes to contact after `tried`, the node that `pick` gave,
    /// has failed: the order as the policy sees it now, without that node.
    fn fallback<'a>(
        &'a self,
        query: &'a RoutingInfo,
        cluster: &'a ClusterData,
        tried: NodeRef,
    ) -> (r: FallbackPlan<'a>)
        ensures
            r@ == self.order(query, cluster).filter(is_not(tried)),
    ;

    /// Invoked each time a query succeeds.
    fn on_query_success(
        &mut self,
        query: &RoutingInfo,
        latency: Duration,
        node: NodeRef,
        cluster: &ClusterData,
    ) {
    }

    /// Invoked each time a query fails.
    fn on_query_failure(
        &mut self,
        query: &RoutingInfo,
        latency: Duration,
        node: NodeRef,
        cluster: &ClusterData,
        error: &QueryError,
    ) {
    }

    /// Returns the name of load balancing policy.
    fn name(&self) -> String;
}

impl LoadBalancingPolicy for DefaultPolicy {
    open spec fn order(&self, query: &RoutingInfo, cluster: &ClusterData) -> Seq<NodeRef> {
        self.candidates(query, cluster)
    }

    proof fn lemma_order(&self, query: &RoutingInfo, cluster: &ClusterData) {
        crate::guarantees::lemma_candidates(self, query, cluster);
    }

    fn pick<'a>(&'a self, query: &'a RoutingInfo, cluster: &'a ClusterData) -> (r: Option<NodeRef>) {
        let mut plan = self.plan(query, cluster);
        plan.next()
    }

    fn fallback<'a>(
        &'a self,
        query: &'a RoutingInfo,
        cluster: &'a ClusterData,
        tried: NodeRef,
    ) -> (r: FallbackPlan<'a>) {
        proof {
            crate::guarantees::lemma_others_are_the_candidates_left(self, query, cluster, tried);
        }
        FallbackPlan::Ranked(self.plan_after(query, cluster, tried))
    }

    /// Folds the latency into the statistics of `node`.
    fn on_query_success(
        &mut self,
        query: &RoutingInfo,
        latency: Duration,
        node: NodeRef,
        cluster: &ClusterData,
    )
        ensures
            final(self).tracker@ == old(self).stats_after(
                cluster,
                node,
                true,
                sample_of(duration_micros(latency)),
            ),
            final(self).same_settings(old(self)),
    {
        let sample = to_sample(as_micros(latency));
        self.note_success(cluster, node, sample);
    }

    /// Folds the latency into the statistics of `node` where the error is of
    /// a kind that counts against it; the statistics stay as they were
    /// otherwise.
    fn on_query_failure(
        &mut self,
        query: &RoutingInfo,
        latency: Duration,
        node: NodeRef,
        cluster: &ClusterData,
        error: &QueryError,
    )
        ensures
            final(self).tracker@ == (if counts_against_latency(*error) {
                old(self).stats_after(cluster, node, false, sample_of(duration_micros(latency)))
            } else {
                old(self).tracker@
            }),
            final(self).same_settings(old(self)),
    {
        let sample = to_sample(as_micros(latency));
        self.note_failure(cluster, node, sample, error);
    }

    fn name(&self) -> (r: String)
        ensures
            r@ == "DefaultPolicy"@,
    {
        "DefaultPolicy".to_string()
    }
}

/// Builds a default policy, one preference at a time.
pub struct DefaultPolicyBuilder {
    pub preferred_datacenter: Option<String>,
    pub preferred_rack: Option<String>,
    pub latency_awareness: Option<LatencyAwareness>,
}

impl DefaultPolicyBuilder {
    /// The builder of a policy without preferences, not latency-aware.
    pub fn new() -> (r: Self)
        ensures
            r.preferred_datacenter is None,
            r.preferred_rack is None,
            r.latency_awareness is None,
    {
        DefaultPolicyBuilder {
            preferred_datacenter: None,
            preferred_rack: None,
            latency_awareness: None,
        }
    }

    /// Prefers the nodes of one datacenter, and no rack.
    pub fn prefer_datacenter(self, datacenter: String) -> (r: Self)
        ensures
            r.preferred_datacenter == Some(datacenter),
            r.preferred_rack is None,
            r.latency_awareness == self.latency_awareness,
    {
        DefaultPolicyBuilder {
            preferred_datacenter: Some(datacenter),
            preferred_rack: None,
            latency_awareness: self.latency_awareness,
        }
    }

    /// Prefers the nodes of one datacenter, and among them those of one rack.
    pub fn prefer_datacenter_and_rack(self, datacenter: String, rack: String) -> (r: Self)
        ensures
            r.preferred_datacenter == Some(datacenter),
            r.preferred_rack == Some(rack),
            r.latency_awareness == self.latency_awareness,
    {
        DefaultPolicyBuilder {
            preferred_datacenter: Some(datacenter),
            preferred_rack: Some(rack),
            latency_awareness: self.latency_awareness,
        }
    }

    /// Makes the policy latency-aware.
    pub fn latency_awareness(self, awareness: LatencyAwareness) -> (r: Self)
        ensures
            r.preferred_datacenter == self.preferred_datacenter,
            r.preferred_rack == self.preferred_rack,
            r.latency_awareness == Some(awareness),
    {
        DefaultPolicyBuilder {
            preferred_datacenter: self.preferred_datacenter,
            preferred_rack: self.preferred_rack,
            latency_awareness: Some(awareness),
        }
    }

    /// The policy with these preferences, which has learnt nothing yet.
    pub fn build(self) -> (r: DefaultPolicy)
        ensures
            r.preferred_datacenter == self.preferred_datacenter,
            r.preferred_rack == self.preferred_rack,
            r.latency_awareness == self.latency_awareness,
            r.tracker@ == Map::<u128, LatencyStat>::empty(),
            r.now == 0,
            r.seed == 0,
    {
        DefaultPolicy {
            preferred_datacenter: self.preferred_datacenter,
            preferred_rack: self.preferred_rack,
            latency_awareness: self.latency_awareness,
            tracker: LatencyTracker::new(),
            now: 0,
            seed: 0,
        }
    }
}

} // verus!

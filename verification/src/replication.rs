//! From a token and a keyspace to the nodes that own the partition.

use crate::routing::{NodeRef, RoutingInfo, Token};
use crate::topology::{
    keyspace_position, ring_owners_exist, ring_start, ClusterData, DatacenterFactor, Node,
    ReplicationStrategy, RingEntry,
};
use vstd::prelude::*;

verus! {

/// The ring position that a walk from `start` reaches after `step` steps on a
/// ring of `len` entries, the ring being a circle.
pub open spec fn walk_position(len: int, start: int, step: int) -> int {
    if start + step < len {
        start + step
    } else {
        start + step - len
    }
}

/// The replication factor that the first entry for the datacenter `name` at
/// or after `from` gives it; zero where there is none.
pub open spec fn datacenter_factor(factors: Seq<DatacenterFactor>, name: Seq<char>, from: int) -> nat
    decreases factors.len() - from,
{
    if from >= factors.len() {
        0
    } else if factors[from].datacenter@ == name {
        factors[from].replication_factor as nat
    } else {
        datacenter_factor(factors, name, from + 1)
    }
}

/// How many of `chosen` stand in the datacenter `name`.
pub open spec fn members_in_datacenter(nodes: Seq<Node>, chosen: Seq<NodeRef>, name: Seq<char>) -> nat
    decreases chosen.len(),
{
    if chosen.len() == 0 {
        0
    } else {
        members_in_datacenter(nodes, chosen.drop_last(), name) + (if nodes[chosen.last().index as int].in_datacenter(
            name,
        ) {
            1nat
        } else {
            0nat
        })
    }
}

/// Whether the walk takes `candidate` as the next replica after `chosen`: a
/// node is taken once, and only while the strategy has room for it.
pub open spec fn admits(
    nodes: Seq<Node>,
    strategy: ReplicationStrategy,
    chosen: Seq<NodeRef>,
    candidate: NodeRef,
) -> bool {
    !chosen.contains(candidate) && match strategy {
        ReplicationStrategy::Simple { replication_factor } => chosen.len() < replication_factor,
        ReplicationStrategy::NetworkTopology { datacenter_factors } => match nodes[candidate.index as int].datacenter {
            Some(d) => members_in_datacenter(nodes, chosen, d@) < datacenter_factor(
                datacenter_factors@,
                d@,
                0,
            ),
            None => false,
        },
    }
}

/// The replicas that the walk from `start` has taken after `steps` steps.
pub open spec fn replicas_after(
    nodes: Seq<Node>,
    ring: Seq<RingEntry>,
    strategy: ReplicationStrategy,
    start: int,
    steps: nat,
) -> Seq<NodeRef>
    decreases steps,
{
    if steps == 0 {
        Seq::empty()
    } else {
        let chosen = replicas_after(nodes, ring, strategy, start, (steps - 1) as nat);
        let candidate = ring[walk_position(ring.len() as int, start, steps - 1)].owner;
        if admits(nodes, strategy, chosen, candidate) {
            chosen.push(candidate)
        } else {
            chosen
        }
    }
}

/// The replica set of `token` under `strategy`, in the order in which one
/// walk round the ring meets its members.
pub open spec fn replica_set(
    nodes: Seq<Node>,
    ring: Seq<RingEntry>,
    strategy: ReplicationStrategy,
    token: Token,
) -> Seq<NodeRef> {
    if ring.len() == 0 {
        Seq::empty()
    } else {
        replicas_after(nodes, ring, strategy, ring_start(ring, token), ring.len())
    }
}

/// The replicas that an intent asks for: none where it carries no token or
/// no keyspace, those of its token where the snapshot knows the keyspace,
/// and no answer where it does not.
pub open spec fn intent_replicas(cluster: &ClusterData, query: &RoutingInfo) -> Option<
    Seq<NodeRef>,
> {
    if !query.is_token_aware() {
        Some(Seq::empty())
    } else {
        match keyspace_position(cluster.keyspaces(), query.keyspace->0@, 0) {
            Some(p) => Some(
                replica_set(
                    cluster.nodes(),
                    cluster.ring(),
                    cluster.keyspaces()[p].strategy,
                    query.token->0,
                ),
            ),
            None => None,
        }
    }
}

/// A walk takes no node twice, and only owners of ring entries.
pub proof fn lemma_replicas_after(
    nodes: Seq<Node>,
    ring: Seq<RingEntry>,
    strategy: ReplicationStrategy,
    start: int,
    steps: nat,
)
    requires
        ring_owners_exist(ring, nodes.len()),
        0 <= start < ring.len(),
        steps <= ring.len(),
    ensures
        replicas_after(nodes, ring, strategy, start, steps).no_duplicates(),
        replicas_after(nodes, ring, strategy, start, steps).len() <= steps,
        forall|k: int|
            0 <= k < replicas_after(nodes, ring, strategy, start, steps).len()
                ==> (#[trigger] replicas_after(nodes, ring, strategy, start, steps)[k]).index
                < nodes.len(),
        strategy matches ReplicationStrategy::Simple { replication_factor } ==> replicas_after(
            nodes,
            ring,
            strategy,
            start,
            steps,
        ).len() <= replication_factor,
    decreases steps,
{
    if steps > 0 {
        lemma_replicas_after(nodes, ring, strategy, start, (steps - 1) as nat);
        let position = walk_position(ring.len() as int, start, steps - 1);
        assert(ring[position].owner.index < nodes.len());
    }
}

/// A replica set holds no node twice, and only nodes of the snapshot.
pub proof fn lemma_replica_set(
    nodes: Seq<Node>,
    ring: Seq<RingEntry>,
    strategy: ReplicationStrategy,
    token: Token,
)
    requires
        ring_owners_exist(ring, nodes.len()),
    ensures
        replica_set(nodes, ring, strategy, token).no_duplicates(),
        replica_set(nodes, ring, strategy, token).len() <= ring.len(),
        forall|k: int|
            0 <= k < replica_set(nodes, ring, strategy, token).len() ==> (#[trigger] replica_set(
                nodes,
                ring,
                strategy,
                token,
            )[k]).index < nodes.len(),
        strategy matches ReplicationStrategy::Simple { replication_factor } ==> replica_set(
            nodes,
            ring,
            strategy,
            token,
        ).len() <= replication_factor,
{
    if ring.len() > 0 {
        crate::topology::lemma_first_at_or_after(ring, token, 0);
        lemma_replicas_after(nodes, ring, strategy, ring_start(ring, token), ring.len());
    }
}

/// Whether `node` is one of `chosen`.
pub fn is_member(chosen: &Vec<NodeRef>, node: NodeRef) -> (r: bool)
    ensures
        r == chosen@.contains(node),
{
    let mut i: usize = 0;
    while i < chosen.len()
        invariant
            i <= chosen@.len(),
            forall|k: int| 0 <= k < i ==> chosen@[k] != node,
        decreases chosen.len() - i,
    {
        if chosen[i].index == node.index {
            return true;
        }
        i += 1;
    }
    false
}

fn count_in_datacenter(cluster: &ClusterData, chosen: &Vec<NodeRef>, name: &String) -> (r: usize)
    requires
        forall|k: int| 0 <= k < chosen@.len() ==> cluster.holds(#[trigger] chosen@[k]),
    ensures
        r == members_in_datacenter(cluster.nodes(), chosen@, name@),
{
    let mut count: usize = 0;
    let mut i: usize = 0;
    while i < chosen.len()
        invariant
            i <= chosen@.len(),
            count <= i,
            count == members_in_datacenter(cluster.nodes(), chosen@.take(i as int), name@),
            forall|k: int| 0 <= k < chosen@.len() ==> cluster.holds(#[trigger] chosen@[k]),
        decreases chosen.len() - i,
    {
        proof {
            assert(chosen@.take(i + 1).drop_last() == chosen@.take(i as int));
            assert(chosen@.take(i + 1).last() == chosen@[i as int]);
            assert(cluster.holds(chosen@[i as int]));
        }
        match cluster.node(chosen[i]) {
            Some(node) => {
                if node.is_in_datacenter(name) {
                    count += 1;
                }
            },
            None => {},
        }
        i += 1;
    }
    proof {
        assert(chosen@.take(chosen@.len() as int) == chosen@);
    }
    count
}

fn factor_of(factors: &Vec<DatacenterFactor>, name: &String) -> (r: usize)
    ensures
        r == datacenter_factor(factors@, name@, 0),
{
    let mut i: usize = 0;
    while i < factors.len()
        invariant
            i <= factors@.len(),
            datacenter_factor(factors@, name@, 0) == datacenter_factor(factors@, name@, i as int),
        decreases factors.len() - i,
    {
        if factors[i].datacenter == *name {
            return factors[i].replication_factor;
        }
        i += 1;
    }
    0
}

fn has_room(
    cluster: &ClusterData,
    strategy: &ReplicationStrategy,
    chosen: &Vec<NodeRef>,
    candidate: NodeRef,
) -> (r: bool)
    requires
        cluster.holds(candidate),
        forall|k: int| 0 <= k < chosen@.len() ==> cluster.holds(#[trigger] chosen@[k]),
    ensures
        r == admits(cluster.nodes(), *strategy, chosen@, candidate),
{
    if is_member(chosen, candidate) {
        return false;
    }
    match strategy {
        ReplicationStrategy::Simple { replication_factor } => chosen.len() < *replication_factor,
        ReplicationStrategy::NetworkTopology { datacenter_factors } => {
            match cluster.node(candidate) {
                Some(node) => match &node.datacenter {
                    Some(d) => count_in_datacenter(cluster, chosen, d) < factor_of(
                        datacenter_factors,
                        d,
                    ),
                    None => false,
                },
                None => false,
            }
        },
    }
}

/// Computes the replica set of `token` under `strategy` by one walk round
/// the ring.
pub fn compute_replicas(cluster: &ClusterData, strategy: &ReplicationStrategy, token: Token) -> (r:
    Vec<NodeRef>)
    ensures
        r@ == replica_set(cluster.nodes(), cluster.ring(), *strategy, token),
        r@.no_duplicates(),
        forall|k: int| 0 <= k < r@.len() ==> cluster.holds(#[trigger] r@[k]),
{
    let mut chosen: Vec<NodeRef> = Vec::new();
    let len = cluster.ring_len();
    proof {
        lemma_replica_set(cluster.nodes(), cluster.ring(), *strategy, token);
    }
    let start = match cluster.ring_position(token) {
        Some(p) => p,
        None => {
            return chosen;
        },
    };
    let mut step: usize = 0;
    let mut position: usize = start;
    while step < len
        invariant
            len == cluster.ring().len(),
            start < len,
            start == ring_start(cluster.ring(), token),
            step <= len,
            step < len ==> position == walk_position(len as int, start as int, step as int),
            chosen@ == replicas_after(
                cluster.nodes(),
                cluster.ring(),
                *strategy,
                start as int,
                step as nat,
            ),
            forall|k: int| 0 <= k < chosen@.len() ==> cluster.holds(#[trigger] chosen@[k]),
        decreases len - step,
    {
        if let Some(entry) = cluster.ring_entry(position) {
            if has_room(cluster, strategy, &chosen, entry.owner) {
                chosen.push(entry.owner);
            }
        }
        step += 1;
        position = if position + 1 == len {
            0
        } else {
            position + 1
        };
    }
    chosen
}

/// Looks up the replicas that `query` asks for: `intent_replicas`.
pub fn replicas_for(cluster: &ClusterData, query: &RoutingInfo) -> (r: Option<Vec<NodeRef>>)
    ensures
        r is Some <==> intent_replicas(cluster, query) is Some,
        r matches Some(v) ==> v@ == intent_replicas(cluster, query)->0,
{
    let token = match query.token {
        Some(t) => t,
        None => {
            return Some(Vec::new());
        },
    };
    let name = match query.keyspace {
        Some(n) => n,
        None => {
            return Some(Vec::new());
        },
    };
    match cluster.keyspace(name) {
        Some(keyspace) => Some(compute_replicas(cluster, &keyspace.strategy, token)),
        None => None,
    }
}

} // verus!

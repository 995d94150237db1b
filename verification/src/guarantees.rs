//! What holds of every order that the default policy lays out.

use crate::policy::{head_of, name_view, DefaultPolicy};
use crate::ranking::{is_not, precedes};
use crate::replication::{intent_replicas, lemma_replica_set};
use crate::routing::{NodeRef, RoutingInfo};
use crate::topology::{keyspace_position, ClusterData};
use vstd::prelude::*;

verus! {

/// What the policy ranks by is sound on every snapshot.
pub proof fn lemma_ranking_is_valid(
    policy: &DefaultPolicy,
    query: &RoutingInfo,
    cluster: &ClusterData,
    tried: Option<NodeRef>,
)
    requires
        cluster.is_valid(),
    ensures
        policy.ranking_without(query, cluster, tried) matches Some(r) ==> r.is_valid(),
{
    if query.is_token_aware() {
        let p = keyspace_position(cluster.keyspaces(), query.keyspace->0@, 0);
        if p is Some {
            lemma_replica_set(
                cluster.nodes(),
                cluster.ring(),
                cluster.keyspaces()[p->0].strategy,
                query.token->0,
            );
        }
    }
    if let Some(r) = policy.ranking_without(query, cluster, tried) {
        if r.replicas.len() > 0 && !r.fixed {
            assert(0 <= (policy.seed as int) % (r.replicas.len() as int) < r.replicas.len());
        }
        if r.nodes.len() > 0 && !r.fixed {
            assert(0 <= (policy.seed as int) % (r.nodes.len() as int) < r.nodes.len());
        }
    }
}

/// The nodes to try are the nodes of the snapshot that are up and have not
/// been tried, each once: none that is down is ever tried, and none that is
/// up is left out.
pub proof fn lemma_lineup(
    policy: &DefaultPolicy,
    query: &RoutingInfo,
    cluster: &ClusterData,
    tried: Option<NodeRef>,
)
    requires
        cluster.is_valid(),
    ensures
        policy.lineup(query, cluster, tried).no_duplicates(),
        forall|k: int|
            0 <= k < policy.lineup(query, cluster, tried).len() ==> {
                let node = #[trigger] policy.lineup(query, cluster, tried)[k];
                &&& cluster.holds(node)
                &&& cluster.nodes()[node.index as int].is_up
                &&& tried != Some(node)
            },
        intent_replicas(cluster, query) is Some ==> forall|node: NodeRef|
            cluster.holds(node) && cluster.nodes()[node.index as int].is_up && tried != Some(node)
                ==> #[trigger] policy.lineup(query, cluster, tried).contains(node),
{
    let plan = policy.lineup(query, cluster, tried);
    lemma_ranking_is_valid(policy, query, cluster, tried);
    if let Some(r) = policy.ranking_without(query, cluster, tried) {
        r.lemma_plan_members();
        assert forall|k: int| 0 <= k < plan.len() implies cluster.holds(#[trigger] plan[k])
            && cluster.nodes()[plan[k].index as int].is_up && tried != Some(plan[k]) by {
            assert(plan.contains(plan[k]));
        }
    }
}

/// The candidates are the nodes of the snapshot that are up, each once.
pub proof fn lemma_candidates(policy: &DefaultPolicy, query: &RoutingInfo, cluster: &ClusterData)
    requires
        cluster.is_valid(),
    ensures
        policy.candidates(query, cluster).no_duplicates(),
        forall|k: int|
            0 <= k < policy.candidates(query, cluster).len() ==> cluster.holds(
                #[trigger] policy.candidates(query, cluster)[k],
            ) && cluster.nodes()[policy.candidates(query, cluster)[k].index as int].is_up,
        intent_replicas(cluster, query) is Some ==> forall|node: NodeRef|
            cluster.holds(node) && cluster.nodes()[node.index as int].is_up
                ==> #[trigger] policy.candidates(query, cluster).contains(node),
{
    lemma_lineup(policy, query, cluster, None);
}

/// The nodes to fall back on are the candidates, in their order, without the
/// node that has been tried.
pub proof fn lemma_others_are_the_candidates_left(
    policy: &DefaultPolicy,
    query: &RoutingInfo,
    cluster: &ClusterData,
    tried: NodeRef,
)
    ensures
        policy.others(query, cluster, tried) == policy.candidates(query, cluster).filter(
            is_not(tried),
        ),
{
    match policy.ranking(query, cluster) {
        Some(r) => {
            r.lemma_tried_is_left_out(tried, 0, 0);
            assert(policy.ranking_without(query, cluster, Some(tried)) == Some(r.without(tried)));
        },
        None => {
            reveal(Seq::filter);
            assert(Seq::<NodeRef>::empty().filter(is_not(tried)) == Seq::<NodeRef>::empty());
        },
    }
}

/// The nodes to fall back on never hold the node that was picked, whatever
/// the policy has been told between the pick and the fallback: they are the
/// nodes that are up, without the one picked, each once.
pub proof fn lemma_fallback_leaves_out_the_pick(
    at_pick: &DefaultPolicy,
    at_fallback: &DefaultPolicy,
    query: &RoutingInfo,
    cluster: &ClusterData,
)
    requires
        cluster.is_valid(),
        head_of(at_pick.candidates(query, cluster)) is Some,
    ensures
        ({
            let picked = head_of(at_pick.candidates(query, cluster))->0;
            let rest = at_fallback.others(query, cluster, picked);
            &&& !rest.contains(picked)
            &&& rest.no_duplicates()
            &&& forall|k: int|
                0 <= k < rest.len() ==> cluster.holds(#[trigger] rest[k])
                    && cluster.nodes()[rest[k].index as int].is_up
            &&& forall|node: NodeRef|
                cluster.holds(node) && cluster.nodes()[node.index as int].is_up && node != picked
                    ==> #[trigger] rest.contains(node)
        }),
{
    let picked = head_of(at_pick.candidates(query, cluster))->0;
    let rest = at_fallback.others(query, cluster, picked);
    lemma_lineup(at_fallback, query, cluster, Some(picked));
    if rest.contains(picked) {
        let k = choose|k: int| 0 <= k < rest.len() && rest[k] == picked;
        assert(Some(picked) != Some(rest[k]));
    }
}

/// For a token-aware query with a replica that is up, the first pick is a
/// replica that is up.
pub proof fn lemma_first_pick_is_a_replica(
    policy: &DefaultPolicy,
    query: &RoutingInfo,
    cluster: &ClusterData,
    replica: NodeRef,
)
    requires
        cluster.is_valid(),
        query.is_token_aware(),
        intent_replicas(cluster, query) matches Some(replicas) && replicas.contains(replica),
        cluster.holds(replica),
        cluster.nodes()[replica.index as int].is_up,
    ensures
        head_of(policy.candidates(query, cluster)) matches Some(first) && (intent_replicas(
            cluster,
            query,
        )->0).contains(first) && cluster.holds(first) && cluster.nodes()[first.index as int].is_up,
{
    let plan = policy.candidates(query, cluster);
    let r = policy.ranking(query, cluster)->0;
    lemma_ranking_is_valid(policy, query, cluster, None);
    lemma_candidates(policy, query, cluster);
    r.lemma_plan_is_ranked();
    assert(plan.contains(replica));
    let k = choose|k: int| 0 <= k < plan.len() && plan[k] == replica;
    assert(r.rank(plan[0]) <= r.rank(plan[k]));
    assert(r.tier(replica) < 4);
}

/// The tiers are kept whatever the health of the nodes and whatever the
/// seed: a replica is never tried after a node that is none, and among the
/// replicas, as among the others, a node of the preferred datacenter is never
/// tried after one that stands elsewhere.
pub proof fn lemma_tiers_are_kept(
    policy: &DefaultPolicy,
    query: &RoutingInfo,
    cluster: &ClusterData,
    tried: Option<NodeRef>,
    a: int,
    b: int,
)
    requires
        cluster.is_valid(),
        policy.ranking_without(query, cluster, tried) is Some,
        0 <= a < b < policy.lineup(query, cluster, tried).len(),
    ensures
        ({
            let r = policy.ranking_without(query, cluster, tried)->0;
            let plan = policy.lineup(query, cluster, tried);
            &&& r.is_replica(plan[b]) ==> r.is_replica(plan[a])
            &&& r.is_replica(plan[a]) == r.is_replica(plan[b]) && r.is_local(plan[b])
                ==> r.is_local(plan[a])
            &&& r.tier(plan[a]) <= r.tier(plan[b])
        }),
{
    let r = policy.ranking_without(query, cluster, tried)->0;
    lemma_ranking_is_valid(policy, query, cluster, tried);
    r.lemma_plan_is_ranked();
    let plan = policy.lineup(query, cluster, tried);
    assert(r.rank(plan[a]) <= r.rank(plan[b]));
}

/// Within a tier, a node that is under a penalty or slow is tried after
/// every node that is neither.
pub proof fn lemma_healthy_nodes_come_first(
    policy: &DefaultPolicy,
    query: &RoutingInfo,
    cluster: &ClusterData,
    tried: Option<NodeRef>,
    healthy: int,
    behind: int,
)
    requires
        cluster.is_valid(),
        policy.ranking_without(query, cluster, tried) is Some,
        0 <= healthy < policy.lineup(query, cluster, tried).len(),
        0 <= behind < policy.lineup(query, cluster, tried).len(),
        ({
            let r = policy.ranking_without(query, cluster, tried)->0;
            let plan = policy.lineup(query, cluster, tried);
            &&& r.tier(plan[healthy]) == r.tier(plan[behind])
            &&& !r.is_behind(plan[healthy])
            &&& r.is_behind(plan[behind])
        }),
    ensures
        healthy < behind,
{
    let r = policy.ranking_without(query, cluster, tried)->0;
    lemma_ranking_is_valid(policy, query, cluster, tried);
    r.lemma_plan_is_ranked();
    let plan = policy.lineup(query, cluster, tried);
    if behind < healthy {
        assert(r.rank(plan[behind]) <= r.rank(plan[healthy]));
    }
}

/// For a lightweight transaction the order is fixed: two policies with the
/// same preferences lay out the same order on the same snapshot, whatever
/// each has learnt of the nodes, whatever the time and whatever the seed.
pub proof fn lemma_lightweight_transactions_have_one_order(
    policy: &DefaultPolicy,
    other: &DefaultPolicy,
    query: &RoutingInfo,
    cluster: &ClusterData,
    tried: Option<NodeRef>,
)
    requires
        query.is_confirmed_lwt,
        name_view(policy.preferred_datacenter) == name_view(other.preferred_datacenter),
        name_view(policy.preferred_rack) == name_view(other.preferred_rack),
    ensures
        policy.lineup(query, cluster, tried) == other.lineup(query, cluster, tried),
{
    if let Some(r) = policy.ranking_without(query, cluster, tried) {
        let s = other.ranking_without(query, cluster, tried)->0;
        r.lemma_fixed_rest(s, 0, 0);
    }
}

/// On a snapshot without nodes there is nothing to try.
pub proof fn lemma_empty_topology(
    policy: &DefaultPolicy,
    query: &RoutingInfo,
    cluster: &ClusterData,
    tried: Option<NodeRef>,
)
    requires
        cluster.is_valid(),
        cluster.nodes().len() == 0,
    ensures
        policy.lineup(query, cluster, tried) == Seq::<NodeRef>::empty(),
        head_of(policy.candidates(query, cluster)) is None,
{
    let plan = policy.lineup(query, cluster, tried);
    lemma_lineup(policy, query, cluster, tried);
    if plan.len() > 0 {
        assert(cluster.holds(plan[0]));
    }
    assert(plan =~= Seq::<NodeRef>::empty());
    let first = policy.candidates(query, cluster);
    lemma_lineup(policy, query, cluster, None);
    if first.len() > 0 {
        assert(cluster.holds(first[0]));
    }
}

/// For a token-aware query on a keyspace that the snapshot does not know
/// there is nothing to try.
pub proof fn lemma_unknown_keyspace(
    policy: &DefaultPolicy,
    query: &RoutingInfo,
    cluster: &ClusterData,
    tried: Option<NodeRef>,
)
    requires
        query.is_token_aware(),
        keyspace_position(cluster.keyspaces(), query.keyspace->0@, 0) is None,
    ensures
        policy.lineup(query, cluster, tried) == Seq::<NodeRef>::empty(),
        head_of(policy.candidates(query, cluster)) is None,
{
}

/// The policy with another seed.
pub open spec fn reseeded(policy: &DefaultPolicy, seed: u64) -> DefaultPolicy {
    DefaultPolicy { seed, ..*policy }
}

/// A seed with which the list that `node` stands in starts with `node`.
pub open spec fn seed_that_favours(query: &RoutingInfo, cluster: &ClusterData, node: NodeRef) -> u64 {
    let replicas = intent_replicas(cluster, query)->0;
    if replicas.contains(node) {
        replicas.index_of(node) as u64
    } else {
        node.index as u64
    }
}

/// No node is kept behind another for good unless its rank is worse: for a
/// query that is no lightweight transaction there is a seed with which a
/// node is tried before every other node whose rank is not better than its
/// own. So a node whose penalty has ended, and which is not slow, is again
/// tried before the healthy nodes of its tier in some of the orders.
pub proof fn lemma_a_seed_puts_a_node_first(
    policy: &DefaultPolicy,
    query: &RoutingInfo,
    cluster: &ClusterData,
    tried: Option<NodeRef>,
    first: NodeRef,
    second: NodeRef,
)
    requires
        cluster.is_valid(),
        !query.is_confirmed_lwt,
        intent_replicas(cluster, query) is Some,
        first != second,
        ({
            let favoured = reseeded(policy, seed_that_favours(query, cluster, first));
            let r = favoured.ranking_without(query, cluster, tried)->0;
            &&& r.is_candidate(first)
            &&& r.is_candidate(second)
            &&& r.rank(first) <= r.rank(second)
        }),
    ensures
        precedes(
            reseeded(policy, seed_that_favours(query, cluster, first)).lineup(query, cluster, tried),
            first,
            second,
        ),
{
    let seed = seed_that_favours(query, cluster, first);
    let favoured = reseeded(policy, seed);
    let r = favoured.ranking_without(query, cluster, tried)->0;
    lemma_ranking_is_valid(&favoured, query, cluster, tried);
    if query.is_token_aware() {
        let p = keyspace_position(cluster.keyspaces(), query.keyspace->0@, 0);
        lemma_replica_set(
            cluster.nodes(),
            cluster.ring(),
            cluster.keyspaces()[p->0].strategy,
            query.token->0,
        );
    }
    if r.replicas.contains(first) {
        let t = r.replicas.index_of(first);
        assert(0 <= t < r.replicas.len() && r.replicas[t] == first);
        assert(t % (r.replicas.len() as int) == t) by (nonlinear_arith)
            requires
                0 <= t < r.replicas.len(),
        ;
        assert(r.replica_shift == t);
    } else {
        let t = first.index as int;
        assert(t % (r.nodes.len() as int) == t) by (nonlinear_arith)
            requires
                0 <= t < r.nodes.len(),
        ;
        assert(r.node_shift == t);
    }
    r.lemma_start_of_a_list_comes_first(first, second);
}

/// What the policy is told of one node changes nothing of what it knows of
/// another node of the snapshot.
pub proof fn lemma_feedback_is_local(
    policy: &DefaultPolicy,
    cluster: &ClusterData,
    node: NodeRef,
    other: NodeRef,
    success: bool,
    sample: u64,
)
    requires
        cluster.is_valid(),
        cluster.holds(other),
        node != other,
    ensures
        policy.stats_after(cluster, node, success, sample).get(
            cluster.nodes()[other.index as int].host_id,
        ) == policy.tracker@.get(cluster.nodes()[other.index as int].host_id),
{
    if cluster.holds(node) {
        let a = node.index as int;
        let b = other.index as int;
        if a < b {
            assert(cluster.nodes()[a].host_id != cluster.nodes()[b].host_id);
        } else {
            assert(cluster.nodes()[b].host_id != cluster.nodes()[a].host_id);
        }
    }
}

} // verus!

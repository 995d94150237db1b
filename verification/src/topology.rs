//! The topology snapshot: the nodes of the cluster, the token ring and the
//! replication strategy of each keyspace, as they stood at one moment.

use crate::routing::{NodeRef, Token};
use std::collections::HashSet;
use vstd::prelude::*;

verus! {

/// One node of the cluster.
pub struct Node {
    /// The identity that the node keeps from one snapshot to the next.
    pub host_id: u128,
    pub address: String,
    pub datacenter: Option<String>,
    pub rack: Option<String>,
    pub is_up: bool,
}

impl Node {
    /// Whether the node is known to stand in the datacenter `name`.
    pub open spec fn in_datacenter(&self, name: Seq<char>) -> bool {
        self.datacenter matches Some(d) && d@ == name
    }

    /// Whether the node is known to stand in the rack `name`.
    pub open spec fn in_rack(&self, name: Seq<char>) -> bool {
        self.rack matches Some(r) && r@ == name
    }

    pub fn is_in_datacenter(&self, name: &String) -> (r: bool)
        ensures
            r == self.in_datacenter(name@),
    {
        match &self.datacenter {
            Some(d) => *d == *name,
            None => false,
        }
    }

    pub fn is_in_rack(&self, name: &String) -> (r: bool)
        ensures
            r == self.in_rack(name@),
    {
        match &self.rack {
            Some(k) => *k == *name,
            None => false,
        }
    }
}

/// One point of the ring: the node `owner` owns the tokens up to `token`.
#[derive(Clone, Copy, Debug)]
pub struct RingEntry {
    pub token: Token,
    pub owner: NodeRef,
}

/// How many replicas a datacenter keeps of each partition.
pub struct DatacenterFactor {
    pub datacenter: String,
    pub replication_factor: usize,
}

/// How a keyspace spreads its partitions over the nodes.
pub enum ReplicationStrategy {
    /// The first `replication_factor` distinct nodes along the ring.
    Simple { replication_factor: usize },
    /// Along the ring, for each datacenter its own number of distinct nodes.
    NetworkTopology { datacenter_factors: Vec<DatacenterFactor> },
}

pub struct Keyspace {
    pub name: String,
    pub strategy: ReplicationStrategy,
}

/// The ring's tokens grow strictly from one entry to the next.
pub open spec fn ring_is_sorted(ring: Seq<RingEntry>) -> bool {
    forall|i: int, j: int| 0 <= i < j < ring.len() ==> ring[i].token.value < ring[j].token.value
}

/// Every entry of the ring is owned by one of `node_count` nodes.
pub open spec fn ring_owners_exist(ring: Seq<RingEntry>, node_count: nat) -> bool {
    forall|i: int| 0 <= i < ring.len() ==> (#[trigger] ring[i]).owner.index < node_count
}

/// No two nodes have one host id.
pub open spec fn host_ids_differ(nodes: Seq<Node>) -> bool {
    forall|i: int, j: int| 0 <= i < j < nodes.len() ==> nodes[i].host_id != nodes[j].host_id
}

/// What makes a list of nodes and a ring a snapshot.
pub open spec fn snapshot_is_well_formed(nodes: Seq<Node>, ring: Seq<RingEntry>) -> bool {
    &&& nodes.len() <= usize::MAX
    &&& ring.len() <= usize::MAX
    &&& host_ids_differ(nodes)
    &&& ring_is_sorted(ring)
    &&& ring_owners_exist(ring, nodes.len())
}

/// The first position at or after `from` whose token is not below `token`,
/// or the ring's length where there is none.
pub open spec fn first_at_or_after(ring: Seq<RingEntry>, token: Token, from: int) -> int
    decreases ring.len() - from,
{
    if from >= ring.len() {
        ring.len() as int
    } else if ring[from].token.value >= token.value {
        from
    } else {
        first_at_or_after(ring, token, from + 1)
    }
}

/// Where the walk for `token` starts on a ring that is not empty: at the
/// first entry whose token is not below it, and at the first entry of all
/// where every token is below it, the ring being a circle.
pub open spec fn ring_start(ring: Seq<RingEntry>, token: Token) -> int {
    let first = first_at_or_after(ring, token, 0);
    if first >= ring.len() {
        0
    } else {
        first
    }
}

/// `first_at_or_after` finds a position that no earlier one beats.
pub proof fn lemma_first_at_or_after(ring: Seq<RingEntry>, token: Token, from: int)
    requires
        0 <= from <= ring.len(),
    ensures
        from <= first_at_or_after(ring, token, from) <= ring.len(),
        forall|j: int|
            from <= j < first_at_or_after(ring, token, from) ==> (#[trigger] ring[j]).token.value
                < token.value,
        first_at_or_after(ring, token, from) < ring.len() ==> ring[first_at_or_after(
            ring,
            token,
            from,
        )].token.value >= token.value,
    decreases ring.len() - from,
{
    if from < ring.len() && ring[from].token.value < token.value {
        lemma_first_at_or_after(ring, token, from + 1);
    }
}

/// The position of the first keyspace named `name` at or after `from`.
pub open spec fn keyspace_position(keyspaces: Seq<Keyspace>, name: Seq<char>, from: int) -> Option<
    int,
>
    decreases keyspaces.len() - from,
{
    if from >= keyspaces.len() {
        None
    } else if keyspaces[from].name@ == name {
        Some(from)
    } else {
        keyspace_position(keyspaces, name, from + 1)
    }
}

/// An immutable view of the cluster at one moment. A change of topology
/// makes a new snapshot; none is ever changed in place.
pub struct ClusterData {
    nodes: Vec<Node>,
    ring: Vec<RingEntry>,
    keyspaces: Vec<Keyspace>,
}

impl ClusterData {
    #[verifier::type_invariant]
    spec fn well_formed(&self) -> bool {
        snapshot_is_well_formed(self.nodes@, self.ring@)
    }

    /// The nodes, each at the index that its `NodeRef` holds.
    pub closed spec fn nodes(&self) -> Seq<Node> {
        self.nodes@
    }

    /// The ring, in the order of its tokens.
    pub closed spec fn ring(&self) -> Seq<RingEntry> {
        self.ring@
    }

    pub closed spec fn keyspaces(&self) -> Seq<Keyspace> {
        self.keyspaces@
    }

    /// Whether `node` is a handle into this snapshot.
    pub open spec fn holds(&self, node: NodeRef) -> bool {
        node.index < self.nodes().len()
    }

    /// What holds of every snapshot that the program holds. A proof that
    /// speaks of a snapshot as a mathematical value asks for it.
    pub open spec fn is_valid(&self) -> bool {
        snapshot_is_well_formed(self.nodes(), self.ring())
    }

    /// The snapshot of a cluster of which nothing is known.
    pub fn empty() -> (r: Self)
        ensures
            r.nodes().len() == 0,
            r.ring().len() == 0,
            r.keyspaces().len() == 0,
            r.is_valid(),
    {
        ClusterData { nodes: Vec::new(), ring: Vec::new(), keyspaces: Vec::new() }
    }

    /// Makes a snapshot of `nodes`, `ring` and `keyspaces`, unless two nodes
    /// have one host id, or the ring is out of order or names a node that is
    /// not there.
    pub fn new(nodes: Vec<Node>, ring: Vec<RingEntry>, keyspaces: Vec<Keyspace>) -> (r: Option<
        Self,
    >)
        ensures
            r is Some <==> snapshot_is_well_formed(nodes@, ring@),
            r matches Some(c) ==> c.nodes() == nodes@ && c.ring() == ring@ && c.keyspaces()
                == keyspaces@ && c.is_valid(),
    {
        let node_count = nodes.len();
        let mut seen: HashSet<u128> = HashSet::new();
        let mut k: usize = 0;
        while k < node_count
            invariant
                node_count == nodes@.len(),
                k <= node_count,
                forall|a: int, b: int| 0 <= a < b < k ==> nodes@[a].host_id != nodes@[b].host_id,
                forall|a: int| 0 <= a < k ==> seen@.contains(#[trigger] nodes@[a].host_id),
                forall|host: u128|
                    seen@.contains(host) ==> exists|a: int|
                        0 <= a < k && (#[trigger] nodes@[a]).host_id == host,
            decreases node_count - k,
        {
            let host = nodes[k].host_id;
            if !seen.insert(host) {
                proof {
                    let a = choose|a: int| 0 <= a < k && (#[trigger] nodes@[a]).host_id == host;
                    assert(nodes@[a].host_id == nodes@[k as int].host_id);
                }
                return None;
            }
            k += 1;
        }
        let mut i: usize = 0;
        while i < ring.len()
            invariant
                node_count == nodes@.len(),
                i <= ring.len(),
                forall|a: int, b: int| 0 <= a < b < i ==> ring@[a].token.value < ring@[b].token.value,
                forall|a: int| 0 <= a < i ==> (#[trigger] ring@[a]).owner.index < nodes@.len(),
            decreases ring.len() - i,
        {
            if ring[i].owner.index >= nodes.len() {
                return None;
            }
            if i > 0 && ring[i - 1].token.value >= ring[i].token.value {
                return None;
            }
            i += 1;
        }
        Some(ClusterData { nodes, ring, keyspaces })
    }

    /// The number of nodes. Whoever holds a snapshot learns here that it is
    /// valid.
    pub fn num_nodes(&self) -> (r: usize)
        ensures
            r == self.nodes().len(),
            self.is_valid(),
    {
        proof {
            use_type_invariant(self);
        }
        self.nodes.len()
    }

    /// The number of ring entries.
    pub fn ring_len(&self) -> (r: usize)
        ensures
            r == self.ring().len(),
            self.is_valid(),
    {
        proof {
            use_type_invariant(self);
        }
        self.ring.len()
    }

    /// The node behind `node`, where the handle is one of this snapshot.
    pub fn node(&self, node: NodeRef) -> (r: Option<&Node>)
        ensures
            r is Some <==> self.holds(node),
            r matches Some(n) ==> *n == self.nodes()[node.index as int],
    {
        if node.index < self.nodes.len() {
            Some(&self.nodes[node.index])
        } else {
            None
        }
    }

    /// The ring entry at `position`.
    pub fn ring_entry(&self, position: usize) -> (r: Option<RingEntry>)
        ensures
            r is Some <==> position < self.ring().len(),
            r matches Some(e) ==> e == self.ring()[position as int] && self.holds(e.owner),
    {
        proof {
            use_type_invariant(self);
        }
        if position < self.ring.len() {
            Some(self.ring[position])
        } else {
            None
        }
    }

    /// Where on the ring the walk for `token` starts: nowhere on an empty
    /// ring, else at `ring_start`.
    pub fn ring_position(&self, token: Token) -> (r: Option<usize>)
        ensures
            r is Some <==> self.ring().len() > 0,
            r matches Some(p) ==> p == ring_start(self.ring(), token) && p < self.ring().len(),
    {
        proof {
            use_type_invariant(self);
        }
        let len = self.ring.len();
        if len == 0 {
            return None;
        }
        let mut low: usize = 0;
        let mut high: usize = len;
        while low < high
            invariant
                len == self.ring@.len(),
                low <= high <= len,
                ring_is_sorted(self.ring@),
                forall|j: int| 0 <= j < low ==> (#[trigger] self.ring@[j]).token.value < token.value,
                forall|j: int|
                    high <= j < len ==> (#[trigger] self.ring@[j]).token.value >= token.value,
            decreases high - low,
        {
            let middle = low + (high - low) / 2;
            if self.ring[middle].token.value < token.value {
                low = middle + 1;
            } else {
                high = middle;
            }
        }
        proof {
            lemma_first_at_or_after(self.ring@, token, 0);
            let first = first_at_or_after(self.ring@, token, 0);
            if first < low {
                assert(self.ring@[first].token.value < token.value);
            }
            if first > low {
                assert(self.ring@[low as int].token.value < token.value);
            }
            assert(first == low);
        }
        if low == len {
            Some(0)
        } else {
            Some(low)
        }
    }

    /// The first keyspace of the snapshot that is named `name`.
    pub fn keyspace(&self, name: &str) -> (r: Option<&Keyspace>)
        ensures
            r is Some <==> keyspace_position(self.keyspaces(), name@, 0) is Some,
            r matches Some(k) ==> *k == self.keyspaces()[keyspace_position(
                self.keyspaces(),
                name@,
                0,
            )->0],
    {
        let wanted = name.to_owned();
        let mut i: usize = 0;
        while i < self.keyspaces.len()
            invariant
                i <= self.keyspaces@.len(),
                wanted@ == name@,
                keyspace_position(self.keyspaces@, name@, 0) == keyspace_position(
                    self.keyspaces@,
                    name@,
                    i as int,
                ),
            decreases self.keyspaces.len() - i,
        {
            if self.keyspaces[i].name == wanted {
                return Some(&self.keyspaces[i]);
            }
            i += 1;
        }
        None
    }
}

} // verus!

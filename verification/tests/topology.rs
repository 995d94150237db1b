use scylla_routing::replication::{compute_replicas, is_member, replicas_for};
use scylla_routing::routing::{NodeRef, RoutingInfo, Token};
use scylla_routing::topology::{
    ClusterData, DatacenterFactor, Keyspace, Node, ReplicationStrategy, RingEntry,
};

fn node(host_id: u128, datacenter: &str, rack: &str, is_up: bool) -> Node {
    Node {
        host_id,
        address: format!("10.0.0.{}", host_id),
        datacenter: Some(datacenter.to_string()),
        rack: Some(rack.to_string()),
        is_up,
    }
}

fn entry(token: i64, owner: usize) -> RingEntry {
    RingEntry { token: Token { value: token }, owner: NodeRef { index: owner } }
}

fn nodes() -> Vec<Node> {
    vec![
        node(10, "eu", "r1", true),
        node(11, "eu", "r2", true),
        node(12, "us", "r1", true),
        node(13, "us", "r1", false),
        node(14, "eu", "r1", true),
    ]
}

fn ring() -> Vec<RingEntry> {
    vec![entry(-100, 0), entry(0, 1), entry(100, 2), entry(200, 3), entry(300, 4), entry(400, 0)]
}

fn keyspaces() -> Vec<Keyspace> {
    vec![
        Keyspace {
            name: "simple2".to_string(),
            strategy: ReplicationStrategy::Simple { replication_factor: 2 },
        },
        Keyspace {
            name: "simple3".to_string(),
            strategy: ReplicationStrategy::Simple { replication_factor: 3 },
        },
        Keyspace {
            name: "nts".to_string(),
            strategy: ReplicationStrategy::NetworkTopology {
                datacenter_factors: vec![
                    DatacenterFactor { datacenter: "eu".to_string(), replication_factor: 1 },
                    DatacenterFactor { datacenter: "us".to_string(), replication_factor: 2 },
                ],
            },
        },
        Keyspace {
            name: "simple2".to_string(),
            strategy: ReplicationStrategy::Simple { replication_factor: 5 },
        },
    ]
}

fn cluster() -> ClusterData {
    ClusterData::new(nodes(), ring(), keyspaces()).unwrap()
}

fn indices(replicas: &[NodeRef]) -> Vec<usize> {
    replicas.iter().map(|r| r.index).collect()
}

fn query<'a>(token: Option<i64>, keyspace: Option<&'a str>) -> RoutingInfo<'a> {
    let mut info = RoutingInfo::default();
    info.token = token.map(|value| Token { value });
    info.keyspace = keyspace;
    info
}

#[test]
fn snapshot_accepts_a_sorted_ring() {
    let cluster = cluster();
    assert_eq!(cluster.num_nodes(), 5);
    assert_eq!(cluster.ring_len(), 6);
    assert_eq!(cluster.node(NodeRef { index: 2 }).unwrap().host_id, 12);
    assert!(cluster.node(NodeRef { index: 5 }).is_none());
    assert_eq!(cluster.ring_entry(5).unwrap().owner.index, 0);
    assert_eq!(cluster.ring_entry(5).unwrap().token.value, 400);
    assert!(cluster.ring_entry(6).is_none());
}

#[test]
fn snapshot_rejects_a_ring_out_of_order() {
    let ring = vec![entry(0, 0), entry(-1, 1)];
    assert!(ClusterData::new(nodes(), ring, Vec::new()).is_none());
}

#[test]
fn snapshot_rejects_a_token_that_occurs_twice() {
    let ring = vec![entry(0, 0), entry(0, 1)];
    assert!(ClusterData::new(nodes(), ring, Vec::new()).is_none());
}

#[test]
fn snapshot_rejects_an_owner_that_is_not_there() {
    let ring = vec![entry(0, 0), entry(1, 5)];
    assert!(ClusterData::new(nodes(), ring, Vec::new()).is_none());
    assert!(ClusterData::new(Vec::new(), vec![entry(0, 0)], Vec::new()).is_none());
}

#[test]
fn snapshot_rejects_a_host_id_that_occurs_twice() {
    let twice = vec![node(10, "eu", "r1", true), node(11, "eu", "r1", true), node(10, "us", "r2", false)];
    assert!(ClusterData::new(twice, Vec::new(), Vec::new()).is_none());
    let once = vec![node(10, "eu", "r1", true), node(11, "eu", "r1", true), node(12, "eu", "r1", true)];
    assert!(ClusterData::new(once, Vec::new(), Vec::new()).is_some());
}

#[test]
fn empty_snapshot_holds_nothing() {
    let cluster = ClusterData::empty();
    assert_eq!(cluster.num_nodes(), 0);
    assert_eq!(cluster.ring_len(), 0);
    assert!(cluster.ring_position(Token { value: 0 }).is_none());
    assert!(cluster.keyspace("simple2").is_none());
    assert!(cluster.node(NodeRef { index: 0 }).is_none());
    let built = ClusterData::new(Vec::new(), Vec::new(), Vec::new()).unwrap();
    assert_eq!(built.num_nodes(), 0);
}

#[test]
fn ring_position_finds_the_first_token_not_below() {
    let cluster = cluster();
    assert_eq!(cluster.ring_position(Token { value: 50 }), Some(2));
    assert_eq!(cluster.ring_position(Token { value: 100 }), Some(2));
    assert_eq!(cluster.ring_position(Token { value: 101 }), Some(3));
    assert_eq!(cluster.ring_position(Token { value: -100 }), Some(0));
    assert_eq!(cluster.ring_position(Token { value: 400 }), Some(5));
    assert_eq!(cluster.ring_position(Token { value: i64::MIN }), Some(0));
}

#[test]
fn ring_position_wraps_past_the_last_token() {
    let cluster = cluster();
    assert_eq!(cluster.ring_position(Token { value: 401 }), Some(0));
    assert_eq!(cluster.ring_position(Token { value: i64::MAX }), Some(0));
}

#[test]
fn ring_position_on_a_ring_of_one() {
    let cluster = ClusterData::new(nodes(), vec![entry(7, 3)], Vec::new()).unwrap();
    assert_eq!(cluster.ring_position(Token { value: 6 }), Some(0));
    assert_eq!(cluster.ring_position(Token { value: 7 }), Some(0));
    assert_eq!(cluster.ring_position(Token { value: 8 }), Some(0));
}

#[test]
fn keyspace_lookup_takes_the_first_of_a_name() {
    let cluster = cluster();
    let found = cluster.keyspace("simple2").unwrap();
    assert!(matches!(found.strategy, ReplicationStrategy::Simple { replication_factor: 2 }));
    assert!(matches!(
        cluster.keyspace("nts").unwrap().strategy,
        ReplicationStrategy::NetworkTopology { .. }
    ));
    assert!(cluster.keyspace("Simple2").is_none());
    assert!(cluster.keyspace("").is_none());
}

#[test]
fn node_knows_its_datacenter_and_rack() {
    let n = node(1, "eu", "r1", true);
    assert!(n.is_in_datacenter(&"eu".to_string()));
    assert!(!n.is_in_datacenter(&"us".to_string()));
    assert!(n.is_in_rack(&"r1".to_string()));
    assert!(!n.is_in_rack(&"r2".to_string()));
    let nowhere = Node {
        host_id: 2,
        address: String::new(),
        datacenter: None,
        rack: None,
        is_up: true,
    };
    assert!(!nowhere.is_in_datacenter(&"eu".to_string()));
    assert!(!nowhere.is_in_rack(&"r1".to_string()));
}

#[test]
fn simple_replicas_follow_the_ring() {
    let cluster = cluster();
    let three = ReplicationStrategy::Simple { replication_factor: 3 };
    assert_eq!(indices(&compute_replicas(&cluster, &three, Token { value: 50 })), vec![2, 3, 4]);
    let two = ReplicationStrategy::Simple { replication_factor: 2 };
    assert_eq!(indices(&compute_replicas(&cluster, &two, Token { value: 50 })), vec![2, 3]);
}

#[test]
fn simple_replicas_wrap_and_take_each_node_once() {
    let cluster = cluster();
    let three = ReplicationStrategy::Simple { replication_factor: 3 };
    assert_eq!(indices(&compute_replicas(&cluster, &three, Token { value: 350 })), vec![0, 1, 2]);
    assert_eq!(indices(&compute_replicas(&cluster, &three, Token { value: 500 })), vec![0, 1, 2]);
}

#[test]
fn simple_replicas_stop_at_the_number_of_nodes() {
    let cluster = cluster();
    let many = ReplicationStrategy::Simple { replication_factor: 9 };
    assert_eq!(
        indices(&compute_replicas(&cluster, &many, Token { value: 150 })),
        vec![3, 4, 0, 1, 2]
    );
    let none = ReplicationStrategy::Simple { replication_factor: 0 };
    assert!(compute_replicas(&cluster, &none, Token { value: 150 }).is_empty());
}

#[test]
fn network_topology_replicas_count_by_datacenter() {
    let cluster = cluster();
    let strategy = &cluster.keyspace("nts").unwrap().strategy;
    assert_eq!(indices(&compute_replicas(&cluster, strategy, Token { value: 50 })), vec![2, 3, 4]);
    assert_eq!(
        indices(&compute_replicas(&cluster, strategy, Token { value: -100 })),
        vec![0, 2, 3]
    );
}

#[test]
fn network_topology_leaves_out_unknown_datacenters() {
    let cluster = cluster();
    let strategy = ReplicationStrategy::NetworkTopology {
        datacenter_factors: vec![DatacenterFactor {
            datacenter: "asia".to_string(),
            replication_factor: 3,
        }],
    };
    assert!(compute_replicas(&cluster, &strategy, Token { value: 0 }).is_empty());
    let first_wins = ReplicationStrategy::NetworkTopology {
        datacenter_factors: vec![
            DatacenterFactor { datacenter: "us".to_string(), replication_factor: 1 },
            DatacenterFactor { datacenter: "us".to_string(), replication_factor: 2 },
        ],
    };
    assert_eq!(indices(&compute_replicas(&cluster, &first_wins, Token { value: 0 })), vec![2]);
}

#[test]
fn replicas_on_an_empty_ring_are_none() {
    let cluster = ClusterData::new(nodes(), Vec::new(), keyspaces()).unwrap();
    let three = ReplicationStrategy::Simple { replication_factor: 3 };
    assert!(compute_replicas(&cluster, &three, Token { value: 50 }).is_empty());
}

#[test]
fn replicas_for_an_intent() {
    let cluster = cluster();
    let found = replicas_for(&cluster, &query(Some(50), Some("simple3"))).unwrap();
    assert_eq!(indices(&found), vec![2, 3, 4]);
    let found = replicas_for(&cluster, &query(Some(50), Some("simple2"))).unwrap();
    assert_eq!(indices(&found), vec![2, 3]);
}

#[test]
fn replicas_for_an_intent_without_token_or_keyspace() {
    let cluster = cluster();
    assert!(replicas_for(&cluster, &query(None, Some("simple3"))).unwrap().is_empty());
    assert!(replicas_for(&cluster, &query(Some(50), None)).unwrap().is_empty());
    assert!(replicas_for(&cluster, &query(None, None)).unwrap().is_empty());
    assert!(replicas_for(&cluster, &query(None, Some("nope"))).unwrap().is_empty());
}

#[test]
fn replicas_for_an_unknown_keyspace() {
    let cluster = cluster();
    assert!(replicas_for(&cluster, &query(Some(50), Some("nope"))).is_none());
}

#[test]
fn membership_goes_by_the_index() {
    let chosen = vec![NodeRef { index: 3 }, NodeRef { index: 1 }];
    assert!(is_member(&chosen, NodeRef { index: 1 }));
    assert!(is_member(&chosen, NodeRef { index: 3 }));
    assert!(!is_member(&chosen, NodeRef { index: 0 }));
    assert!(!is_member(&Vec::new(), NodeRef { index: 0 }));
}

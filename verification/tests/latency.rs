use scylla_cql::errors::{
    BadQuery, DbError, OperationType, QueryError, TranslationError, WriteType,
};
use scylla_cql::frame::types::Consistency;
use scylla_routing::failure::{did_database_work, is_reliable_measure, to_sample};
use scylla_routing::latency::{
    LatencyAwareness, LatencyAwarenessBuilder, LatencyStat, LatencyTracker,
};
use scylla_routing::routing::{NodeRef, Token};
use scylla_routing::topology::{ClusterData, Node, RingEntry};

fn awareness() -> LatencyAwareness {
    LatencyAwareness {
        exclusion_threshold_percent: 200,
        cooldown: 1000,
        minimum_measurements: 2,
        history_weight_percent: 80,
        failure_limit: 2,
        recovery_successes: 3,
    }
}

fn stat(average: u64, measurements: u64, last_update: u64) -> LatencyStat {
    LatencyStat {
        average,
        measurements,
        last_update,
        successes_in_a_row: 0,
        failures_in_a_row: 0,
        penalized_until: None,
    }
}

fn member(host_id: u128) -> Node {
    Node { host_id, address: String::new(), datacenter: None, rack: None, is_up: true }
}

#[test]
fn builder_starts_from_the_defaults() {
    let built = LatencyAwarenessBuilder::new().build();
    assert_eq!(built.exclusion_threshold_percent, 200);
    assert_eq!(built.cooldown, 10000);
    assert_eq!(built.minimum_measurements, 50);
    assert_eq!(built.history_weight_percent, 80);
    assert_eq!(built.failure_limit, 3);
    assert_eq!(built.recovery_successes, 3);
}

#[test]
fn builder_sets_each_setting() {
    let built = LatencyAwarenessBuilder::new()
        .exclusion_threshold_percent(150)
        .cooldown(5)
        .minimum_measurements(7)
        .history_weight_percent(10)
        .failure_limit(4)
        .recovery_successes(6)
        .build();
    assert_eq!(built.exclusion_threshold_percent, 150);
    assert_eq!(built.cooldown, 5);
    assert_eq!(built.minimum_measurements, 7);
    assert_eq!(built.history_weight_percent, 10);
    assert_eq!(built.failure_limit, 4);
    assert_eq!(built.recovery_successes, 6);
    let one = LatencyAwarenessBuilder::new().cooldown(77).build();
    assert_eq!(one.cooldown, 77);
    assert_eq!(one.failure_limit, 3);
}

#[test]
fn first_sample_is_the_average() {
    let s = awareness().record_success(None, 1500, 40);
    assert_eq!(s.average, 1500);
    assert_eq!(s.measurements, 1);
    assert_eq!(s.last_update, 40);
    assert_eq!(s.successes_in_a_row, 1);
    assert_eq!(s.failures_in_a_row, 0);
    assert_eq!(s.penalized_until, None);
}

#[test]
fn later_samples_are_blended_by_weight() {
    let a = awareness();
    let s = a.record_success(Some(stat(1000, 1, 0)), 2000, 10);
    assert_eq!(s.average, 1200);
    assert_eq!(s.measurements, 2);
    assert_eq!(s.last_update, 10);
    let s = a.record_success(Some(s), 200, 20);
    assert_eq!(s.average, 1000);
    assert_eq!(s.measurements, 3);
    let s = a.record_success(Some(stat(1001, 5, 0)), 1002, 0);
    assert_eq!(s.average, 1001);
}

#[test]
fn weight_above_one_hundred_counts_as_one_hundred() {
    let mut a = awareness();
    a.history_weight_percent = 250;
    let s = a.record_success(Some(stat(1000, 1, 0)), 9000, 10);
    assert_eq!(s.average, 1000);
    a.history_weight_percent = 100;
    assert_eq!(a.record_success(Some(stat(1000, 1, 0)), 9000, 10).average, 1000);
    a.history_weight_percent = 0;
    assert_eq!(a.record_success(Some(stat(1000, 1, 0)), 9000, 10).average, 9000);
}

#[test]
fn blending_the_largest_values_does_not_overflow() {
    let a = awareness();
    let s = a.record_success(Some(stat(u64::MAX, u64::MAX, 0)), u64::MAX, 10);
    assert_eq!(s.average, u64::MAX);
    assert_eq!(s.measurements, u64::MAX);
    let s = a.record_failure(Some(stat(u64::MAX, 3, 0)), 0, 10);
    assert_eq!(s.average, u64::MAX);
}

#[test]
fn a_success_of_zero_is_folded_in() {
    let a = awareness();
    let s = a.record_success(Some(stat(1000, 4, 5)), 0, 99);
    assert_eq!(s.average, 800);
    assert_eq!(s.measurements, 5);
    assert_eq!(s.last_update, 99);
    assert_eq!(s.successes_in_a_row, 1);
    let s = a.record_success(None, 0, 7);
    assert_eq!(s.average, 0);
    assert_eq!(s.measurements, 1);
    assert_eq!(s.last_update, 7);
}

#[test]
fn a_failure_without_latency_leaves_the_average() {
    let a = awareness();
    let s = a.record_failure(Some(stat(1000, 4, 5)), 0, 99);
    assert_eq!(s.average, 1000);
    assert_eq!(s.measurements, 4);
    assert_eq!(s.last_update, 5);
    assert_eq!(s.failures_in_a_row, 1);
    let s = a.record_failure(None, 0, 99);
    assert_eq!(s.average, 0);
    assert_eq!(s.measurements, 0);
    assert_eq!(s.last_update, 99);
    assert_eq!(s.failures_in_a_row, 1);
    let s = a.record_failure(Some(s), 0, 100);
    assert_eq!(s.failures_in_a_row, 2);
    assert_eq!(s.penalized_until, Some(1100));
    assert_eq!(s.measurements, 0);
    let s = a.record_success(Some(s), 700, 100);
    assert_eq!(s.average, 700);
    assert_eq!(s.measurements, 1);
    let s = a.record_failure(Some(stat(1000, 4, 5)), 2000, 99);
    assert_eq!(s.average, 1200);
    assert_eq!(s.measurements, 5);
    assert_eq!(s.last_update, 99);
}

#[test]
fn failures_in_a_row_start_a_penalty() {
    let a = awareness();
    let s = a.record_failure(None, 500, 100);
    assert_eq!(s.failures_in_a_row, 1);
    assert_eq!(s.penalized_until, None);
    let s = a.record_failure(Some(s), 500, 130);
    assert_eq!(s.failures_in_a_row, 2);
    assert_eq!(s.successes_in_a_row, 0);
    assert_eq!(s.penalized_until, Some(1130));
    assert!(a.deprioritized(&s, None, 1129));
    assert!(!a.deprioritized(&s, None, 1130));
}

#[test]
fn a_success_breaks_a_run_of_failures() {
    let a = awareness();
    let s = a.record_failure(None, 500, 100);
    let s = a.record_success(Some(s), 500, 110);
    assert_eq!(s.failures_in_a_row, 0);
    let s = a.record_failure(Some(s), 500, 120);
    assert_eq!(s.failures_in_a_row, 1);
    assert_eq!(s.successes_in_a_row, 0);
    assert_eq!(s.penalized_until, None);
}

#[test]
fn successes_in_a_row_end_a_penalty() {
    let a = awareness();
    let mut s = stat(500, 9, 0);
    s.penalized_until = Some(5000);
    let s = a.record_success(Some(s), 500, 10);
    assert_eq!(s.penalized_until, Some(5000));
    let s = a.record_success(Some(s), 500, 20);
    assert_eq!(s.penalized_until, Some(5000));
    assert!(a.deprioritized(&s, None, 30));
    let s = a.record_success(Some(s), 500, 30);
    assert_eq!(s.successes_in_a_row, 3);
    assert_eq!(s.penalized_until, None);
    assert!(!a.deprioritized(&s, None, 30));
}

#[test]
fn a_penalty_deadline_stops_at_the_largest_time() {
    let a = awareness();
    let mut s = stat(500, 9, 0);
    s.failures_in_a_row = u32::MAX;
    let s = a.record_failure(Some(s), 500, u64::MAX - 10);
    assert_eq!(s.failures_in_a_row, u32::MAX);
    assert_eq!(s.penalized_until, Some(u64::MAX));
    let mut t = stat(500, 9, 0);
    t.successes_in_a_row = u32::MAX;
    assert_eq!(a.record_success(Some(t), 500, 1).successes_in_a_row, u32::MAX);
}

#[test]
fn a_statistic_is_reliable_while_fresh_and_well_founded() {
    let a = awareness();
    assert!(a.reliable(&stat(100, 2, 1000), 1999));
    assert!(!a.reliable(&stat(100, 2, 1000), 2000));
    assert!(!a.reliable(&stat(100, 1, 1000), 1000));
    assert!(a.reliable(&stat(100, 2, 1000), 900));
}

#[test]
fn a_node_is_slow_above_the_threshold() {
    let a = awareness();
    assert!(!a.deprioritized(&stat(2000, 2, 0), Some(1000), 10));
    assert!(a.deprioritized(&stat(2001, 2, 0), Some(1000), 10));
    assert!(!a.deprioritized(&stat(2001, 2, 0), None, 10));
    assert!(!a.deprioritized(&stat(2001, 1, 0), Some(1000), 10));
    assert!(!a.deprioritized(&stat(2001, 2, 0), Some(1000), 1000));
    assert!(a.deprioritized(&stat(u64::MAX, 2, 0), Some(u64::MAX / 2 - 1), 10));
    assert!(a.deprioritized(&stat(1, 2, 0), Some(0), 10));
}

#[test]
fn tracker_stores_and_finds() {
    let mut tracker = LatencyTracker::new();
    assert!(tracker.stat(5).is_none());
    tracker.store(5, stat(100, 1, 0));
    tracker.store(6, stat(200, 1, 0));
    tracker.store(5, stat(300, 2, 0));
    assert_eq!(tracker.stat(5).unwrap().average, 300);
    assert_eq!(tracker.stat(6).unwrap().average, 200);
    assert!(tracker.stat(7).is_none());
}

#[test]
fn tracker_forgets_the_nodes_that_left() {
    let mut tracker = LatencyTracker::new();
    tracker.store(1, stat(100, 1, 0));
    tracker.store(2, stat(200, 1, 0));
    tracker.store(3, stat(300, 1, 0));
    let ring = vec![RingEntry { token: Token { value: 0 }, owner: NodeRef { index: 0 } }];
    let cluster = ClusterData::new(vec![member(3), member(4), member(1)], ring, Vec::new());
    tracker.retain_members(&cluster.unwrap());
    assert_eq!(tracker.stat(1).unwrap().average, 100);
    assert!(tracker.stat(2).is_none());
    assert_eq!(tracker.stat(3).unwrap().average, 300);
    assert!(tracker.stat(4).is_none());
    tracker.retain_members(&ClusterData::empty());
    assert!(tracker.stat(1).is_none());
    assert!(tracker.stat(3).is_none());
}

#[test]
fn microseconds_are_held_at_the_largest_sample() {
    assert_eq!(to_sample(0), 0);
    assert_eq!(to_sample(12345), 12345);
    assert_eq!(to_sample(u64::MAX as u128), u64::MAX);
    assert_eq!(to_sample(u64::MAX as u128 + 1), u64::MAX);
    assert_eq!(to_sample(u128::MAX), u64::MAX);
}

fn database(cause: DbError) -> QueryError {
    QueryError::DbError(cause, "said the node".to_string())
}

#[test]
fn slow_failures_count_against_the_node() {
    assert!(is_reliable_measure(&QueryError::TimeoutError));
    assert!(is_reliable_measure(&QueryError::RequestTimeout("late".to_string())));
    assert!(is_reliable_measure(&QueryError::ProtocolError("unexpected")));
    assert!(is_reliable_measure(&QueryError::InvalidMessage("garbled".to_string())));
    assert!(is_reliable_measure(&QueryError::IoError(std::sync::Arc::new(
        std::io::Error::new(std::io::ErrorKind::Other, "broken")
    ))));
    assert!(is_reliable_measure(&database(DbError::ServerError)));
    assert!(is_reliable_measure(&database(DbError::ReadTimeout {
        consistency: Consistency::One,
        received: 0,
        required: 1,
        data_present: false,
    })));
}

#[test]
fn fast_failures_do_not_count_against_the_node() {
    assert!(!is_reliable_measure(&QueryError::BadQuery(BadQuery::Other("wrong".to_string()))));
    assert!(!is_reliable_measure(&QueryError::BadQuery(BadQuery::ValuesTooLongForKey(9, 8))));
    assert!(!is_reliable_measure(&QueryError::TooManyOrphanedStreamIds(3)));
    assert!(!is_reliable_measure(&QueryError::UnableToAllocStreamId));
    assert!(!is_reliable_measure(&QueryError::TranslationError(
        TranslationError::NoRuleForAddress
    )));
    assert!(!is_reliable_measure(&QueryError::TranslationError(
        TranslationError::InvalidAddressInRule
    )));
    assert!(!is_reliable_measure(&database(DbError::Overloaded)));
    assert!(!is_reliable_measure(&database(DbError::ConfigError)));
}

#[test]
fn database_errors_of_the_client_do_not_count() {
    assert!(!did_database_work(&DbError::SyntaxError));
    assert!(!did_database_work(&DbError::Invalid));
    assert!(!did_database_work(&DbError::AlreadyExists {
        keyspace: "ks".to_string(),
        table: "t".to_string(),
    }));
    assert!(!did_database_work(&DbError::AuthenticationError));
    assert!(!did_database_work(&DbError::Unauthorized));
    assert!(!did_database_work(&DbError::ConfigError));
}

#[test]
fn database_errors_answered_at_once_do_not_count() {
    assert!(!did_database_work(&DbError::Unavailable {
        consistency: Consistency::Quorum,
        required: 2,
        alive: 1,
    }));
    assert!(!did_database_work(&DbError::Overloaded));
    assert!(!did_database_work(&DbError::IsBootstrapping));
    assert!(!did_database_work(&DbError::Unprepared { statement_id: Default::default() }));
    assert!(!did_database_work(&DbError::RateLimitReached {
        op_type: OperationType::Read,
        rejected_by_coordinator: true,
    }));
}

#[test]
fn database_errors_after_work_count() {
    assert!(did_database_work(&DbError::FunctionFailure {
        keyspace: "ks".to_string(),
        function: "f".to_string(),
        arg_types: vec!["int".to_string()],
    }));
    assert!(did_database_work(&DbError::TruncateError));
    assert!(did_database_work(&DbError::ReadTimeout {
        consistency: Consistency::One,
        received: 0,
        required: 1,
        data_present: false,
    }));
    assert!(did_database_work(&DbError::WriteTimeout {
        consistency: Consistency::One,
        received: 0,
        required: 1,
        write_type: WriteType::Simple,
    }));
    assert!(did_database_work(&DbError::ReadFailure {
        consistency: Consistency::One,
        received: 0,
        required: 1,
        numfailures: 1,
        data_present: true,
    }));
    assert!(did_database_work(&DbError::WriteFailure {
        consistency: Consistency::One,
        received: 0,
        required: 1,
        numfailures: 1,
        write_type: WriteType::Batch,
    }));
    assert!(did_database_work(&DbError::ServerError));
    assert!(did_database_work(&DbError::ProtocolError));
    assert!(did_database_work(&DbError::Other(0x7777)));
}

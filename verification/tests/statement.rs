use scylla_cql::frame::types::{Consistency, SerialConsistency};
use scylla_routing::routing::{RoutingInfo, Token};
use scylla_routing::statement::{ExecutionProfile, HistoryListener, StatementConfig};
use std::sync::Arc;
use std::time::Duration;

struct Silent;

impl HistoryListener for Silent {
    fn log_query_start(&self) -> u64 {
        7
    }

    fn log_query_success(&self, _query_id: u64) {}

    fn log_query_error(&self, _query_id: u64) {}
}

#[test]
fn default_config_overrides_nothing() {
    let config = StatementConfig::default();
    assert!(config.consistency.is_none());
    assert!(config.serial_consistency.is_none());
    assert!(!config.is_idempotent);
    assert!(!config.tracing);
    assert!(config.timestamp.is_none());
    assert!(config.request_timeout.is_none());
    assert!(config.history_listener.is_none());
    assert!(config.execution_profile_handle.is_none());
}

#[test]
fn determine_consistency_prefers_the_override() {
    let mut config = StatementConfig::default();
    config.consistency = Some(Consistency::One);
    assert_eq!(config.determine_consistency(Consistency::Quorum), Consistency::One);
    config.consistency = Some(Consistency::LocalSerial);
    assert_eq!(config.determine_consistency(Consistency::One), Consistency::LocalSerial);
}

#[test]
fn determine_consistency_falls_back_to_the_default() {
    let config = StatementConfig::default();
    assert_eq!(config.determine_consistency(Consistency::Quorum), Consistency::Quorum);
    assert_eq!(config.determine_consistency(Consistency::All), Consistency::All);
}

#[test]
fn serial_consistency_is_tri_state() {
    let mut config = StatementConfig::default();
    let fallback = Some(SerialConsistency::LocalSerial);
    assert_eq!(config.determine_serial_consistency(fallback), fallback);
    assert_eq!(config.determine_serial_consistency(None), None);
    config.serial_consistency = Some(None);
    assert_eq!(config.determine_serial_consistency(fallback), None);
    config.serial_consistency = Some(Some(SerialConsistency::Serial));
    assert_eq!(config.determine_serial_consistency(fallback), Some(SerialConsistency::Serial));
}

#[test]
fn request_timeout_prefers_the_override() {
    let mut config = StatementConfig::default();
    let fallback = Some(Duration::from_secs(30));
    assert_eq!(config.determine_request_timeout(fallback), fallback);
    assert_eq!(config.determine_request_timeout(None), None);
    config.request_timeout = Some(Duration::from_millis(250));
    assert_eq!(config.determine_request_timeout(fallback), Some(Duration::from_millis(250)));
}

#[test]
fn clone_shares_the_listener_and_the_profile() {
    let listener: Arc<dyn HistoryListener> = Arc::new(Silent);
    let profile = Arc::new(ExecutionProfile {
        consistency: Consistency::Two,
        serial_consistency: None,
        request_timeout: Some(Duration::from_secs(1)),
    });
    let mut config = StatementConfig::default();
    config.consistency = Some(Consistency::Three);
    config.serial_consistency = Some(Some(SerialConsistency::Serial));
    config.is_idempotent = true;
    config.tracing = true;
    config.timestamp = Some(-42);
    config.request_timeout = Some(Duration::from_millis(5));
    config.history_listener = Some(listener.clone());
    config.execution_profile_handle = Some(profile.clone());

    let copy = config.clone();
    assert_eq!(copy.consistency, Some(Consistency::Three));
    assert_eq!(copy.serial_consistency, Some(Some(SerialConsistency::Serial)));
    assert!(copy.is_idempotent);
    assert!(copy.tracing);
    assert_eq!(copy.timestamp, Some(-42));
    assert_eq!(copy.request_timeout, Some(Duration::from_millis(5)));
    assert!(Arc::ptr_eq(copy.history_listener.as_ref().unwrap(), &listener));
    assert!(Arc::ptr_eq(copy.execution_profile_handle.as_ref().unwrap(), &profile));
    assert!(Arc::ptr_eq(
        copy.history_listener.as_ref().unwrap(),
        config.history_listener.as_ref().unwrap()
    ));
    assert_eq!(Arc::strong_count(&profile), 3);
    assert_eq!(copy.history_listener.as_ref().unwrap().log_query_start(), 7);
}

#[test]
fn clone_copies_the_scalar_fields() {
    let mut config = StatementConfig::default();
    config.is_idempotent = true;
    config.timestamp = Some(9);
    let mut copy = config.clone();
    copy.is_idempotent = false;
    copy.timestamp = None;
    copy.consistency = Some(Consistency::Any);
    assert!(config.is_idempotent);
    assert_eq!(config.timestamp, Some(9));
    assert!(config.consistency.is_none());
    assert!(!copy.is_idempotent);
}

#[test]
fn clone_of_an_empty_config_is_empty() {
    let copy = StatementConfig::default().clone();
    assert!(copy.history_listener.is_none());
    assert!(copy.execution_profile_handle.is_none());
    assert!(copy.consistency.is_none());
}

#[test]
fn routing_info_resolves_the_consistencies() {
    let mut config = StatementConfig::default();
    config.serial_consistency = Some(None);
    let info = config.routing_info(
        Consistency::EachQuorum,
        Some(SerialConsistency::LocalSerial),
        Some(Token { value: -5 }),
        Some("ks"),
        true,
    );
    assert_eq!(info.consistency, Consistency::EachQuorum);
    assert_eq!(info.serial_consistency, None);
    assert_eq!(info.token, Some(Token { value: -5 }));
    assert_eq!(info.keyspace, Some("ks"));
    assert!(info.is_confirmed_lwt);

    config.consistency = Some(Consistency::One);
    config.serial_consistency = None;
    let info = config.routing_info(
        Consistency::EachQuorum,
        Some(SerialConsistency::LocalSerial),
        None,
        None,
        false,
    );
    assert_eq!(info.consistency, Consistency::One);
    assert_eq!(info.serial_consistency, Some(SerialConsistency::LocalSerial));
    assert!(info.token.is_none());
    assert!(info.keyspace.is_none());
    assert!(!info.is_confirmed_lwt);
}

#[test]
fn default_routing_info_has_no_preference() {
    let info = RoutingInfo::default();
    assert_eq!(info.consistency, Consistency::default());
    assert_eq!(info.consistency, Consistency::LocalQuorum);
    assert!(info.serial_consistency.is_none());
    assert!(info.token.is_none());
    assert!(info.keyspace.is_none());
    assert!(!info.is_confirmed_lwt);
}

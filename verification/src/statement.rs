//! Per-statement overrides and the resolution of effective values.

use crate::routing::{RoutingInfo, Token};
use scylla_cql::frame::types::{Consistency, SerialConsistency};
use std::sync::Arc;
use std::time::Duration;
use vstd::prelude::*;

verus! {

/// An observer of statement executions. The library only carries it; what it
/// records is the business of whoever implements it.
pub trait HistoryListener {
    /// A new execution begins; the result identifies it in later calls.
    fn log_query_start(&self) -> u64;

    /// The execution `query_id` has ended well.
    fn log_query_success(&self, query_id: u64);

    /// The execution `query_id` has failed.
    fn log_query_error(&self, query_id: u64);
}

/// A named bundle of driver-wide defaults.
pub struct ExecutionProfile {
    pub consistency: Consistency,
    pub serial_consistency: Option<SerialConsistency>,
    pub request_timeout: Option<Duration>,
}

/// A shared handle to an execution profile.
pub type ExecutionProfileHandle = Arc<ExecutionProfile>;

/// `Clone::clone` of std on an optional `Arc`: where there is a handle, a
/// second one to the same allocation, so the value behind it is the one
/// behind the first.
#[verifier::external_body]
pub(crate) fn share<T: ?Sized>(handle: &Option<Arc<T>>) -> (r: Option<Arc<T>>)
    ensures
        r == *handle,
{
    handle.clone()
}

/// The overrides that one statement carries.
pub struct StatementConfig {
    pub consistency: Option<Consistency>,
    /// Unset (`None`), explicitly none (`Some(None)`) or a level.
    pub serial_consistency: Option<Option<SerialConsistency>>,
    pub is_idempotent: bool,
    pub tracing: bool,
    pub timestamp: Option<i64>,
    pub request_timeout: Option<Duration>,
    pub history_listener: Option<Arc<dyn HistoryListener>>,
    pub execution_profile_handle: Option<ExecutionProfileHandle>,
}

impl Default for StatementConfig {
    /// The configuration that overrides nothing.
    fn default() -> (r: Self)
        ensures
            r.consistency is None,
            r.serial_consistency is None,
            !r.is_idempotent,
            !r.tracing,
            r.timestamp is None,
            r.request_timeout is None,
            r.history_listener is None,
            r.execution_profile_handle is None,
    {
        StatementConfig {
            consistency: None,
            serial_consistency: None,
            is_idempotent: false,
            tracing: false,
            timestamp: None,
            request_timeout: None,
            history_listener: None,
            execution_profile_handle: None,
        }
    }
}

impl Clone for StatementConfig {
    /// Copies the scalar fields and shares the listener and the profile.
    fn clone(&self) -> (r: Self)
        ensures
            r == *self,
    {
        StatementConfig {
            consistency: self.consistency,
            serial_consistency: self.serial_consistency,
            is_idempotent: self.is_idempotent,
            tracing: self.tracing,
            timestamp: self.timestamp,
            request_timeout: self.request_timeout,
            history_listener: share(&self.history_listener),
            execution_profile_handle: share(&self.execution_profile_handle),
        }
    }
}

impl StatementConfig {
    /// The consistency that the statement runs with, as a function of the
    /// override and the driver's default.
    pub open spec fn spec_consistency(&self, default_consistency: Consistency) -> Consistency {
        match self.consistency {
            Some(c) => c,
            None => default_consistency,
        }
    }

    /// The serial consistency that the statement runs with: an explicit
    /// choice, be it none, wins over the default.
    pub open spec fn spec_serial_consistency(
        &self,
        default_serial: Option<SerialConsistency>,
    ) -> Option<SerialConsistency> {
        match self.serial_consistency {
            Some(choice) => choice,
            None => default_serial,
        }
    }

    /// The request timeout that the statement runs with.
    pub open spec fn spec_request_timeout(&self, default_timeout: Option<Duration>) -> Option<
        Duration,
    > {
        match self.request_timeout {
            Some(t) => Some(t),
            None => default_timeout,
        }
    }

    /// Determines the consistency of a query: the statement's own where it
    /// has one, else the default given.
    #[must_use]
    pub fn determine_consistency(&self, default_consistency: Consistency) -> (r: Consistency)
        ensures
            r == self.spec_consistency(default_consistency),
            self.consistency is Some ==> Some(r) == self.consistency,
            self.consistency is None ==> r == default_consistency,
    {
        match self.consistency {
            Some(c) => c,
            None => default_consistency,
        }
    }

    /// Determines the serial consistency of a query.
    #[must_use]
    pub fn determine_serial_consistency(&self, default_serial: Option<SerialConsistency>) -> (r:
        Option<SerialConsistency>)
        ensures
            r == self.spec_serial_consistency(default_serial),
    {
        match self.serial_consistency {
            Some(choice) => choice,
            None => default_serial,
        }
    }

    /// Determines the request timeout of a query.
    #[must_use]
    pub fn determine_request_timeout(&self, default_timeout: Option<Duration>) -> (r: Option<
        Duration,
    >)
        ensures
            r == self.spec_request_timeout(default_timeout),
    {
        match self.request_timeout {
            Some(t) => Some(t),
            None => default_timeout,
        }
    }

    /// The routing intent of one execution of the statement: the resolved
    /// consistencies, and what the caller knows of the partition.
    pub fn routing_info<'a>(
        &self,
        default_consistency: Consistency,
        default_serial: Option<SerialConsistency>,
        token: Option<Token>,
        keyspace: Option<&'a str>,
        is_confirmed_lwt: bool,
    ) -> (r: RoutingInfo<'a>)
        ensures
            r.consistency == self.spec_consistency(default_consistency),
            r.serial_consistency == self.spec_serial_consistency(default_serial),
            r.token == token,
            r.keyspace == keyspace,
            r.is_confirmed_lwt == is_confirmed_lwt,
    {
        RoutingInfo {
            consistency: self.determine_consistency(default_consistency),
            serial_consistency: self.determine_serial_consistency(default_serial),
            token,
            keyspace,
            is_confirmed_lwt,
        }
    }
}

} // verus!

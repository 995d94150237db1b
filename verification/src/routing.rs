//! The per-query routing intent and the handles it is answered with.

use scylla_cql::frame::types::{Consistency, SerialConsistency};
use vstd::prelude::*;

verus! {

/// The consistency levels of the wire protocol, as `scylla_cql` defines them.
#[verifier::external_type_specification]
pub struct ExConsistency(Consistency);

/// The serial consistency levels of the wire protocol, as `scylla_cql` defines them.
#[verifier::external_type_specification]
pub struct ExSerialConsistency(SerialConsistency);

/// A position on the consistent-hash ring.
#[derive(Clone, Copy, Debug, PartialEq, Eq, Structural)]
pub struct Token {
    pub value: i64,
}

/// A handle to one node of one topology snapshot: its index in the snapshot's
/// node list. It means nothing outside the snapshot it was issued for.
#[derive(Clone, Copy, Debug, PartialEq, Eq, Structural)]
pub struct NodeRef {
    pub index: usize,
}

/// What a statement tells the load-balancing policy about itself.
#[derive(Clone, Copy, Debug)]
pub struct RoutingInfo<'a> {
    /// The consistency that the statement will be executed with.
    pub consistency: Consistency,
    pub serial_consistency: Option<SerialConsistency>,
    /// The token of the partition key; absent where the statement has none.
    pub token: Option<Token>,
    pub keyspace: Option<&'a str>,
    /// Set where the cluster has confirmed that the statement is a
    /// lightweight transaction: its replicas are then tried in a fixed order.
    pub is_confirmed_lwt: bool,
}

/// `Consistency::default()` of `scylla_cql`: the variant that the crate marks
/// as the default one, `LocalQuorum`.
#[verifier::external_body]
pub(crate) fn default_consistency() -> (c: Consistency)
    ensures
        c == Consistency::LocalQuorum,
{
    Consistency::default()
}

impl<'a> RoutingInfo<'a> {
    /// Whether the intent carries what token-aware routing needs.
    pub open spec fn is_token_aware(&self) -> bool {
        self.token is Some && self.keyspace is Some
    }
}

impl<'a> Default for RoutingInfo<'a> {
    /// The intent without any routing preference.
    fn default() -> (r: Self)
        ensures
            r.consistency == Consistency::LocalQuorum,
            r.serial_consistency is None,
            r.token is None,
            r.keyspace is None,
            !r.is_confirmed_lwt,
    {
        RoutingInfo {
            consistency: default_consistency(),
            serial_consistency: None,
            token: None,
            keyspace: None,
            is_confirmed_lwt: false,
        }
    }
}

} // verus!

//! What kind of failure an attempt ended with, and whether the time it took
//! says anything about the node.

use scylla_cql::errors::{
    BadQuery, DbError, OperationType, QueryError, TranslationError, WriteType,
};
use scylla_cql::macros::Bytes;
use std::time::Duration;
use vstd::prelude::*;

verus! {

/// The error of a failed query, as `scylla_cql` defines it.
#[verifier::external_type_specification]
pub struct ExQueryError(QueryError);

/// The error that the database answered with, as `scylla_cql` defines it.
#[verifier::external_type_specification]
pub struct ExDbError(DbError);

/// The kind of write that a database error speaks of.
#[verifier::external_type_specification]
pub struct ExWriteType(WriteType);

/// The kind of operation that a rate limit rejected.
#[verifier::external_type_specification]
pub struct ExOperationType(OperationType);

/// Why no address could be found for a node.
#[verifier::external_type_specification]
pub struct ExTranslationError(TranslationError);

/// What was wrong with a query before it was sent. Nothing here looks into
/// it.
#[verifier::external_type_specification]
#[verifier::external_body]
pub struct ExBadQuery(BadQuery);

/// The byte string of the `bytes` crate, as `scylla_cql` hands it on.
/// Nothing here looks into it.
#[verifier::external_type_specification]
#[verifier::external_body]
pub struct ExBytes(Bytes);

/// The error of std's input and output. Nothing here looks into it.
#[verifier::external_type_specification]
#[verifier::external_body]
pub struct ExIoError(std::io::Error);

/// The whole microseconds of a duration, as `Duration::as_micros` of std
/// gives them.
pub uninterp spec fn duration_micros(latency: Duration) -> u128;

/// `Duration::as_micros` of std.
#[verifier::external_body]
pub(crate) fn as_micros(latency: Duration) -> (r: u128)
    ensures
        r == duration_micros(latency),
{
    latency.as_micros()
}

/// A number of microseconds as a sample: held at the largest `u64`.
pub open spec fn sample_of(micros: u128) -> u64 {
    if micros > u64::MAX {
        u64::MAX
    } else {
        micros as u64
    }
}

/// Computes `sample_of`.
pub fn to_sample(micros: u128) -> (r: u64)
    ensures
        r == sample_of(micros),
{
    if micros > u64::MAX as u128 {
        u64::MAX
    } else {
        micros as u64
    }
}

/// Whether an error of the database came after the node had worked on the
/// query. It did not where the query or the client's settings were at
/// fault, nor where the node said at once that it could not serve.
pub open spec fn database_worked(error: DbError) -> bool {
    match error {
        DbError::SyntaxError => false,
        DbError::Invalid => false,
        DbError::AlreadyExists { .. } => false,
        DbError::AuthenticationError => false,
        DbError::Unauthorized => false,
        DbError::ConfigError => false,
        DbError::Unavailable { .. } => false,
        DbError::Overloaded => false,
        DbError::IsBootstrapping => false,
        DbError::Unprepared { .. } => false,
        DbError::RateLimitReached { .. } => false,
        DbError::FunctionFailure { .. } => true,
        DbError::TruncateError => true,
        DbError::ReadTimeout { .. } => true,
        DbError::WriteTimeout { .. } => true,
        DbError::ReadFailure { .. } => true,
        DbError::WriteFailure { .. } => true,
        DbError::ServerError => true,
        DbError::ProtocolError => true,
        DbError::Other(_) => true,
    }
}

/// Whether the time that a failed attempt took counts against the node. It
/// does where the failure came after the node had worked on the query, as a
/// timeout does; it does not where the failure came at once or lay with the
/// client, as for a query that was wrong from the start.
pub open spec fn counts_against_latency(error: QueryError) -> bool {
    match error {
        QueryError::DbError(cause, _) => database_worked(cause),
        QueryError::BadQuery(_) => false,
        QueryError::TooManyOrphanedStreamIds(_) => false,
        QueryError::UnableToAllocStreamId => false,
        QueryError::TranslationError(_) => false,
        QueryError::IoError(_) => true,
        QueryError::ProtocolError(_) => true,
        QueryError::InvalidMessage(_) => true,
        QueryError::TimeoutError => true,
        QueryError::RequestTimeout(_) => true,
    }
}

/// Decides `database_worked`.
pub fn did_database_work(error: &DbError) -> (r: bool)
    ensures
        r == database_worked(*error),
{
    match error {
        DbError::SyntaxError => false,
        DbError::Invalid => false,
        DbError::AlreadyExists { .. } => false,
        DbError::AuthenticationError => false,
        DbError::Unauthorized => false,
        DbError::ConfigError => false,
        DbError::Unavailable { .. } => false,
        DbError::Overloaded => false,
        DbError::IsBootstrapping => false,
        DbError::Unprepared { .. } => false,
        DbError::RateLimitReached { .. } => false,
        DbError::FunctionFailure { .. } => true,
        DbError::TruncateError => true,
        DbError::ReadTimeout { .. } => true,
        DbError::WriteTimeout { .. } => true,
        DbError::ReadFailure { .. } => true,
        DbError::WriteFailure { .. } => true,
        DbError::ServerError => true,
        DbError::ProtocolError => true,
        DbError::Other(_) => true,
    }
}

/// Decides `counts_against_latency`.
pub fn is_reliable_measure(error: &QueryError) -> (r: bool)
    ensures
        r == counts_against_latency(*error),
{
    match error {
        QueryError::DbError(cause, _) => did_database_work(cause),
        QueryError::BadQuery(_) => false,
        QueryError::TooManyOrphanedStreamIds(_) => false,
        QueryError::UnableToAllocStreamId => false,
        QueryError::TranslationError(_) => false,
        QueryError::IoError(_) => true,
        QueryError::ProtocolError(_) => true,
        QueryError::InvalidMessage(_) => true,
        QueryError::TimeoutError => true,
        QueryError::RequestTimeout(_) => true,
    }
}

} // verus!

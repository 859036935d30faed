use vstd::prelude::*;

verus! {

/// What can go wrong while talking to the repository.
#[derive(Debug, Clone, PartialEq, Eq)]
pub enum ClientError {
    /// The connection failed or timed out.
    NetworkError,
    /// The service answered with a status outside 2xx that no other kind covers.
    HttpError { status: u16 },
    /// A body was not well-formed JSON, or not shaped as expected.
    DecodeError,
    /// A response broke the protocol's structural expectations.
    ProtocolError,
    /// The search session is unknown to the service or has expired.
    SessionNotFound,
    /// The service refused the query (a 4xx answer to search creation).
    QueryRejected { status: u16 },
    /// The service failed while creating a search (a 5xx answer).
    ServiceUnavailable { status: u16 },
    /// The caller's record handler reported a failure.
    HandlerFailure { message: String },
}

} // verus!

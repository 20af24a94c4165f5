//! The error kinds that the runtime's components report.
use vstd::prelude::*;

verus! {

/// Every failure the runtime distinguishes.
///
/// Handler failures are logged and swallowed by the embedding server loop;
/// only `TxnConflict` is ever reported to a client on the wire.
#[derive(Clone, Copy, PartialEq, Eq, Structural, Debug)]
pub enum Error {
    /// The bootstrap handshake saw a malformed or misaddressed init request.
    InitFailed,
    /// An outbound frame could not be encoded.
    SerializationFailed,
    /// An inbound line could not be decoded.
    DeserializationFailed,
    /// A request named the sending node itself as its destination.
    SendToSelf,
    /// A pending request saw no response within its TTL.
    Timeout,
    /// Every attempt of a retried request timed out.
    RetriesExhausted,
    /// A response arrived for a message id with no pending slot.
    UnknownCorrelation,
    /// The `lin-kv` service answered outside its protocol.
    UnexpectedResponse,
    /// A topology update carried no entry for this node.
    MissingSelfTopology,
    /// A transaction lost the root compare-and-swap on every attempt.
    TxnConflict,
    /// A request unexpectedly carried a correlation id.
    UnexpectedInReplyTo,
    /// A response carried no correlation id.
    MissingInReplyTo,
    /// An append operation arrived without a value to append.
    MissingAppendValue,
}

} // verus!

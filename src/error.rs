//! The engine's error taxonomy.
use vstd::prelude::*;

verus! {

#[derive(Clone, Copy, Debug, PartialEq, Eq, Structural)]
pub enum ProtocolError {
    /// A PDU whose declared length disagrees with its bytes, an unknown PDU
    /// type, or fragments out of order.
    MalformedPdu,
    /// The stream closed before the last fragment of a message.
    IncompleteMessage,
    /// The peer answered A-ASSOCIATE-RJ, or could not be reached.
    AssociationRejected,
    /// The association is not in the Established state.
    NotEstablished,
    /// No accepted presentation context covers the abstract syntax.
    ContextNotNegotiated,
    /// A wait ran past its deadline.
    Timeout,
    /// The peer sent A-ABORT.
    PeerAborted,
    /// A command field that the receiver does not implement.
    UnrecognizedOperation,
    /// The dataset collaborator failed to read or write.
    IoError,
}

} // verus!

//! Error values reported by the engine and by the protocol logic.

use crate::response::Response;
use vstd::prelude::*;

verus! {

/// A bad input handed to the number-theoretic engine.
#[derive(Debug, Clone, Copy, PartialEq, Eq, Structural)]
pub enum DomainError {
    /// A greatest common divisor was asked of zero.
    ZeroOperand,
    /// The modulus is so large that squaring a residue leaves 64 bits.
    ModulusTooLarge,
    /// A walk was asked for its solution before tortoise and hare met.
    NotConverged,
}

/// A wire form that the protocol does not admit.
#[derive(Debug, Clone, Copy, PartialEq, Eq, Structural)]
pub enum ProtocolError {
    /// The first byte of a frame names no variant.
    UnknownTag { tag: u8 },
}

/// Why a task of the server gives up.
#[derive(Debug, PartialEq)]
pub enum ServerError {
    /// An event names a peer that the registry does not hold.
    IllegalState { peer_id: u128 },
    /// The broker left a response on a peer's queue that is not for the
    /// writer to send.
    IllegalResponse { peer_id: u128, response: Response },
    /// A peer's queue was closed while its connection still stood.
    ChannelReceive { peer_id: u128 },
}

} // verus!

//! What the tasks of a connection report to the broker.

use vstd::prelude::*;

verus! {

/// An event on a connection. A peer is known by the 128 bits of the
/// identifier that it was given when it connected; `T` is the sending end of
/// the queue on which responses for the peer are left.
#[derive(Debug)]
pub enum Event<T> {
    /// A client has connected, and responses for it go to `endpoint`.
    NewClient { peer_id: u128, endpoint: T },
    /// The client asks for the logarithm of `h` to the base `g` modulo `p`.
    Log { peer_id: u128, g: u64, h: u64, p: u64 },
    /// The client asks for a divisor of `n`.
    RSA { peer_id: u128, n: u64 },
    /// The client asks whether `p` is prime.
    Prime { peer_id: u128, p: u64 },
    /// The client takes its leave.
    Quit { peer_id: u128 },
}

impl<T> Event<T> {
    /// The peer that the event is about.
    pub open spec fn peer(self) -> u128 {
        match self {
            Event::NewClient { peer_id, .. } => peer_id,
            Event::Log { peer_id, .. } => peer_id,
            Event::RSA { peer_id, .. } => peer_id,
            Event::Prime { peer_id, .. } => peer_id,
            Event::Quit { peer_id } => peer_id,
        }
    }
}

} // verus!

//! The broker: the one owner of the registry of connected peers. It takes
//! the events of all connections in turn and decides what is left on which
//! peer's queue.

use crate::algo::dlog::{DLogView, PollardsLog};
use crate::algo::factor::{FactorView, PollardsRSAFact};
use crate::error::ServerError;
use crate::event::Event;
use crate::response::Response;
use std::collections::HashMap;
use vstd::prelude::*;

verus! {

broadcast use vstd::std_specs::hash::group_hash_axioms;

/// The bits of the binary32 nearest to `1 - 0.25^20`, the confidence in a
/// number that twenty witnesses could not prove composite. The nearest
/// binary32 is 1 itself.
pub const CONFIDENCE_BITS: u32 = 0x3f80_0000;

/// What the broker asks of its host after an event.
#[derive(Debug, PartialEq)]
pub enum Action {
    /// Leave `response` on the queue of `peer_id`.
    Send { peer_id: u128, response: Response },
    /// Test `p`, which is at least 3, for primality away from the tasks that
    /// serve connections, and leave the verdict on the queue of `peer_id`.
    TestPrime { peer_id: u128, p: u64 },
    /// Nothing but a note in the log.
    Nothing,
}

/// The registry after an event: a new client enters it, and nothing else
/// changes it.
pub open spec fn registry_after<T>(registry: Map<u128, T>, event: Event<T>) -> Map<u128, T> {
    match event {
        Event::NewClient { peer_id, endpoint } => registry.insert(peer_id, endpoint),
        _ => registry,
    }
}

/// `r` is the broker's decision on `event` with the given registry.
///
/// A new client is greeted. Every other event must name a registered peer. A
/// number below 3 is answered at once, for it has no witnesses to draw; any
/// other goes to the test. A logarithm and a factorization are answered with
/// a walk at its start, or, where the modulus admits no walk, with the
/// response that no result was found.
pub open spec fn decides<T>(
    registry: Map<u128, T>,
    event: Event<T>,
    r: Result<Action, ServerError>,
) -> bool {
    match event {
        Event::NewClient { peer_id, .. } => r == Ok::<Action, ServerError>(
            Action::Send { peer_id, response: Response::ConnectionOk },
        ),
        _ => if !registry.contains_key(event.peer()) {
            r == Err::<Action, ServerError>(ServerError::IllegalState { peer_id: event.peer() })
        } else {
            match event {
                Event::Prime { peer_id, p } => r == Ok::<Action, ServerError>(
                    if p < 2 {
                        Action::Send { peer_id, response: Response::NotPrime { p } }
                    } else if p == 2 {
                        Action::Send {
                            peer_id,
                            response: Response::Prime { p, prob_bits: CONFIDENCE_BITS },
                        }
                    } else {
                        Action::TestPrime { peer_id, p }
                    },
                ),
                Event::Log { peer_id, g, h, p } => if p < 2 {
                    r == Ok::<Action, ServerError>(
                        Action::Send { peer_id, response: Response::UnsuccessfulLog { g, h, p } },
                    )
                } else {
                    r matches Ok(Action::Send { peer_id: to, response: Response::Log { pollards } })
                        && to == peer_id && pollards@ == (DLogView {
                        p: p as int,
                        g: g as int,
                        h: h as int,
                        i: 0,
                    })
                },
                Event::RSA { peer_id, n } => if n < 1 || (n - 1) * (n - 1) > u64::MAX {
                    r == Ok::<Action, ServerError>(
                        Action::Send { peer_id, response: Response::UnsuccessfulRSA { n } },
                    )
                } else {
                    r matches Ok(Action::Send { peer_id: to, response: Response::RSA { pollards } })
                        && to == peer_id && pollards@ == (FactorView {
                        n: n as int,
                        i: 0,
                        factor: None,
                    })
                },
                Event::Quit { .. } => r == Ok::<Action, ServerError>(Action::Nothing),
                Event::NewClient { .. } => true,
            }
        },
    }
}

/// The response that reports the verdict of a primality test on `p`.
pub open spec fn verdict_response(p: u64, prime: bool) -> Response {
    if prime {
        Response::Prime { p, prob_bits: CONFIDENCE_BITS }
    } else {
        Response::NotPrime { p }
    }
}

/// The registry of connected peers, each with the sending end of its queue.
pub struct Broker<T> {
    clients: HashMap<u128, T>,
}

impl<T> View for Broker<T> {
    type V = Map<u128, T>;

    closed spec fn view(&self) -> Map<u128, T> {
        self.clients@
    }
}

impl<T> Broker<T> {
    /// A broker that knows no peer.
    pub fn new() -> (broker: Broker<T>)
        ensures
            broker@ == Map::<u128, T>::empty(),
    {
        Broker { clients: HashMap::new() }
    }

    /// The number of registered peers.
    pub fn len(&self) -> (n: usize)
        ensures
            n == self@.len(),
    {
        self.clients.len()
    }

    /// The sending end of the queue of `peer_id`, if the peer is registered.
    pub fn endpoint(&self, peer_id: u128) -> (r: Option<&T>)
        ensures
            r matches Some(endpoint) ==> self@.contains_key(peer_id) && *endpoint == self@[peer_id],
            r is None ==> !self@.contains_key(peer_id),
    {
        self.clients.get(&peer_id)
    }

    /// Takes one event and decides on it. A new client is entered in the
    /// registry, over an entry that held its identifier before; no other
    /// event changes the registry, and each of them is an error unless its
    /// peer is registered.
    pub fn handle(&mut self, event: Event<T>) -> (r: Result<Action, ServerError>)
        ensures
            final(self)@ == registry_after(old(self)@, event),
            decides(old(self)@, event, r),
    {
        match event {
            Event::NewClient { peer_id, endpoint } => {
                self.clients.insert(peer_id, endpoint);
                Ok(Action::Send { peer_id, response: Response::ConnectionOk })
            },
            Event::Prime { peer_id, p } => {
                if !self.clients.contains_key(&peer_id) {
                    return Err(ServerError::IllegalState { peer_id });
                }
                if p < 2 {
                    Ok(Action::Send { peer_id, response: Response::NotPrime { p } })
                } else if p == 2 {
                    Ok(
                        Action::Send {
                            peer_id,
                            response: Response::Prime { p, prob_bits: CONFIDENCE_BITS },
                        },
                    )
                } else {
                    Ok(Action::TestPrime { peer_id, p })
                }
            },
            Event::Log { peer_id, g, h, p } => {
                if !self.clients.contains_key(&peer_id) {
                    return Err(ServerError::IllegalState { peer_id });
                }
                if p < 2 {
                    Ok(Action::Send { peer_id, response: Response::UnsuccessfulLog { g, h, p } })
                } else {
                    let pollards = PollardsLog::new(p, g, h);
                    Ok(Action::Send { peer_id, response: Response::Log { pollards } })
                }
            },
            Event::RSA { peer_id, n } => {
                if !self.clients.contains_key(&peer_id) {
                    return Err(ServerError::IllegalState { peer_id });
                }
                if n < 1 {
                    return Ok(
                        Action::Send { peer_id, response: Response::UnsuccessfulRSA { n } },
                    );
                }
                match PollardsRSAFact::new(n) {
                    Ok(pollards) => Ok(
                        Action::Send { peer_id, response: Response::RSA { pollards } },
                    ),
                    Err(_) => Ok(
                        Action::Send { peer_id, response: Response::UnsuccessfulRSA { n } },
                    ),
                }
            },
            Event::Quit { peer_id } => {
                if !self.clients.contains_key(&peer_id) {
                    return Err(ServerError::IllegalState { peer_id });
                }
                Ok(Action::Nothing)
            },
        }
    }

    /// Removes a peer whose connection has ended and hands back the sending
    /// end of its queue. Whatever the outcome, the registry holds no entry
    /// for the peer afterwards; a peer that it did not hold is an error.
    pub fn harvest(&mut self, peer_id: u128) -> (r: Result<T, ServerError>)
        ensures
            !final(self)@.contains_key(peer_id),
            final(self)@ == old(self)@.remove(peer_id),
            old(self)@.contains_key(peer_id) ==> r == Ok::<T, ServerError>(old(self)@[peer_id]),
            !old(self)@.contains_key(peer_id) ==> r == Err::<T, ServerError>(
                ServerError::IllegalState { peer_id },
            ),
    {
        match self.clients.remove(&peer_id) {
            Some(endpoint) => Ok(endpoint),
            None => Err(ServerError::IllegalState { peer_id }),
        }
    }
}

/// The response that reports the verdict of a primality test on `p`: prime,
/// with the confidence that twenty witnesses give, or not prime.
pub fn prime_response(p: u64, prime: bool) -> (response: Response)
    ensures
        response == verdict_response(p, prime),
{
    if prime {
        Response::Prime { p, prob_bits: CONFIDENCE_BITS }
    } else {
        Response::NotPrime { p }
    }
}

} // verus!

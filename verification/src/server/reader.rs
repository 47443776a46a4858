//! The task that reads a connection: it gives the peer its identifier, then
//! turns each frame that arrives into an event for the broker, until the frame
//! that takes leave.

use crate::codec::BytesDeser;
use crate::error::ProtocolError;
use crate::event::Event;
use crate::frame::{Frame, FrameSerTag};
use vstd::prelude::*;

verus! {

/// The identifier is one of version 4 in the variant of RFC 4122: the four
/// bits from bit 76 hold 4, the two highest bits of the lower half hold `10`.
pub open spec fn is_random_id(id: u128) -> bool {
    (id >> 76) & 0xf == 4 && (id >> 62) & 0x3 == 2
}

/// A fresh identifier: `uuid::Uuid::new_v4`, read by `Uuid::as_u128`. The
/// bits are random but for those that mark version and variant, which is all
/// that is claimed of them.
#[verifier::external_body]
fn mint_peer_id() -> (id: u128)
    ensures
        is_random_id(id),
{
    uuid::Uuid::new_v4().as_u128()
}

/// The event that a frame from the peer `peer_id` stands for. The exponent
/// of a public key stays behind: the server factors the modulus alone.
pub open spec fn event_of<T>(peer_id: u128, frame: Frame) -> Event<T> {
    match frame {
        Frame::Log { g, h, p } => Event::Log { peer_id, g, h, p },
        Frame::RSA { n, .. } => Event::RSA { peer_id, n },
        Frame::Prime { p } => Event::Prime { peer_id, p },
        Frame::Quit => Event::Quit { peer_id },
    }
}

/// What the reader does with the 25 bytes `tag`: the event to report and
/// whether the reader goes on reading, or the refusal of the bytes.
pub open spec fn reads<T>(peer_id: u128, tag: Seq<u8>) -> Result<(Event<T>, bool), ProtocolError> {
    match Frame::parse(tag) {
        Ok(frame) => Ok((event_of(peer_id, frame), frame != Frame::Quit)),
        Err(e) => Err(e),
    }
}

/// Opens the reader's side of a connection: gives the peer a fresh random
/// identifier, under which its events are reported.
pub fn connect() -> (peer_id: u128)
    ensures
        is_random_id(peer_id),
{
    mint_peer_id()
}

/// Takes one frame off the connection of `peer_id`: decodes it and says
/// which event to report to the broker, and whether to read on. The frame
/// that takes leave is reported and ends the reading; bytes that are no frame
/// end it with an error.
pub fn on_frame<T>(peer_id: u128, tag: &FrameSerTag) -> (r: Result<(Event<T>, bool), ProtocolError>)
    ensures
        r == reads::<T>(peer_id, tag@),
{
    match Frame::deserialize(tag) {
        Ok(frame) => match frame {
            Frame::Log { g, h, p } => Ok((Event::Log { peer_id, g, h, p }, true)),
            Frame::RSA { n, e: _ } => Ok((Event::RSA { peer_id, n }, true)),
            Frame::Prime { p } => Ok((Event::Prime { peer_id, p }, true)),
            Frame::Quit => Ok((Event::Quit { peer_id }, false)),
        },
        Err(e) => Err(e),
    }
}

} // verus!

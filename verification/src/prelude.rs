//! The library's items under one path.

pub use crate::algo::prelude::{
    fast_power, gcd, gcd_mul_inverse, gcd_weights, miller_rabin, mul_mod, probably_prime,
    PollardsLog, PollardsLogItem, PollardsRSAFact, PollardsRSAFactItem,
};
pub use crate::client::input::{read_client_input, read_number, read_u64, Echo, Key};
pub use crate::client::interface::{ClientError, Display, Entry, Interface, Opening, Outcome};
pub use crate::codec::{AsBytes, BytesDeser, BytesSer, DeserializationTag, SerializationTag};
pub use crate::error::{DomainError, ProtocolError, ServerError};
pub use crate::event::Event;
pub use crate::frame::{Frame, FrameSerTag};
pub use crate::response::{Response, ResponseSerTag};
pub use crate::server::broker::{prime_response, Action, Broker, CONFIDENCE_BITS};
pub use crate::server::writer::{Wakeup, WriteJob};

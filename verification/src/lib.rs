//! Number-theoretic engine, wire codec and coordination logic of a small
//! client/server system that tests primality, solves discrete logarithms and
//! factors moduli with Pollard's rho.

pub mod algo;
pub mod client;
pub mod codec;
pub mod error;
pub mod event;
pub mod frame;
pub mod prelude;
pub mod response;
pub mod server;

pub use client::interface::{ClientError, Interface};
pub use codec::{AsBytes, BytesDeser, BytesSer, DeserializationTag, SerializationTag};
pub use error::{DomainError, ProtocolError, ServerError};
pub use event::Event;
pub use frame::{Frame, FrameSerTag};
pub use response::{Response, ResponseSerTag};

//! The client's side: the line that the client types, and the state machine
//! that turns lines into requests and responses into screens.

pub mod input;
pub mod interface;

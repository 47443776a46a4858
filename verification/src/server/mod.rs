//! The server's side: the decisions of the broker, of the task that reads a
//! connection and of the task that writes to it. The tasks themselves, with
//! their sockets and queues, belong to the program that hosts them.

pub mod broker;
pub mod reader;
pub mod writer;

//! Client-side protocol logic for driving the MAGIC VLSI layout tool as a
//! background process over a loopback socket.
//!
//! The crate holds what such a client decides and computes, and performs no
//! input or output itself: how the process is started, what is written to it,
//! how commands are put on the wire, and how one line of reply is cut out of
//! the bytes that come back.

pub mod builder;
pub mod command;
pub mod decimal;
pub mod failure;
pub mod handshake;
pub mod line;
pub mod reader;
pub mod session;

pub use builder::MagicInstanceBuilder;
pub use command::Command;
pub use failure::Failure;
pub use handshake::{Stage, Stream, Verdict, Wiring};
pub use reader::{LineReader, Step, CHUNK_SIZE};
pub use session::{Receiving, Sending, Session, Turn};

//! The fatal conditions of a MAGIC client, by the phase in which they arise.

use vstd::prelude::*;
use vstd::string::*;

verus! {

/// A fatal condition. None of them is recovered from: the operation in which
/// it arises ends with it.
///
/// A connection that is refused during the handshake is not among them:
/// connecting is tried again.
#[derive(Clone, Copy, Debug, PartialEq, Eq, Structural)]
pub enum Failure {
    /// The MAGIC process could not be started.
    Spawn,
    /// The bootstrap script could not be written to the process's input.
    HandshakeWrite,
    /// A command line could not be written to the connection.
    CommandWrite,
    /// A reply could not be read from the connection.
    ReplyRead,
    /// A reply held bytes that are not valid UTF-8.
    Decode,
}

impl Failure {
    /// The message that names the phase of this failure.
    pub open spec fn message(self) -> Seq<char> {
        match self {
            Failure::Spawn => "spawn: the MAGIC process could not be started"@,
            Failure::HandshakeWrite => "handshake-write: the bootstrap script could not be written"@,
            Failure::CommandWrite => "command-write: the command could not be written"@,
            Failure::ReplyRead => "reply-read: the reply could not be read"@,
            Failure::Decode => "decode: the reply is not valid UTF-8"@,
        }
    }

    /// Returns the message that names the phase of this failure.
    pub fn describe(&self) -> (text: String)
        ensures
            text@ == self.message(),
    {
        match self {
            Failure::Spawn => "spawn: the MAGIC process could not be started".to_owned(),
            Failure::HandshakeWrite => "handshake-write: the bootstrap script could not be written".to_owned(),
            Failure::CommandWrite => "command-write: the command could not be written".to_owned(),
            Failure::ReplyRead => "reply-read: the reply could not be read".to_owned(),
            Failure::Decode => "decode: the reply is not valid UTF-8".to_owned(),
        }
    }
}

} // verus!

//! The exchange of commands and replies over an open connection: one line
//! out, one line back, and never a second command before the reply to the
//! first has been read.
//!
//! A [`Session`] is the right to send the next command. Sending takes it
//! away, and only the reply to that command gives it back, so commands and
//! replies stay paired in the order in which they were sent. A failure gives
//! nothing back: the session has ended.

use vstd::prelude::*;
use crate::command::Command;
use crate::failure::Failure;
use crate::reader::{
    lemma_later_reads_have_no_part, lemma_rest_of_chunk_is_dropped, outcome_after,
    outcome_of_reads, reads_taken, LineReader, Outcome, Step,
};
use vstd::utf8::encode_utf8;

verus! {

/// A command that was sent and the reply that was read for it.
pub struct Exchange {
    /// The text of the command, without its line feed.
    pub request: Seq<char>,
    /// The reply, without its line feed.
    pub reply: Seq<char>,
}

/// A connection on which every command sent so far has been answered.
pub struct Session {
    history: Ghost<Seq<Exchange>>,
}

/// A connection to which a command is being written.
pub struct Sending {
    history: Ghost<Seq<Exchange>>,
    request: Ghost<Seq<char>>,
}

/// A connection from which the reply to a command is being read.
pub struct Receiving {
    history: Ghost<Seq<Exchange>>,
    request: Ghost<Seq<char>>,
    reader: LineReader,
}

/// Where a connection stands after a read.
pub enum Turn {
    /// The reply is complete: its text, and the session to go on with.
    Reply(String, Session),
    /// The reply is not complete: read again.
    More(Receiving),
}

impl View for Session {
    type V = Seq<Exchange>;

    /// The exchanges completed so far, oldest first.
    closed spec fn view(&self) -> Seq<Exchange> {
        self.history@
    }
}

impl Session {
    /// Opens the session of a connection that has just been established:
    /// nothing has been exchanged yet.
    pub fn new() -> (session: Self)
        ensures
            session@ == Seq::<Exchange>::empty(),
    {
        Session { history: Ghost(Seq::empty()) }
    }

    /// Begins an exchange: returns the line to write to the connection for
    /// `command`, and the connection as it stands while that line is written.
    pub fn send(self, command: &Command) -> (sent: (String, Sending))
        ensures
            sent.0@ == command.wire(),
            sent.1.history() == self@,
            sent.1.request() == command.text(),
    {
        let line = command.line();
        (line, Sending { history: self.history, request: Ghost(command.text()) })
    }
}

impl Sending {
    /// The exchanges completed before this one.
    pub closed spec fn history(&self) -> Seq<Exchange> {
        self.history@
    }

    /// The text of the command that is being written.
    pub closed spec fn request(&self) -> Seq<char> {
        self.request@
    }

    /// Takes the result of writing the line: `succeeded` tells whether all
    /// of it was written.
    ///
    /// After a complete write the reply is awaited, and nothing of it has
    /// been gathered yet: whatever earlier reads delivered beyond their line
    /// is gone. A failed write is fatal.
    pub fn written(self, succeeded: bool) -> (result: Result<Receiving, Failure>)
        ensures
            succeeded ==> (result matches Ok(receiving) && receiving.history() == self.history()
                && receiving.request() == self.request() && receiving.gathered() == Seq::<
                char,
            >::empty()),
            !succeeded ==> (result matches Err(failure) && failure == Failure::CommandWrite),
    {
        if succeeded {
            Ok(Receiving { history: self.history, request: self.request, reader: LineReader::new() })
        } else {
            Err(Failure::CommandWrite)
        }
    }
}

impl Receiving {
    /// The exchanges completed before this one.
    pub closed spec fn history(&self) -> Seq<Exchange> {
        self.history@
    }

    /// The text of the command whose reply is being read.
    pub closed spec fn request(&self) -> Seq<char> {
        self.request@
    }

    /// The text of the reply gathered so far.
    pub closed spec fn gathered(&self) -> Seq<char> {
        self.reader@
    }

    /// Takes the result of one read of the connection: the bytes it
    /// delivered, or `None` if it failed.
    ///
    /// A failed read and bytes that are not valid UTF-8 are fatal. Bytes
    /// with a line feed complete the reply, and with it the exchange; the
    /// session is handed back for the next command. Other bytes are gathered,
    /// and the reply is still awaited.
    pub fn received(self, read: Option<&[u8]>) -> (result: Result<Turn, Failure>)
        ensures
            (match read {
                None => result matches Err(failure) && failure == Failure::ReplyRead,
                Some(chunk) => match outcome_after(self.gathered(), chunk@) {
                    Outcome::Invalid => result matches Err(failure) && failure == Failure::Decode,
                    Outcome::More(text) => result matches Ok(Turn::More(receiving))
                        && receiving.gathered() == text && receiving.history() == self.history()
                        && receiving.request() == self.request(),
                    Outcome::Line(line) => result matches Ok(Turn::Reply(reply, session))
                        && reply@ == line && !line.contains('\n') && session@
                        == self.history().push(Exchange { request: self.request(), reply: line }),
                },
            }),
    {
        match read {
            None => Err(Failure::ReplyRead),
            Some(chunk) => {
                let history = self.history;
                let request = self.request;
                match self.reader.feed(chunk) {
                    Err(failure) => Err(failure),
                    Ok(Step::More(reader)) => Ok(Turn::More(Receiving { history, request, reader })),
                    Ok(Step::Line(reply)) => {
                        let ghost exchange = Exchange { request: request@, reply: reply@ };
                        Ok(Turn::Reply(reply, Session { history: Ghost(history@.push(exchange)) }))
                    },
                }
            },
        }
    }
}

/// The exchanges completed when the commands with the texts `commands` are
/// sent in order after `history`, over a connection whose reads deliver
/// `reads`.
///
/// The reply to a command is read from the reads that follow those taken for
/// the reply before it. When the reads run out before a reply is complete, or
/// a reply cannot be decoded, nothing more is exchanged.
pub open spec fn transcript(
    history: Seq<Exchange>,
    commands: Seq<Seq<char>>,
    reads: Seq<Seq<u8>>,
) -> Seq<Exchange>
    decreases commands.len(),
{
    if commands.len() == 0 {
        history
    } else {
        match outcome_of_reads(Seq::empty(), reads) {
            Outcome::Line(reply) => transcript(
                history.push(Exchange { request: commands[0], reply }),
                commands.drop_first(),
                reads.skip(reads_taken(Seq::empty(), reads) as int),
            ),
            _ => history,
        }
    }
}

/// Commands and replies stay paired in the order of sending: what was
/// exchanged before stays as it was, and the exchanges that follow it are
/// those of the commands sent, one for each, in their order, without a gap.
pub proof fn lemma_replies_pair_with_commands(
    history: Seq<Exchange>,
    commands: Seq<Seq<char>>,
    reads: Seq<Seq<u8>>,
)
    ensures
        history.len() <= transcript(history, commands, reads).len() <= history.len()
            + commands.len(),
        transcript(history, commands, reads).take(history.len() as int) == history,
        forall|i: int|
            history.len() <= i < transcript(history, commands, reads).len() ==> (#[trigger] transcript(
                history,
                commands,
                reads,
            )[i]).request == commands[i - history.len()],
    decreases commands.len(),
{
    let end = transcript(history, commands, reads);
    if commands.len() == 0 {
        assert(end.take(history.len() as int) =~= history);
    } else {
        match outcome_of_reads(Seq::empty(), reads) {
            Outcome::Line(reply) => {
                let next = history.push(Exchange { request: commands[0], reply });
                let later = reads.skip(reads_taken(Seq::empty(), reads) as int);
                lemma_replies_pair_with_commands(next, commands.drop_first(), later);
                assert(end.take(next.len() as int) == next);
                assert(end.take(history.len() as int) =~= next.take(history.len() as int));
                assert(next.take(history.len() as int) =~= history);
                assert forall|i: int| history.len() <= i < end.len() implies (#[trigger] end[i]).request
                    == commands[i - history.len()] by {
                    if i == history.len() {
                        assert(end[i] == end.take(next.len() as int)[i]);
                    } else {
                        assert(commands.drop_first()[i - next.len()] == commands[i - history.len()]);
                    }
                }
            },
            _ => {
                assert(end.take(history.len() as int) =~= history);
            },
        }
    }
}

/// The reply to a command is a line read after the reply to the command
/// before it was complete: of two commands, the second is answered from the
/// reads that follow those taken for the first.
pub proof fn lemma_replies_in_turn(
    history: Seq<Exchange>,
    first: Seq<char>,
    second: Seq<char>,
    reads: Seq<Seq<u8>>,
)
    ensures
        transcript(history, seq![first, second], reads) == (match outcome_of_reads(
            Seq::empty(),
            reads,
        ) {
            Outcome::Line(reply) => transcript(
                history.push(Exchange { request: first, reply }),
                seq![second],
                reads.skip(reads_taken(Seq::empty(), reads) as int),
            ),
            _ => history,
        }),
        reads_taken(Seq::empty(), reads) <= reads.len(),
        outcome_of_reads(Seq::empty(), reads) == outcome_of_reads(
            Seq::empty(),
            reads.take(reads_taken(Seq::empty(), reads) as int),
        ),
{
    assert(seq![first, second].drop_first() =~= seq![second]);
    lemma_later_reads_have_no_part(Seq::empty(), reads);
}

/// What a read delivers beyond the line feed of a reply never comes back: the
/// exchanges are the same as if the read had ended with the line feed.
pub proof fn lemma_lost_rest_never_returns(
    history: Seq<Exchange>,
    commands: Seq<Seq<char>>,
    line: Seq<char>,
    rest: Seq<char>,
    later: Seq<Seq<u8>>,
)
    requires
        !line.contains('\n'),
    ensures
        transcript(history, commands, seq![encode_utf8(line + seq!['\n'] + rest)] + later)
            == transcript(history, commands, seq![encode_utf8(line + seq!['\n'])] + later),
{
    let with_rest = seq![encode_utf8(line + seq!['\n'] + rest)] + later;
    let without = seq![encode_utf8(line + seq!['\n'])] + later;
    lemma_rest_of_chunk_is_dropped(Seq::empty(), line, rest);
    lemma_rest_of_chunk_is_dropped(Seq::empty(), line, Seq::empty());
    assert(line + seq!['\n'] + Seq::<char>::empty() =~= line + seq!['\n']);
    assert(with_rest.skip(1) =~= later);
    assert(without.skip(1) =~= later);
}

} // verus!

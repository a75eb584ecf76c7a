//! The commands of the line protocol and their text on the wire.

use vstd::prelude::*;
use vstd::string::*;
use crate::line::{first_line, lemma_first_line};

verus! {

/// A command for MAGIC. Each is sent as one line and answered by one line.
#[derive(Debug, PartialEq, Eq)]
pub enum Command {
    /// Places an instance of the named cell in the edit cell.
    GetCell(String),
    /// Flips the selection from left to right.
    Sideways,
    /// Asks for the bounding box of the selection.
    SelectBbox,
}

impl Command {
    /// The text of the command: its keyword and, for `getcell`, a space and
    /// the cell's name as it was given.
    pub open spec fn text(self) -> Seq<char> {
        match self {
            Command::GetCell(cell) => "getcell "@ + cell@,
            Command::Sideways => "sideways"@,
            Command::SelectBbox => "select bbox"@,
        }
    }

    /// The command as it is written to the connection: its text and a line
    /// feed.
    pub open spec fn wire(self) -> Seq<char> {
        self.text() + "\n"@
    }

    /// The command that places an instance of the cell named `cell`.
    pub fn getcell(cell: &str) -> (command: Command)
        ensures
            command matches Command::GetCell(name) && name@ == cell@,
    {
        Command::GetCell(cell.to_owned())
    }

    /// The command that flips the selection sideways.
    pub fn sideways() -> (command: Command)
        ensures
            command == Command::Sideways,
    {
        Command::Sideways
    }

    /// The command that asks for the bounding box of the selection.
    pub fn select_bbox() -> (command: Command)
        ensures
            command == Command::SelectBbox,
    {
        Command::SelectBbox
    }

    /// Returns the line to write to the connection for this command.
    pub fn line(&self) -> (line: String)
        ensures
            line@ == self.wire(),
    {
        let mut line = match self {
            Command::GetCell(cell) => {
                let mut text = "getcell ".to_owned();
                text.append(cell.as_str());
                text
            },
            Command::Sideways => "sideways".to_owned(),
            Command::SelectBbox => "select bbox".to_owned(),
        };
        line.append("\n");
        line
    }
}

/// A command is one line on the wire, unless a cell's name holds a line feed:
/// whoever reads the line back reads the text of the command.
pub proof fn lemma_command_is_one_line(command: Command)
    requires
        command matches Command::GetCell(cell) ==> !cell@.contains('\n'),
    ensures
        first_line(command.wire()) == Some(command.text()),
{
    reveal_strlit("getcell ");
    reveal_strlit("sideways");
    reveal_strlit("select bbox");
    reveal_strlit("\n");
    let text = command.text();
    assert forall|j: int| 0 <= j < text.len() implies text[j] != '\n' by {
        match command {
            Command::GetCell(cell) => {
                if j >= 8 {
                    assert(cell@.contains(text[j]));
                }
            },
            _ => {},
        }
    }
    lemma_first_line(text, "\n"@);
}

} // verus!

//! The line reader: it takes the chunks that successive reads of a byte
//! stream deliver and hands out the text before the first line feed.

use vstd::prelude::*;
use vstd::string::*;
use vstd::utf8::*;
use crate::failure::Failure;
use crate::line::{
    first_line, lemma_decode_joined, lemma_first_line, lemma_first_line_of_joined, lemma_no_line,
    take_line,
};

verus! {

/// The largest number of bytes that one read of the stream is asked for.
pub const CHUNK_SIZE: usize = 512;

/// What a reader has come to after a chunk, as mathematical values.
pub enum Outcome {
    /// The line is complete: the text before its line feed.
    Line(Seq<char>),
    /// No line feed yet: the text gathered so far.
    More(Seq<char>),
    /// A chunk was not valid UTF-8.
    Invalid,
}

/// The outcome of handing `chunk` to a reader that has gathered `gathered`.
///
/// The chunk is decoded by itself. Up to its first line feed its text joins
/// what was gathered and completes the line; the line feed and whatever
/// follows it in the chunk are dropped. Without a line feed the whole text
/// joins what was gathered.
pub open spec fn outcome_after(gathered: Seq<char>, chunk: Seq<u8>) -> Outcome {
    if !valid_utf8(chunk) {
        Outcome::Invalid
    } else {
        match first_line(decode_utf8(chunk)) {
            Some(head) => Outcome::Line(gathered + head),
            None => Outcome::More(gathered + decode_utf8(chunk)),
        }
    }
}

/// The outcome of handing `chunks`, in the order in which they were read, to
/// a reader that has gathered `gathered`. The first chunk that completes the
/// line or is not valid UTF-8 ends it; later chunks are not looked at.
pub open spec fn outcome_of_reads(gathered: Seq<char>, chunks: Seq<Seq<u8>>) -> Outcome
    decreases chunks.len(),
{
    if chunks.len() == 0 {
        Outcome::More(gathered)
    } else {
        match outcome_after(gathered, chunks[0]) {
            Outcome::More(next) => outcome_of_reads(next, chunks.drop_first()),
            ended => ended,
        }
    }
}

/// The number of chunks that [`outcome_of_reads`] looks at: those up to and
/// including the first that ends the line, or all of them if none does.
pub open spec fn reads_taken(gathered: Seq<char>, chunks: Seq<Seq<u8>>) -> nat
    decreases chunks.len(),
{
    if chunks.len() == 0 {
        0
    } else {
        match outcome_after(gathered, chunks[0]) {
            Outcome::More(next) => 1 + reads_taken(next, chunks.drop_first()),
            _ => 1,
        }
    }
}

/// A line in the making: the text of the chunks read so far. None of them
/// held a line feed, so the text holds none.
#[derive(Debug, PartialEq, Eq)]
pub struct LineReader {
    text: String,
}

impl View for LineReader {
    type V = Seq<char>;

    closed spec fn view(&self) -> Seq<char> {
        self.text@
    }
}

/// Where a reader stands after a chunk.
#[derive(Debug, PartialEq, Eq)]
pub enum Step {
    /// The line is complete.
    Line(String),
    /// The line is not complete: the reader to hand the next chunk to.
    More(LineReader),
}

/// The outcome that the result of [`LineReader::feed`] stands for.
pub open spec fn outcome_of(result: Result<Step, Failure>) -> Outcome {
    match result {
        Ok(Step::Line(line)) => Outcome::Line(line@),
        Ok(Step::More(reader)) => Outcome::More(reader@),
        Err(_) => Outcome::Invalid,
    }
}

/// Decodes `bytes` with `std::str::from_utf8`: the text that they encode if
/// they are valid UTF-8, and `None` if they are not.
#[verifier::external_body]
fn decode(bytes: &[u8]) -> (text: Option<&str>)
    ensures
        text is Some <==> valid_utf8(bytes@),
        text matches Some(t) ==> t@ == decode_utf8(bytes@),
{
    match std::str::from_utf8(bytes) {
        Ok(t) => Some(t),
        Err(_) => None,
    }
}

impl LineReader {
    /// The text gathered holds no line feed.
    #[verifier::type_invariant]
    spec fn line_is_open(self) -> bool {
        !self.text@.contains('\n')
    }

    /// Creates a reader that has gathered nothing.
    pub fn new() -> (reader: Self)
        ensures
            reader@ == Seq::<char>::empty(),
    {
        LineReader { text: String::new() }
    }

    /// Returns the text gathered so far.
    pub fn as_str(&self) -> (text: &str)
        ensures
            text@ == self@,
            !text@.contains('\n'),
    {
        proof {
            use_type_invariant(self);
        }
        self.text.as_str()
    }

    /// Takes the bytes that one read of the stream delivered.
    ///
    /// Bytes that are not valid UTF-8 are a decoding failure. An empty chunk
    /// leaves the reader as it was.
    pub fn feed(self, chunk: &[u8]) -> (result: Result<Step, Failure>)
        ensures
            outcome_of(result) == outcome_after(self@, chunk@),
            result matches Err(failure) ==> failure == Failure::Decode,
            result matches Ok(Step::Line(line)) ==> !line@.contains('\n'),
            result matches Ok(Step::More(reader)) ==> !reader@.contains('\n'),
    {
        proof {
            use_type_invariant(&self);
        }
        match decode(chunk) {
            None => Err(Failure::Decode),
            Some(text) => {
                let mut gathered = self.text;
                proof {
                    lemma_line_is_open(gathered@, text@);
                }
                match take_line(text) {
                    Some(head) => {
                        gathered.append(head);
                        Ok(Step::Line(gathered))
                    },
                    None => {
                        gathered.append(text);
                        Ok(Step::More(LineReader { text: gathered }))
                    },
                }
            },
        }
    }
}

/// Text that holds no line feed, followed by the first line of a text or by
/// a text that has none, holds no line feed.
proof fn lemma_line_is_open(gathered: Seq<char>, text: Seq<char>)
    requires
        !gathered.contains('\n'),
    ensures
        (match first_line(text) {
            Some(head) => !(gathered + head).contains('\n'),
            None => !(gathered + text).contains('\n'),
        }),
{
    text.index_of_first_ensures('\n');
    let added = match first_line(text) {
        Some(head) => head,
        None => text,
    };
    let joined = gathered + added;
    assert forall|j: int| 0 <= j < joined.len() implies joined[j] != '\n' by {
        if j < gathered.len() {
            assert(gathered.contains(joined[j]));
        } else {
            assert(added[j - gathered.len()] == text[j - gathered.len()]);
            if first_line(text) is None {
                assert(text.contains(text[j - gathered.len()]));
            }
        }
    }
}

/// Where the reads cut the stream does not matter, as long as no character
/// is cut in two: chunks that are each valid UTF-8 end as their bytes would if
/// one read delivered them all.
pub proof fn lemma_reads_as_one(gathered: Seq<char>, chunks: Seq<Seq<u8>>)
    requires
        forall|i: int| 0 <= i < chunks.len() ==> valid_utf8(#[trigger] chunks[i]),
    ensures
        valid_utf8(chunks.flatten()),
        outcome_of_reads(gathered, chunks) == outcome_after(gathered, chunks.flatten()),
    decreases chunks.len(),
{
    if chunks.len() == 0 {
        assert(decode_utf8(chunks.flatten()) =~= Seq::<char>::empty());
        lemma_no_line(decode_utf8(chunks.flatten()));
        assert(gathered + decode_utf8(chunks.flatten()) =~= gathered);
    } else {
        let chunk = chunks[0];
        let rest = chunks.drop_first();
        let text = decode_utf8(chunk);
        let rest_text = decode_utf8(rest.flatten());
        assert forall|i: int| 0 <= i < rest.len() implies valid_utf8(#[trigger] rest[i]) by {
            assert(rest[i] == chunks[i + 1]);
        }
        lemma_reads_as_one(gathered + text, rest);
        lemma_decode_joined(chunk, rest.flatten());
        lemma_first_line_of_joined(text, rest_text);
        if first_line(text) is None {
            match first_line(rest_text) {
                Some(head) => {
                    assert((gathered + text) + head =~= gathered + (text + head));
                },
                None => {
                    assert((gathered + text) + rest_text =~= gathered + (text + rest_text));
                },
            }
        }
    }
}

/// What follows the first line feed of a chunk is lost: a chunk that encodes
/// `line`, a line feed and `rest` completes the line with `line`, whatever
/// `rest` is.
pub proof fn lemma_rest_of_chunk_is_dropped(gathered: Seq<char>, line: Seq<char>, rest: Seq<char>)
    requires
        !line.contains('\n'),
    ensures
        outcome_after(gathered, encode_utf8(line + seq!['\n'] + rest)) == Outcome::Line(
            gathered + line,
        ),
{
    let text = line + seq!['\n'] + rest;
    encode_utf8_valid_utf8(text);
    encode_utf8_decode_utf8(text);
    assert(text =~= line + (seq!['\n'] + rest));
    lemma_first_line(line, seq!['\n'] + rest);
}

/// A line sent in one piece or in several arrives whole: chunks that are each
/// valid UTF-8 and together encode `line` and a line feed complete the line
/// with `line`.
pub proof fn lemma_line_across_reads(gathered: Seq<char>, line: Seq<char>, chunks: Seq<Seq<u8>>)
    requires
        !line.contains('\n'),
        forall|i: int| 0 <= i < chunks.len() ==> valid_utf8(#[trigger] chunks[i]),
        chunks.flatten() == encode_utf8(line + seq!['\n']),
    ensures
        outcome_of_reads(gathered, chunks) == Outcome::Line(gathered + line),
{
    lemma_reads_as_one(gathered, chunks);
    lemma_rest_of_chunk_is_dropped(gathered, line, Seq::empty());
    assert(line + seq!['\n'] + Seq::<char>::empty() =~= line + seq!['\n']);
}

/// Chunks whose bytes are all below 128 are each valid UTF-8, wherever the
/// reads cut.
proof fn lemma_ascii_chunks_are_valid(chunks: Seq<Seq<u8>>)
    requires
        forall|k: int| 0 <= k < chunks.flatten().len() ==> chunks.flatten()[k] < 128,
    ensures
        forall|i: int| 0 <= i < chunks.len() ==> valid_utf8(#[trigger] chunks[i]),
    decreases chunks.len(),
{
    if chunks.len() > 0 {
        let chunk = chunks[0];
        let rest = chunks.drop_first();
        let joined = chunks.flatten();
        assert forall|k: int| 0 <= k < rest.flatten().len() implies rest.flatten()[k] < 128 by {
            assert(rest.flatten()[k] == joined[chunk.len() + k]);
        }
        lemma_ascii_chunks_are_valid(rest);
        assert forall|k: int| 0 <= k < chunk.len() implies is_leading_byte_width_1(
            #[trigger] chunk[k],
        ) by {
            assert(chunk[k] == joined[k]);
        }
        assert(chunk.subrange(0, 0) =~= Seq::<u8>::empty());
        partial_valid_utf8_extend_ascii_block(chunk, 0, chunk.len() as int);
        assert(chunk.subrange(0, chunk.len() as int) =~= chunk);
        assert forall|i: int| 0 <= i < chunks.len() implies valid_utf8(#[trigger] chunks[i]) by {
            if i > 0 {
                assert(chunks[i] == rest[i - 1]);
            }
        }
    }
}

/// A line of ASCII text arrives whole wherever the reads cut it: chunks that
/// together encode `line` and a line feed complete the line with `line`.
pub proof fn lemma_ascii_line_across_reads(
    gathered: Seq<char>,
    line: Seq<char>,
    chunks: Seq<Seq<u8>>,
)
    requires
        !line.contains('\n'),
        is_ascii_chars(line),
        chunks.flatten() == encode_utf8(line + seq!['\n']),
    ensures
        outcome_of_reads(gathered, chunks) == Outcome::Line(gathered + line),
{
    let text = line + seq!['\n'];
    assert(is_ascii_chars(text)) by {
        assert forall|i: int| 0 <= i < text.len() implies '\0' <= #[trigger] text[i]
            <= '\u{7f}' by {
            if i < line.len() {
                assert(text[i] == line[i]);
            }
        }
    }
    is_ascii_chars_encode_utf8(text);
    lemma_ascii_chunks_are_valid(chunks);
    lemma_line_across_reads(gathered, line, chunks);
}

/// A line is made of the reads taken for it and of nothing else: the reads
/// that follow them have no part in it.
pub proof fn lemma_later_reads_have_no_part(gathered: Seq<char>, chunks: Seq<Seq<u8>>)
    ensures
        reads_taken(gathered, chunks) <= chunks.len(),
        outcome_of_reads(gathered, chunks) == outcome_of_reads(
            gathered,
            chunks.take(reads_taken(gathered, chunks) as int),
        ),
    decreases chunks.len(),
{
    if chunks.len() > 0 {
        let rest = chunks.drop_first();
        match outcome_after(gathered, chunks[0]) {
            Outcome::More(next) => {
                lemma_later_reads_have_no_part(next, rest);
                let taken = reads_taken(next, rest) as int;
                assert(chunks.take(taken + 1).drop_first() =~= rest.take(taken));
            },
            _ => {
                assert(chunks.take(1).drop_first() =~= Seq::<Seq<u8>>::empty());
            },
        }
    } else {
        assert(chunks.take(0) =~= chunks);
    }
}

/// A read that delivers nothing changes nothing: the line is awaited as
/// before.
pub proof fn lemma_empty_read(gathered: Seq<char>)
    ensures
        outcome_after(gathered, Seq::empty()) == Outcome::More(gathered),
{
    assert(decode_utf8(Seq::empty()) =~= Seq::<char>::empty());
    lemma_no_line(Seq::empty());
    assert(gathered + Seq::<char>::empty() =~= gathered);
}

} // verus!

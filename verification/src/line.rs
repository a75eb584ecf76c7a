//! Lines of text: where the first line of a text ends, in characters and in
//! its UTF-8 encoding.

use vstd::prelude::*;
use vstd::string::*;
use vstd::utf8::*;

verus! {

/// The byte that encodes the line feed.
pub const LINE_FEED: u8 = 10;

/// The text strictly before the first line feed of `text`, or `None` when
/// `text` holds no line feed.
pub open spec fn first_line(text: Seq<char>) -> Option<Seq<char>> {
    match text.index_of_first('\n') {
        Some(end) => Some(text.take(end)),
        None => None,
    }
}

/// A text without a line feed has no first line.
pub proof fn lemma_no_line(text: Seq<char>)
    requires
        !text.contains('\n'),
    ensures
        first_line(text) is None,
{
    text.index_of_first_ensures('\n');
}

/// A text made of `head`, which holds no line feed, a line feed and anything
/// after it has `head` as its first line.
pub proof fn lemma_first_line(head: Seq<char>, tail: Seq<char>)
    requires
        !head.contains('\n'),
        tail.len() > 0,
        tail[0] == '\n',
    ensures
        first_line(head + tail) == Some(head),
{
    let text = head + tail;
    text.index_of_first_ensures('\n');
    assert(text[head.len() as int] == '\n');
    let end = text.index_of_first('\n').unwrap();
    if end < head.len() {
        assert(head[end] == '\n');
    }
    assert(text.take(end) =~= head);
}

/// A text whose first line feed stands at `end` has the text before `end`
/// as its first line.
pub proof fn lemma_first_line_ends_at(text: Seq<char>, end: int)
    requires
        0 <= end < text.len(),
        text[end] == '\n',
        forall|j: int| 0 <= j < end ==> text[j] != '\n',
    ensures
        first_line(text) == Some(text.take(end)),
{
    text.index_of_first_ensures('\n');
}

/// The first line of two texts joined is the first line of the first text
/// if it has one; otherwise the first text followed by the first line of the
/// second.
pub proof fn lemma_first_line_of_joined(first: Seq<char>, second: Seq<char>)
    ensures
        first_line(first + second) == (match first_line(first) {
            Some(head) => Some(head),
            None => match first_line(second) {
                Some(head) => Some(first + head),
                None => None,
            },
        }),
{
    let text = first + second;
    first.index_of_first_ensures('\n');
    second.index_of_first_ensures('\n');
    match first.index_of_first('\n') {
        Some(end) => {
            assert(text[end] == first[end]);
            assert forall|j: int| 0 <= j < end implies text[j] != '\n' by {
                assert(text[j] == first[j]);
            }
            lemma_first_line_ends_at(text, end);
            assert(text.take(end) =~= first.take(end));
        },
        None => {
            match second.index_of_first('\n') {
                Some(end) => {
                    let at = first.len() + end;
                    assert(text[at] == second[end]);
                    assert forall|j: int| 0 <= j < at implies text[j] != '\n' by {
                        if j < first.len() {
                            assert(text[j] == first[j]);
                        } else {
                            assert(text[j] == second[j - first.len()]);
                        }
                    }
                    lemma_first_line_ends_at(text, at);
                    assert(text.take(at) =~= first + second.take(end));
                },
                None => {
                    assert forall|j: int| 0 <= j < text.len() implies text[j] != '\n' by {
                        if j < first.len() {
                            assert(text[j] == first[j]);
                        } else {
                            assert(text[j] == second[j - first.len()]);
                        }
                    }
                    lemma_no_line(text);
                },
            }
        },
    }
}

/// Two valid encodings joined are the valid encoding of the two texts joined.
pub proof fn lemma_decode_joined(first: Seq<u8>, second: Seq<u8>)
    requires
        valid_utf8(first),
        valid_utf8(second),
    ensures
        valid_utf8(first + second),
        decode_utf8(first + second) == decode_utf8(first) + decode_utf8(second),
{
    let bytes = first + second;
    let at = first.len() as int;
    valid_utf8_concat(first, second);
    if second.len() == 0 {
        assert(bytes =~= first);
        assert(decode_utf8(first) + decode_utf8(second) =~= decode_utf8(first));
    } else {
        assert(bytes[at] == second[0]);
        is_char_boundary_iff_not_is_continuation_byte(bytes, at);
        decode_utf8_split(bytes, at);
        assert(bytes.subrange(0, at) =~= first);
        assert(bytes.subrange(at, bytes.len() as int) =~= second);
    }
}

/// The line feed is encoded as the single byte 10.
proof fn lemma_line_feed_encoding()
    ensures
        encode_scalar('\n' as u32) == seq![LINE_FEED],
{
    assert(10u32 & 0x7F == 10u32) by (bit_vector);
}

/// A valid encoding without a line-feed byte decodes to text without a line feed.
proof fn lemma_text_without_line_feed(bytes: Seq<u8>)
    requires
        valid_utf8(bytes),
        forall|i: int| 0 <= i < bytes.len() ==> bytes[i] != LINE_FEED,
    ensures
        !decode_utf8(bytes).contains('\n'),
    decreases bytes.len(),
{
    if bytes.len() > 0 {
        let rest = pop_first_scalar(bytes);
        let first = decode_first_scalar(bytes) as char;
        assert(first != '\n') by {
            decode_utf8_first_scalar(bytes);
            lemma_line_feed_encoding();
            if first == '\n' {
                assert(take_first_scalar(bytes)[0] == LINE_FEED);
            }
        }
        assert forall|i: int| 0 <= i < rest.len() implies rest[i] != LINE_FEED by {
            assert(rest[i] == bytes[i + length_of_first_scalar(bytes)]);
        }
        lemma_text_without_line_feed(rest);
        let text = decode_utf8(bytes);
        assert(text =~= seq![first] + decode_utf8(rest));
        assert forall|j: int| 0 <= j < text.len() implies text[j] != '\n' by {
            if j > 0 {
                assert(text[j] == decode_utf8(rest)[j - 1]);
            }
        }
    }
}

/// In a valid encoding whose first line-feed byte stands at `at`, the bytes
/// before `at` encode the first line of the text.
proof fn lemma_line_before_line_feed(bytes: Seq<u8>, at: int)
    requires
        valid_utf8(bytes),
        0 <= at < bytes.len(),
        bytes[at] == LINE_FEED,
        forall|i: int| 0 <= i < at ==> bytes[i] != LINE_FEED,
    ensures
        is_char_boundary(bytes, at),
        valid_utf8(bytes.subrange(0, at)),
        first_line(decode_utf8(bytes)) == Some(decode_utf8(bytes.subrange(0, at))),
{
    let head = bytes.subrange(0, at);
    let tail = bytes.subrange(at, bytes.len() as int);
    is_char_boundary_iff_not_is_continuation_byte(bytes, at);
    valid_utf8_split(bytes, at);
    decode_utf8_split(bytes, at);
    lemma_text_without_line_feed(head);
    assert(tail[0] == LINE_FEED);
    assert(decode_first_scalar(tail) == 10u32) by {
        assert(10u8 & 0x7F == 10u8) by (bit_vector);
    }
    assert(decode_utf8(tail)[0] == '\n');
    lemma_first_line(decode_utf8(head), decode_utf8(tail));
}

/// Splits off the first line of `text`: the part before its first line feed.
/// What follows the line feed is not returned.
pub fn take_line(text: &str) -> (line: Option<&str>)
    ensures
        (match first_line(text@) {
            Some(head) => line is Some && line->0@ == head,
            None => line is None,
        }),
{
    let bytes = text.as_bytes();
    proof {
        encode_utf8_valid_utf8(text@);
        encode_utf8_decode_utf8(text@);
    }
    let mut at: usize = 0;
    while at < bytes.len() && bytes[at] != LINE_FEED
        invariant
            at <= bytes.len(),
            forall|i: int| 0 <= i < at ==> bytes@[i] != LINE_FEED,
        decreases bytes.len() - at,
    {
        at += 1;
    }
    if at < bytes.len() {
        proof {
            lemma_line_before_line_feed(bytes@, at as int);
        }
        let (head, _) = text.split_at(at);
        proof {
            encode_utf8_decode_utf8(head@);
        }
        Some(head)
    } else {
        proof {
            lemma_text_without_line_feed(bytes@);
            lemma_no_line(text@);
        }
        None
    }
}

} // verus!

//! What a source hands over for a span, and its decoding as UTF-8.

use vstd::prelude::*;
use vstd::string::*;
use vstd::utf8::*;
use vstd::std_specs::iter::IteratorSpec;

verus! {

/// The result of reading a span from a source.
#[derive(Clone, Debug)]
pub struct SourceContents {
    /// The bytes of the full lines that the span touches.
    pub data: Vec<u8>,
    /// The line of the source on which the data begins, counted from one.
    pub line: usize,
    /// The column of the span's start on that line, counted from one.
    pub column: usize,
}

/// `char::len_utf8` gives the number of bytes that the character takes when
/// encoded in UTF-8.
pub assume_specification[ char::len_utf8 ](c: char) -> (n: usize)
    ensures
        n == char_width(c),
;

/// Number of bytes that `c` takes in UTF-8.
#[verifier::opaque]
pub open spec fn char_width(c: char) -> nat {
    encode_scalar(c as u32).len()
}

/// Number of bytes that the characters of `s` take in UTF-8.
pub open spec fn byte_len(s: Seq<char>) -> nat
    decreases s.len(),
{
    if s.len() == 0 {
        0
    } else {
        byte_len(s.drop_last()) + char_width(s.last())
    }
}

/// Reads `bytes` as text with `std::str::from_utf8`. Trusted: the call
/// succeeds exactly on valid UTF-8, and the text it gives is the decoding of
/// the bytes.
#[verifier::external_body]
pub(crate) fn decode_text(bytes: &[u8]) -> (text: Option<&str>)
    ensures
        text is Some <==> valid_utf8(bytes@),
        text is Some ==> text.unwrap()@ == decode_utf8(bytes@),
{
    match std::str::from_utf8(bytes) {
        Ok(text) => Some(text),
        Err(_) => None,
    }
}

/// The characters of `text`, in order.
pub fn collect_chars(text: &str) -> (chars: Vec<char>)
    ensures
        chars@ == text@,
{
    broadcast use vstd::string::group_string_axioms;

    let mut chars: Vec<char> = Vec::new();
    for c in it: text.chars()
        invariant
            it.seq() == text@,
            chars@ == text@.take(it.index() as int),
    {
        chars.push(c);
    }
    assert(chars@ =~= text@);
    chars
}

/// Every character takes between one and four bytes; a line feed and a
/// carriage return take one.
pub proof fn lemma_char_width(c: char)
    ensures
        1 <= char_width(c) <= 4,
        c == '\n' || c == '\r' ==> char_width(c) == 1,
{
    reveal(char_width);
}

/// The byte length may be counted from the front as well.
proof fn lemma_byte_len_front(s: Seq<char>)
    requires
        s.len() > 0,
    ensures
        byte_len(s) == char_width(s[0]) + byte_len(s.drop_first()),
    decreases s.len(),
{
    if s.len() == 1 {
        assert(s.drop_last() =~= Seq::<char>::empty());
        assert(s.drop_first() =~= Seq::<char>::empty());
    } else {
        lemma_byte_len_front(s.drop_last());
        assert(s.drop_first().drop_last() =~= s.drop_last().drop_first());
    }
}

/// The byte length of a text is the length of its UTF-8 encoding.
pub proof fn byte_len_is_encoded_length(s: Seq<char>)
    ensures
        byte_len(s) == encode_utf8(s).len(),
    decreases s.len(),
{
    reveal(char_width);
    if s.len() > 0 {
        lemma_byte_len_front(s);
        byte_len_is_encoded_length(s.drop_first());
    }
}

/// The text decoded from valid UTF-8 has the byte length of the data, so
/// offsets into the text are offsets into the data.
pub proof fn decoded_text_spans_the_data(data: Seq<u8>)
    requires
        valid_utf8(data),
    ensures
        byte_len(decode_utf8(data)) == data.len(),
{
    byte_len_is_encoded_length(decode_utf8(data));
    decode_utf8_encode_utf8(data);
}

} // verus!

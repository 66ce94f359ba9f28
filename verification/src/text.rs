//! Byte offsets into a document and the characters between them.
//!
//! A document is a string, and a place in it is a byte offset into its UTF-8
//! encoding, as Rust's string slices have it. Only an offset at which a
//! character begins, or the end of the document, is a place to cut.

use vstd::prelude::*;
use vstd::std_specs::iter::IteratorSpec;
use vstd::string::*;
use vstd::utf8::*;

verus! {

/// The length of the document in bytes.
pub open spec fn byte_len(text: Seq<char>) -> nat {
    encode_utf8(text).len()
}

/// The byte offset `at` lies between two characters of the document, before
/// the first or behind the last.
pub open spec fn is_cut(text: Seq<char>, at: int) -> bool {
    is_char_boundary(encode_utf8(text), at)
}

/// The bytes from `from` up to `to` are a run of whole characters of the
/// document.
pub open spec fn is_span(text: Seq<char>, from: int, to: int) -> bool {
    &&& 0 <= from <= to <= byte_len(text)
    &&& is_cut(text, from)
    &&& is_cut(text, to)
}

/// The characters that the bytes from `from` up to `to` encode.
pub open spec fn span_chars(text: Seq<char>, from: int, to: int) -> Seq<char> {
    decode_utf8(encode_utf8(text).subrange(from, to))
}

/// No character is encoded in less than one byte.
pub proof fn lemma_encoding_length(chars: Seq<char>)
    ensures
        chars.len() <= encode_utf8(chars).len(),
    decreases chars.len(),
{
    if chars.len() > 0 {
        lemma_encoding_length(chars.drop_first());
    }
}

/// A span holds at most as many characters as bytes.
pub proof fn lemma_span_length(text: Seq<char>, from: int, to: int)
    requires
        is_span(text, from, to),
    ensures
        span_chars(text, from, to).len() <= to - from,
{
    let bytes = encode_utf8(text);
    lemma_span_is_valid(text, from, to);
    let part = bytes.subrange(from, to);
    decode_utf8_encode_utf8(part);
    lemma_encoding_length(decode_utf8(part));
}

/// The bytes of a span are themselves well-formed UTF-8.
pub proof fn lemma_span_is_valid(text: Seq<char>, from: int, to: int)
    requires
        is_span(text, from, to),
    ensures
        valid_utf8(encode_utf8(text).subrange(from, to)),
{
    let bytes = encode_utf8(text);
    encode_utf8_valid_utf8(text);
    valid_utf8_split(bytes, to);
    let head = bytes.subrange(0, to);
    lemma_cut_of_prefix(bytes, from, to);
    valid_utf8_split(head, from);
    assert(head.subrange(from, head.len() as int) =~= bytes.subrange(from, to));
}

/// A place to cut the whole is a place to cut a prefix that reaches it.
proof fn lemma_cut_of_prefix(bytes: Seq<u8>, from: int, to: int)
    requires
        valid_utf8(bytes),
        0 <= from <= to <= bytes.len(),
        is_char_boundary(bytes, from),
        is_char_boundary(bytes, to),
    ensures
        valid_utf8(bytes.subrange(0, to)),
        is_char_boundary(bytes.subrange(0, to), from),
{
    valid_utf8_split(bytes, to);
    let head = bytes.subrange(0, to);
    if from == to {
        is_char_boundary_start_end_of_seq(head);
    } else {
        is_char_boundary_iff_not_is_continuation_byte(bytes, from);
        is_char_boundary_iff_not_is_continuation_byte(head, from);
    }
}

/// The part of the document between two places to cut.
pub fn slice_span<'a>(text: &'a str, from: usize, to: usize) -> (part: &'a str)
    requires
        is_span(text@, from as int, to as int),
    ensures
        part@ == span_chars(text@, from as int, to as int),
        part@.len() <= to - from,
{
    proof {
        encode_utf8_valid_utf8(text@);
        lemma_cut_of_prefix(encode_utf8(text@), from as int, to as int);
    }
    let (head, _) = text.split_at(to);
    let (_, part) = head.split_at(from);
    proof {
        let bytes = encode_utf8(text@);
        assert(part.spec_bytes() =~= bytes.subrange(from as int, to as int));
        encode_utf8_decode_utf8(part@);
        lemma_span_length(text@, from as int, to as int);
    }
    part
}

/// Whether `from` and `to` mark a run of whole characters of the document.
pub fn check_span(text: &str, from: usize, to: usize) -> (ok: bool)
    ensures
        ok == is_span(text@, from as int, to as int),
{
    from <= to && to <= text_len(text) && text.is_char_boundary(from) && text.is_char_boundary(to)
}

/// The length of the document in bytes.
pub fn text_len(text: &str) -> (n: usize)
    ensures
        n == byte_len(text@),
        is_cut(text@, n as int),
{
    proof {
        encode_utf8_valid_utf8(text@);
        is_char_boundary_start_end_of_seq(encode_utf8(text@));
    }
    text.as_bytes().len()
}

/// The characters of a string, one by one.
pub fn to_chars(s: &str) -> (chars: Vec<char>)
    ensures
        chars@ == s@,
{
    let mut chars: Vec<char> = Vec::new();
    let mut rest = s.chars();
    loop
        invariant
            rest.remaining() == s@.skip(chars@.len() as int),
            chars@ == s@.take(chars@.len() as int),
            chars@.len() <= s@.len(),
            rest.obeys_prophetic_iter_laws(),
        ensures
            chars@ == s@,
        decreases s@.len() - chars@.len(),
    {
        match rest.next() {
            Some(c) => {
                chars.push(c);
            },
            None => {
                break ;
            },
        }
    }
    chars
}

} // verus!

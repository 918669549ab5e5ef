//! Directory names as text.
//!
//! Entries store their names as bytes, and `directory_name` is stated on
//! bytes. For a name that is text it says what one expects of the text: every
//! `\` becomes `/`, and a `/` is appended unless the text already ends in one.

use crate::entry::{directory_name, with_forward_slashes, SLASH};
use vstd::prelude::*;
use vstd::utf8::{encode_scalar, encode_utf8};

verus! {

/// `c`, or `/` where `c` is `\`.
pub open spec fn forward_slash(c: char) -> char {
    if c == '\\' {
        '/'
    } else {
        c
    }
}

/// `text` with every `\` turned into `/`.
pub open spec fn text_with_forward_slashes(text: Seq<char>) -> Seq<char> {
    Seq::new(text.len(), |i: int| forward_slash(text[i]))
}

/// The text under which a directory called `text` is stored.
pub open spec fn directory_text(text: Seq<char>) -> Seq<char> {
    let slashed = text_with_forward_slashes(text);
    if slashed.len() > 0 && slashed.last() == '/' {
        slashed
    } else {
        slashed.push('/')
    }
}

/// The encoding of a character below 128 is that one byte; every byte of the
/// encoding of another character is 128 or more.
proof fn lemma_scalar_bytes(s: u32)
    by (bit_vector)
    ensures
        s <= 0x7F ==> (s & 0x7F) as u8 == s,
        (0xC0u8 | ((s >> 6) & 0x1F) as u8) >= 0x80,
        (0xE0u8 | ((s >> 12) & 0x0F) as u8) >= 0x80,
        (0xF0u8 | ((s >> 18) & 0x7) as u8) >= 0x80,
        (0x80u8 | (s & 0x3F) as u8) >= 0x80,
        (0x80u8 | ((s >> 6) & 0x3F) as u8) >= 0x80,
        (0x80u8 | ((s >> 12) & 0x3F) as u8) >= 0x80,
{
}

/// Turning `\` into `/` in the encoding of a character encodes the character
/// with `\` turned into `/`, and the encoding ends in `/` only for `/`.
proof fn lemma_encode_forward_slash(c: char)
    ensures
        encode_scalar(c as u32).len() > 0,
        with_forward_slashes(encode_scalar(c as u32)) == encode_scalar(forward_slash(c) as u32),
        encode_scalar(c as u32).last() == SLASH <==> c == '/',
{
    let s = c as u32;
    lemma_scalar_bytes(s);
    lemma_scalar_bytes(forward_slash(c) as u32);
}

/// Turning `\` into `/` goes through concatenation.
proof fn lemma_forward_slashes_concat(a: Seq<u8>, b: Seq<u8>)
    ensures
        with_forward_slashes(a + b) == with_forward_slashes(a) + with_forward_slashes(b),
{
}

/// Turning `\` into `/` in the encoding of a text encodes the text with `\`
/// turned into `/`.
proof fn lemma_encode_forward_slashes(text: Seq<char>)
    ensures
        with_forward_slashes(encode_utf8(text)) == encode_utf8(text_with_forward_slashes(text)),
    decreases text.len(),
{
    let slashed = text_with_forward_slashes(text);
    if text.len() > 0 {
        lemma_encode_forward_slashes(text.drop_first());
        lemma_encode_forward_slash(text[0]);
        lemma_forward_slashes_concat(
            encode_scalar(text[0] as u32),
            encode_utf8(text.drop_first()),
        );
        assert(slashed.drop_first() =~= text_with_forward_slashes(text.drop_first()));
    }
}

/// The encoding of a text with one more character is the encoding of the
/// text followed by that of the character.
proof fn lemma_encode_push(text: Seq<char>, c: char)
    ensures
        encode_utf8(text.push(c)) == encode_utf8(text) + encode_scalar(c as u32),
    decreases text.len(),
{
    let longer = text.push(c);
    if text.len() == 0 {
        assert(longer.drop_first() =~= text);
    } else {
        lemma_encode_push(text.drop_first(), c);
        assert(longer.drop_first() =~= text.drop_first().push(c));
    }
}

/// The stored name of a directory whose name is the text `text` is the
/// encoding of that text with every `\` turned into `/`, and with a `/`
/// appended unless it already ends in one.
pub proof fn directory_names_of_text(text: Seq<char>)
    ensures
        directory_name(encode_utf8(text)) == encode_utf8(directory_text(text)),
{
    let slashed = text_with_forward_slashes(text);
    lemma_encode_forward_slashes(text);
    lemma_encode_push(slashed, '/');
    lemma_encode_forward_slash('/');
    if slashed.len() > 0 {
        let front = slashed.drop_last();
        let last = slashed.last();
        assert(slashed =~= front.push(last));
        lemma_encode_push(front, last);
        lemma_encode_forward_slash(last);
    }
}

} // verus!

//! Little-endian encoding of the fixed-width fields of the ZIP format.

use vstd::prelude::*;

verus! {

/// The two bytes of `x`, least significant first.
#[verifier::opaque]
pub open spec fn le16(x: u16) -> Seq<u8> {
    seq![(x % 256) as u8, (x / 256) as u8]
}

/// The four bytes of `x`, least significant first.
#[verifier::opaque]
pub open spec fn le32(x: u32) -> Seq<u8> {
    seq![
        (x % 256) as u8,
        (x / 256 % 256) as u8,
        (x / 65536 % 256) as u8,
        (x / 16777216) as u8,
    ]
}

/// The number that a little-endian byte string stands for.
pub open spec fn le_value(bytes: Seq<u8>) -> nat
    decreases bytes.len(),
{
    if bytes.len() == 0 {
        0
    } else {
        bytes[0] as nat + 256 * le_value(bytes.skip(1))
    }
}

/// The 16-bit number stored at `at`, least significant byte first.
pub open spec fn u16_at(bytes: Seq<u8>, at: int) -> nat {
    le_value(bytes.subrange(at, at + 2))
}

/// The 32-bit number stored at `at`, least significant byte first.
pub open spec fn u32_at(bytes: Seq<u8>, at: int) -> nat {
    le_value(bytes.subrange(at, at + 4))
}

/// A 16-bit field takes two bytes and a 32-bit field four.
pub proof fn lemma_le_lengths()
    ensures
        forall|x: u16| #[trigger] le16(x).len() == 2,
        forall|x: u32| #[trigger] le32(x).len() == 4,
{
    reveal(le16);
    reveal(le32);
}

/// Decoding the two bytes of `le16(x)` gives `x` back.
pub proof fn lemma_le16_value(x: u16)
    ensures
        le16(x).len() == 2,
        le_value(le16(x)) == x,
{
    reveal(le16);
    let b = le16(x);
    let b1 = b.skip(1);
    let b2 = b1.skip(1);
    assert(le_value(b1) == b[1] as nat + 256 * le_value(b2));
}

/// Decoding the four bytes of `le32(x)` gives `x` back.
pub proof fn lemma_le32_value(x: u32)
    ensures
        le32(x).len() == 4,
        le_value(le32(x)) == x,
{
    reveal(le32);
    let b = le32(x);
    let b1 = b.skip(1);
    let b2 = b1.skip(1);
    let b3 = b2.skip(1);
    let b4 = b3.skip(1);
    assert(le_value(b3) == b[3] as nat + 256 * le_value(b4));
    assert(le_value(b2) == b[2] as nat + 256 * le_value(b3));
    assert(le_value(b1) == b[1] as nat + 256 * le_value(b2));
}

/// Concatenation of byte strings is associative.
pub proof fn lemma_concat_assoc(a: Seq<u8>, b: Seq<u8>, c: Seq<u8>)
    ensures
        (a + b) + c == a + (b + c),
{
}

/// Appends the two bytes of `x` to `buf`, least significant first.
pub fn put_u16(buf: &mut Vec<u8>, x: u16)
    ensures
        final(buf)@ == old(buf)@ + le16(x),
{
    buf.push((x % 256) as u8);
    buf.push((x / 256) as u8);
    proof {
        reveal(le16);
    }
}

/// Appends the four bytes of `x` to `buf`, least significant first.
pub fn put_u32(buf: &mut Vec<u8>, x: u32)
    ensures
        final(buf)@ == old(buf)@ + le32(x),
{
    buf.push((x % 256) as u8);
    buf.push((x / 256 % 256) as u8);
    buf.push((x / 65536 % 256) as u8);
    buf.push((x / 16777216) as u8);
    proof {
        reveal(le32);
    }
}

/// Appends `le16(x)` to a buffer that holds `base` followed by `fields`, and
/// returns the fields written so far.
pub(crate) fn field_u16(
    buf: &mut Vec<u8>,
    x: u16,
    base: Ghost<Seq<u8>>,
    fields: Ghost<Seq<u8>>,
) -> (next: Ghost<Seq<u8>>)
    requires
        old(buf)@ == base@ + fields@,
    ensures
        next@ == fields@ + le16(x),
        final(buf)@ == base@ + next@,
{
    put_u16(buf, x);
    proof {
        lemma_concat_assoc(base@, fields@, le16(x));
    }
    Ghost(fields@ + le16(x))
}

/// Appends `le32(x)` to a buffer that holds `base` followed by `fields`, and
/// returns the fields written so far.
pub(crate) fn field_u32(
    buf: &mut Vec<u8>,
    x: u32,
    base: Ghost<Seq<u8>>,
    fields: Ghost<Seq<u8>>,
) -> (next: Ghost<Seq<u8>>)
    requires
        old(buf)@ == base@ + fields@,
    ensures
        next@ == fields@ + le32(x),
        final(buf)@ == base@ + next@,
{
    put_u32(buf, x);
    proof {
        lemma_concat_assoc(base@, fields@, le32(x));
    }
    Ghost(fields@ + le32(x))
}

/// Appends `bytes` to a buffer that holds `base` followed by `fields`, and
/// returns the fields written so far.
pub(crate) fn field_bytes(
    buf: &mut Vec<u8>,
    bytes: &[u8],
    base: Ghost<Seq<u8>>,
    fields: Ghost<Seq<u8>>,
) -> (next: Ghost<Seq<u8>>)
    requires
        old(buf)@ == base@ + fields@,
    ensures
        next@ == fields@ + bytes@,
        final(buf)@ == base@ + next@,
{
    buf.extend_from_slice(bytes);
    proof {
        lemma_concat_assoc(base@, fields@, bytes@);
    }
    Ghost(fields@ + bytes@)
}

} // verus!

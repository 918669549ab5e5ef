//! The byte layout of a whole archive.
//!
//! An archive is the local file records of its entries, then their central
//! directory records in the same order, then the end-of-central-directory
//! record. Positions are counted from byte 0 of the destination, which may
//! already hold `base` bytes when the archive is written.

use crate::entry::{EntryView, ZipError};
use crate::le::{
    le16, le32, lemma_concat_assoc, lemma_le16_value, lemma_le32_value, lemma_le_lengths, u16_at,
    u32_at,
};
use crate::record::{
    central_record, end_record, lemma_central_record_fields, lemma_end_record_fields,
    lemma_end_record_length, lemma_header_lengths, lemma_local_record_fields, local_record,
    END_RECORD_LEN, FILE_RECORD_SIGNATURE,
};
use vstd::prelude::*;

verus! {

/// The most entries that the 16-bit counts of the end record can hold.
pub const MAX_ENTRIES: usize = 0xFFFF;

/// The local file records of `entries`, one after the other.
pub open spec fn local_section(entries: Seq<EntryView>) -> Seq<u8>
    decreases entries.len(),
{
    if entries.len() == 0 {
        Seq::empty()
    } else {
        local_section(entries.drop_last()) + local_record(entries.last())
    }
}

/// Where the local file record of entry `i` starts.
pub open spec fn local_offset(entries: Seq<EntryView>, base: nat, i: int) -> nat {
    base + local_section(entries.take(i)).len()
}

/// The central directory of `entries`: one record for each, in the same order,
/// each holding the place of the entry's local file record.
pub open spec fn central_section(entries: Seq<EntryView>, base: nat) -> Seq<u8>
    decreases entries.len(),
{
    if entries.len() == 0 {
        Seq::empty()
    } else {
        central_section(entries.drop_last(), base) + central_record(
            entries.last(),
            (base + local_section(entries.drop_last()).len()) as u32,
        )
    }
}

/// Where the central directory record of entry `i` starts.
pub open spec fn central_offset(entries: Seq<EntryView>, base: nat, i: int) -> nat {
    directory_offset(entries, base) + central_section(entries.take(i), base).len()
}

/// Where the central directory starts.
pub open spec fn directory_offset(entries: Seq<EntryView>, base: nat) -> nat {
    base + local_section(entries).len()
}

/// Where the central directory ends and the end record starts.
pub open spec fn directory_end(entries: Seq<EntryView>, base: nat) -> nat {
    directory_offset(entries, base) + central_section(entries, base).len()
}

/// Every position up to the end of the central directory fits in 32 bits.
pub open spec fn archive_fits(entries: Seq<EntryView>, base: nat) -> bool {
    directory_end(entries, base) <= u32::MAX
}

/// The end-of-central-directory record of the archive.
pub open spec fn archive_trailer(entries: Seq<EntryView>, base: nat) -> Seq<u8> {
    end_record(
        entries.len() as u16,
        central_section(entries, base).len() as u32,
        directory_offset(entries, base) as u32,
    )
}

/// The bytes of the archive of `entries`, written to a destination that
/// already holds `base` bytes.
pub open spec fn archive_bytes(entries: Seq<EntryView>, base: nat) -> Seq<u8> {
    local_section(entries) + central_section(entries, base) + archive_trailer(entries, base)
}

/// What writing `entries` at position `base` of the output gives: the bytes
/// of the archive, or the reason why there are none. More than 65535 entries
/// are too many; an archive whose central directory would end beyond byte
/// 4294967295 is too large.
pub open spec fn write_outcome(entries: Seq<EntryView>, base: nat) -> Result<Seq<u8>, ZipError> {
    if entries.len() > MAX_ENTRIES {
        Err(ZipError::TooManyEntries)
    } else if !archive_fits(entries, base) {
        Err(ZipError::ArchiveTooLarge)
    } else {
        Ok(archive_bytes(entries, base))
    }
}

/// The local section of the first `i + 1` entries is that of the first `i`
/// followed by the record of entry `i`.
pub proof fn lemma_local_section_step(entries: Seq<EntryView>, i: int)
    requires
        0 <= i < entries.len(),
    ensures
        local_section(entries.take(i + 1)) == local_section(entries.take(i)) + local_record(
            entries[i],
        ),
{
    let s = entries.take(i + 1);
    assert(s.drop_last() =~= entries.take(i));
}

/// The central directory of the first `i + 1` entries is that of the first `i`
/// followed by the record of entry `i`, which points at `local_offset(entries, base, i)`.
pub proof fn lemma_central_section_step(entries: Seq<EntryView>, base: nat, i: int)
    requires
        0 <= i < entries.len(),
    ensures
        central_section(entries.take(i + 1), base) == central_section(entries.take(i), base)
            + central_record(entries[i], local_offset(entries, base, i) as u32),
{
    let s = entries.take(i + 1);
    assert(s.drop_last() =~= entries.take(i));
}

/// The local section grows with the number of entries taken.
pub proof fn lemma_local_section_monotonic(entries: Seq<EntryView>, i: int, j: int)
    requires
        0 <= i <= j <= entries.len(),
    ensures
        local_section(entries.take(i)).len() <= local_section(entries.take(j)).len(),
    decreases j - i,
{
    if i < j {
        lemma_local_section_monotonic(entries, i, j - 1);
        lemma_local_section_step(entries, j - 1);
    }
}

/// The central directory grows with the number of entries taken.
pub proof fn lemma_central_section_monotonic(entries: Seq<EntryView>, base: nat, i: int, j: int)
    requires
        0 <= i <= j <= entries.len(),
    ensures
        central_section(entries.take(i), base).len() <= central_section(entries.take(j), base).len(),
    decreases j - i,
{
    if i < j {
        lemma_central_section_monotonic(entries, base, i, j - 1);
        lemma_central_section_step(entries, base, j - 1);
    }
}

/// The local section of the first `j` entries is the start of the whole
/// local section.
pub proof fn lemma_local_section_prefix(entries: Seq<EntryView>, j: int)
    requires
        0 <= j <= entries.len(),
    ensures
        local_section(entries.take(j)).len() <= local_section(entries).len(),
        local_section(entries).take(local_section(entries.take(j)).len() as int)
            == local_section(entries.take(j)),
    decreases entries.len() - j,
{
    let whole = local_section(entries);
    let part = local_section(entries.take(j));
    if j == entries.len() {
        assert(entries.take(j) =~= entries);
    } else {
        lemma_local_section_prefix(entries, j + 1);
        lemma_local_section_step(entries, j);
        let next = local_section(entries.take(j + 1));
        assert(whole.take(part.len() as int) =~= whole.take(next.len() as int).take(
            part.len() as int,
        ));
    }
}

/// The central directory of the first `j` entries is the start of the whole
/// central directory.
pub proof fn lemma_central_section_prefix(entries: Seq<EntryView>, base: nat, j: int)
    requires
        0 <= j <= entries.len(),
    ensures
        central_section(entries.take(j), base).len() <= central_section(entries, base).len(),
        central_section(entries, base).take(central_section(entries.take(j), base).len() as int)
            == central_section(entries.take(j), base),
    decreases entries.len() - j,
{
    let whole = central_section(entries, base);
    let part = central_section(entries.take(j), base);
    if j == entries.len() {
        assert(entries.take(j) =~= entries);
    } else {
        lemma_central_section_prefix(entries, base, j + 1);
        lemma_central_section_step(entries, base, j);
        let next = central_section(entries.take(j + 1), base);
        assert(whole.take(part.len() as int) =~= whole.take(next.len() as int).take(
            part.len() as int,
        ));
    }
}

/// A range within the first of two concatenated strings.
proof fn lemma_subrange_left(a: Seq<u8>, b: Seq<u8>, from: int, to: int)
    requires
        0 <= from <= to <= a.len(),
    ensures
        (a + b).subrange(from, to) == a.subrange(from, to),
{
}

/// A range within the second of two concatenated strings.
pub(crate) proof fn lemma_subrange_right(a: Seq<u8>, b: Seq<u8>, from: int, to: int)
    requires
        0 <= from <= to <= b.len(),
    ensures
        (a + b).subrange(a.len() + from, a.len() + to) == b.subrange(from, to),
{
}

/// The last part of a string that ends with `tail`.
proof fn lemma_skip_concat(head: Seq<u8>, tail: Seq<u8>, whole: Seq<u8>, cut: int)
    requires
        cut == head.len() + tail.len(),
        cut <= whole.len(),
        whole.take(cut) == head + tail,
    ensures
        whole.subrange(head.len() as int, cut) == tail,
{
    assert((head + tail).skip(head.len() as int) =~= tail);
}

/// The local file record of entry `i` stands in the local section after the
/// records of the entries before it.
pub proof fn lemma_local_record_at(entries: Seq<EntryView>, i: int)
    requires
        0 <= i < entries.len(),
    ensures
        ({
            let before = local_section(entries.take(i)).len() as int;
            let record = local_record(entries[i]);
            &&& before + record.len() <= local_section(entries).len()
            &&& local_section(entries).subrange(before, before + record.len()) == record
        }),
{
    lemma_local_section_prefix(entries, i + 1);
    lemma_local_section_step(entries, i);
    lemma_skip_concat(
        local_section(entries.take(i)),
        local_record(entries[i]),
        local_section(entries),
        local_section(entries.take(i + 1)).len() as int,
    );
}

/// The central directory record of entry `i` stands in the central directory
/// after the records of the entries before it, and points at the entry's
/// local file record.
pub proof fn lemma_central_record_at(entries: Seq<EntryView>, base: nat, i: int)
    requires
        0 <= i < entries.len(),
    ensures
        ({
            let before = central_section(entries.take(i), base).len() as int;
            let record = central_record(entries[i], local_offset(entries, base, i) as u32);
            &&& before + record.len() <= central_section(entries, base).len()
            &&& central_section(entries, base).subrange(before, before + record.len()) == record
        }),
{
    lemma_central_section_prefix(entries, base, i + 1);
    lemma_central_section_step(entries, base, i);
    lemma_skip_concat(
        central_section(entries.take(i), base),
        central_record(entries[i], local_offset(entries, base, i) as u32),
        central_section(entries, base),
        central_section(entries.take(i + 1), base).len() as int,
    );
}

/// The local file record of entry `i` stands in the archive at the entry's
/// offset, before the central directory, and begins with its signature.
proof fn lemma_local_record_in_archive(entries: Seq<EntryView>, base: nat, i: int)
    requires
        0 <= i < entries.len(),
    ensures
        ({
            let bytes = archive_bytes(entries, base);
            let at = local_offset(entries, base, i);
            let local = local_record(entries[i]);
            &&& at + local.len() <= directory_offset(entries, base)
            &&& bytes.subrange(at - base, at - base + local.len()) == local
            &&& bytes.subrange(at - base, at - base + 4) == le32(FILE_RECORD_SIGNATURE)
        }),
{
    let locals = local_section(entries);
    let rest = central_section(entries, base) + archive_trailer(entries, base);
    let local = local_record(entries[i]);
    let before = local_section(entries.take(i)).len() as int;
    lemma_local_record_at(entries, i);
    lemma_concat_assoc(locals, central_section(entries, base), archive_trailer(entries, base));
    lemma_subrange_left(locals, rest, before, before + local.len());
    assert(local.len() >= 4 && local.subrange(0, 4) == le32(FILE_RECORD_SIGNATURE)) by {
        lemma_header_lengths(entries[i], 0);
        lemma_local_record_fields(entries[i]);
    }
    lemma_subrange_left(locals, rest, before, before + 4);
    assert(locals.subrange(before, before + 4) =~= locals.subrange(
        before,
        before + local.len(),
    ).subrange(0, 4));
}

/// The central directory record of entry `i` stands in the archive after the
/// records of the entries before it, and holds the offset of the entry's
/// local file record.
proof fn lemma_central_record_in_archive(entries: Seq<EntryView>, base: nat, i: int)
    requires
        0 <= i < entries.len(),
        local_offset(entries, base, i) <= u32::MAX,
    ensures
        ({
            let bytes = archive_bytes(entries, base);
            let at = local_offset(entries, base, i);
            let central = central_record(entries[i], at as u32);
            let central_at = central_offset(entries, base, i);
            &&& central_at + central.len() <= directory_end(entries, base)
            &&& bytes.subrange(central_at - base, central_at - base + central.len()) == central
            &&& u32_at(central, 42) == at
        }),
{
    let locals = local_section(entries);
    let directory = central_section(entries, base);
    let at = local_offset(entries, base, i);
    let central = central_record(entries[i], at as u32);
    let before = central_section(entries.take(i), base).len() as int;
    lemma_central_record_at(entries, base, i);
    lemma_subrange_left(
        locals + directory,
        archive_trailer(entries, base),
        locals.len() + before,
        locals.len() + before + central.len(),
    );
    lemma_subrange_right(locals, directory, before, before + central.len());
    assert(u32_at(central, 42) == at) by {
        lemma_header_lengths(entries[i], at as u32);
        lemma_central_record_fields(entries[i], at as u32);
        lemma_le32_value(at as u32);
    }
}

/// Every entry's local file record stands in the output at the offset that
/// its central directory record stores.
///
/// For entry `i` of an archive that fits, written at position `base`: the
/// bytes of the output from `local_offset(entries, base, i)` on are the local
/// file record of the entry, which begins with the signature of a local file
/// record; the entry's central directory record stands in the central
/// directory after the records of the entries before it; and the offset field
/// of that record holds `local_offset(entries, base, i)`. A position in
/// `archive_bytes` is a position in the output less `base`.
pub proof fn stored_offsets_are_record_positions(entries: Seq<EntryView>, base: nat, i: int)
    requires
        0 <= i < entries.len(),
        archive_fits(entries, base),
    ensures
        ({
            let bytes = archive_bytes(entries, base);
            let at = local_offset(entries, base, i);
            let local = local_record(entries[i]);
            let central = central_record(entries[i], at as u32);
            let central_at = central_offset(entries, base, i);
            &&& base <= at
            &&& at + local.len() <= directory_offset(entries, base)
            &&& central_at + central.len() <= directory_end(entries, base)
            &&& bytes.subrange(at - base, at - base + local.len()) == local
            &&& bytes.subrange(at - base, at - base + 4) == le32(FILE_RECORD_SIGNATURE)
            &&& bytes.subrange(central_at - base, central_at - base + central.len()) == central
            &&& u32_at(central, 42) == at
        }),
{
    lemma_local_record_in_archive(entries, base, i);
    lemma_central_record_in_archive(entries, base, i);
}

/// The archive is as long as its two sections and its end record.
pub proof fn trailer_position(entries: Seq<EntryView>, base: nat)
    ensures
        archive_bytes(entries, base).len() == directory_end(entries, base) - base + END_RECORD_LEN,
{
    lemma_end_record_length(0, 0, 0);
    lemma_le_lengths();
}

/// The end record closes the archive and describes its central directory.
///
/// For an archive of at most 65535 entries that fits, written at position
/// `base`: the archive ends with its end record, which starts where the
/// central directory ends; both counts of the record hold the number of
/// entries; its size field holds the distance from the start of the central
/// directory to the start of the end record; and its offset field holds the
/// start of the central directory, which is `base` plus the length of all
/// local file records.
pub proof fn trailer_describes_directory(entries: Seq<EntryView>, base: nat)
    requires
        entries.len() <= MAX_ENTRIES,
        archive_fits(entries, base),
    ensures
        ({
            let bytes = archive_bytes(entries, base);
            let trailer = archive_trailer(entries, base);
            let trailer_at = directory_end(entries, base);
            &&& bytes.len() == trailer_at - base + END_RECORD_LEN
            &&& bytes.subrange(trailer_at - base, bytes.len() as int) == trailer
            &&& u16_at(trailer, 8) == entries.len()
            &&& u16_at(trailer, 10) == entries.len()
            &&& u32_at(trailer, 12) == trailer_at - directory_offset(entries, base)
            &&& u32_at(trailer, 16) == directory_offset(entries, base)
            &&& directory_offset(entries, base) == base + local_section(entries).len()
        }),
{
    let count = entries.len() as u16;
    let size = central_section(entries, base).len() as u32;
    let offset = directory_offset(entries, base) as u32;
    lemma_end_record_fields(count, size, offset);
    lemma_le16_value(count);
    lemma_le32_value(size);
    lemma_le32_value(offset);
}

/// An archive without entries, written to an empty destination, is the end
/// record alone: its signature followed by eighteen zero bytes.
pub proof fn empty_archive_is_end_record()
    ensures
        archive_fits(Seq::<EntryView>::empty(), 0),
        archive_bytes(Seq::<EntryView>::empty(), 0) == seq![
            0x50u8, 0x4B, 0x05, 0x06, 0, 0, 0, 0, 0, 0, 0, 0, 0, 0, 0, 0, 0, 0, 0, 0, 0, 0,
        ],
{
    let none = Seq::<EntryView>::empty();
    reveal(le16);
    reveal(le32);
    assert(archive_bytes(none, 0) =~= seq![
        0x50u8, 0x4B, 0x05, 0x06, 0, 0, 0, 0, 0, 0, 0, 0, 0, 0, 0, 0, 0, 0, 0, 0, 0, 0,
    ]);
}

} // verus!

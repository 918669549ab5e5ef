//! A model of a reader of archives.
//!
//! `read_archive` says what a reader finds that starts from the end record,
//! walks the central directory, and follows every stored offset to a local
//! file record. `written_archives_read_back` proves that it finds, in every
//! archive that is written, exactly the entries that went into it.

use crate::entry::{all_wf, CompressionType, EntryView};
use crate::layout::{
    archive_bytes, archive_fits, archive_trailer, central_offset, central_section, directory_end,
    directory_offset, lemma_central_section_step, lemma_subrange_right, local_offset,
    stored_offsets_are_record_positions, trailer_describes_directory, trailer_position,
    MAX_ENTRIES,
};
use crate::le::{le16, le32, lemma_le16_value, lemma_le32_value, u16_at, u32_at};
use crate::record::{
    central_record, lemma_central_record_fields, lemma_end_record_fields, lemma_header_lengths,
    lemma_local_record_fields, local_record, DIRECTORY_ENTRY_SIGNATURE,
    END_OF_CENTRAL_DIR_SIGNATURE, FILE_RECORD_SIGNATURE,
};
use vstd::prelude::*;

verus! {

/// The storage method that a method code stands for.
pub open spec fn method_of(code: nat) -> Option<CompressionType> {
    if code == 0 {
        Some(CompressionType::Stored)
    } else if code == 8 {
        Some(CompressionType::Deflate)
    } else {
        None
    }
}

/// What a reader finds for the central directory record at `at`: the entry,
/// and where the next record starts.
///
/// The record must begin with its signature and name a known method. The
/// offset it stores must lead to the signature of a local file record whose
/// method, checksum, sizes and name are those of the central record; the data
/// is what follows that local header, its name and its extra field.
#[verifier::opaque]
pub open spec fn read_entry(bytes: Seq<u8>, at: int) -> Option<(EntryView, int)> {
    let name_len = u16_at(bytes, at + 28);
    let next = at + 46 + name_len + u16_at(bytes, at + 30) + u16_at(bytes, at + 32);
    let name = bytes.subrange(at + 46, at + 46 + name_len);
    let code = u16_at(bytes, at + 10);
    let crc32 = u32_at(bytes, at + 16);
    let compressed_size = u32_at(bytes, at + 20);
    let uncompressed_size = u32_at(bytes, at + 24);
    let local_at = u32_at(bytes, at + 42) as int;
    let data_at = local_at + 30 + u16_at(bytes, local_at + 26) + u16_at(bytes, local_at + 28);
    if {
        &&& 0 <= at
        &&& next <= bytes.len()
        &&& u32_at(bytes, at) == DIRECTORY_ENTRY_SIGNATURE
        &&& method_of(code) is Some
        &&& local_at + 30 <= bytes.len()
        &&& data_at + compressed_size <= bytes.len()
        &&& u32_at(bytes, local_at) == FILE_RECORD_SIGNATURE
        &&& u16_at(bytes, local_at + 8) == code
        &&& u32_at(bytes, local_at + 14) == crc32
        &&& u32_at(bytes, local_at + 18) == compressed_size
        &&& u32_at(bytes, local_at + 22) == uncompressed_size
        &&& bytes.subrange(local_at + 30, local_at + 30 + u16_at(bytes, local_at + 26)) == name
    } {
        Some(
            (
                EntryView {
                    method: method_of(code)->Some_0,
                    crc32: crc32 as u32,
                    uncompressed_size: uncompressed_size as u32,
                    name,
                    data: bytes.subrange(data_at, data_at + compressed_size),
                    external_attributes: u32_at(bytes, at + 38) as u32,
                },
                next,
            ),
        )
    } else {
        None
    }
}

/// What a reader finds in `count` central directory records from `at` on.
pub open spec fn read_entries(bytes: Seq<u8>, at: int, count: nat) -> Option<Seq<EntryView>>
    decreases count,
{
    if count == 0 {
        Some(Seq::empty())
    } else {
        match read_entry(bytes, at) {
            Some((entry, next)) => match read_entries(bytes, next, (count - 1) as nat) {
                Some(rest) => Some(seq![entry] + rest),
                None => None,
            },
            None => None,
        }
    }
}

/// What a reader finds in `bytes`: the entries, or nothing where `bytes` is
/// no archive.
///
/// The last 22 bytes must be an end record without comment, for one disk,
/// whose central directory ends where the end record starts.
pub open spec fn read_archive(bytes: Seq<u8>) -> Option<Seq<EntryView>> {
    let end = bytes.len() - 22;
    if {
        &&& 0 <= end
        &&& u32_at(bytes, end) == END_OF_CENTRAL_DIR_SIGNATURE
        &&& u16_at(bytes, end + 4) == 0
        &&& u16_at(bytes, end + 6) == 0
        &&& u16_at(bytes, end + 8) == u16_at(bytes, end + 10)
        &&& u32_at(bytes, end + 16) + u32_at(bytes, end + 12) == end
        &&& u16_at(bytes, end + 20) == 0
    } {
        read_entries(bytes, u32_at(bytes, end + 16) as int, u16_at(bytes, end + 10))
    } else {
        None
    }
}

/// The 16-bit field at `k` of a record that stands at `at`.
proof fn lemma_read_u16(whole: Seq<u8>, at: int, record: Seq<u8>, k: int, x: u16)
    requires
        0 <= at,
        at + record.len() <= whole.len(),
        whole.subrange(at, at + record.len()) == record,
        0 <= k,
        k + 2 <= record.len(),
        record.subrange(k, k + 2) == le16(x),
    ensures
        u16_at(whole, at + k) == x,
{
    assert(whole.subrange(at + k, at + k + 2) =~= record.subrange(k, k + 2));
    lemma_le16_value(x);
}

/// The 32-bit field at `k` of a record that stands at `at`.
proof fn lemma_read_u32(whole: Seq<u8>, at: int, record: Seq<u8>, k: int, x: u32)
    requires
        0 <= at,
        at + record.len() <= whole.len(),
        whole.subrange(at, at + record.len()) == record,
        0 <= k,
        k + 4 <= record.len(),
        record.subrange(k, k + 4) == le32(x),
    ensures
        u32_at(whole, at + k) == x,
{
    assert(whole.subrange(at + k, at + k + 4) =~= record.subrange(k, k + 4));
    lemma_le32_value(x);
}

/// The bytes from `k` to `l` of a record that stands at `at`.
proof fn lemma_read_bytes(whole: Seq<u8>, at: int, record: Seq<u8>, k: int, l: int)
    requires
        0 <= at,
        at + record.len() <= whole.len(),
        whole.subrange(at, at + record.len()) == record,
        0 <= k <= l <= record.len(),
    ensures
        whole.subrange(at + k, at + l) == record.subrange(k, l),
{
}

/// What the reader takes from the central directory record at `at` when both
/// records of `e` stand where they should.
proof fn lemma_read_entry_of_records(whole: Seq<u8>, e: EntryView, at: int, local_at: int)
    requires
        e.wf(),
        0 <= local_at <= u32::MAX,
        local_at + local_record(e).len() <= whole.len(),
        whole.subrange(local_at, local_at + local_record(e).len()) == local_record(e),
        0 <= at,
        at + central_record(e, local_at as u32).len() <= whole.len(),
        whole.subrange(at, at + central_record(e, local_at as u32).len()) == central_record(
            e,
            local_at as u32,
        ),
    ensures
        read_entry(whole, at) == Some((e, at + central_record(e, local_at as u32).len())),
{
    reveal(read_entry);
    let local = local_record(e);
    let central = central_record(e, local_at as u32);
    let n = e.name.len() as int;
    lemma_header_lengths(e, local_at as u32);
    lemma_central_record_fields(e, local_at as u32);
    lemma_local_record_fields(e);

    lemma_read_u32(whole, at, central, 0, DIRECTORY_ENTRY_SIGNATURE);
    lemma_read_u16(whole, at, central, 10, e.method.spec_code());
    lemma_read_u32(whole, at, central, 16, e.crc32);
    lemma_read_u32(whole, at, central, 20, e.data.len() as u32);
    lemma_read_u32(whole, at, central, 24, e.uncompressed_size);
    lemma_read_u16(whole, at, central, 28, e.name.len() as u16);
    lemma_read_u16(whole, at, central, 30, 0);
    lemma_read_u16(whole, at, central, 32, 0);
    lemma_read_u32(whole, at, central, 38, e.external_attributes);
    lemma_read_u32(whole, at, central, 42, local_at as u32);
    lemma_read_bytes(whole, at, central, 46, 46 + n);

    lemma_read_u32(whole, local_at, local, 0, FILE_RECORD_SIGNATURE);
    lemma_read_u16(whole, local_at, local, 8, e.method.spec_code());
    lemma_read_u32(whole, local_at, local, 14, e.crc32);
    lemma_read_u32(whole, local_at, local, 18, e.data.len() as u32);
    lemma_read_u32(whole, local_at, local, 22, e.uncompressed_size);
    lemma_read_u16(whole, local_at, local, 26, e.name.len() as u16);
    lemma_read_u16(whole, local_at, local, 28, 0);
    lemma_read_bytes(whole, local_at, local, 30, 30 + n);
    lemma_read_bytes(whole, local_at, local, 30 + n, local.len() as int);
}

/// The same, for records that stand in `bytes` where `bytes` comes after
/// `start`.
proof fn lemma_read_entry_after(
    start: Seq<u8>,
    bytes: Seq<u8>,
    e: EntryView,
    at: int,
    local_at: int,
)
    requires
        e.wf(),
        start.len() <= local_at <= u32::MAX,
        local_at - start.len() + local_record(e).len() <= bytes.len(),
        bytes.subrange(
            local_at - start.len(),
            local_at - start.len() + local_record(e).len(),
        ) == local_record(e),
        start.len() <= at,
        at - start.len() + central_record(e, local_at as u32).len() <= bytes.len(),
        bytes.subrange(
            at - start.len(),
            at - start.len() + central_record(e, local_at as u32).len(),
        ) == central_record(e, local_at as u32),
    ensures
        read_entry(start + bytes, at) == Some(
            (e, at + central_record(e, local_at as u32).len()),
        ),
{
    let base = start.len() as int;
    let local = local_record(e);
    let central = central_record(e, local_at as u32);
    lemma_subrange_right(start, bytes, local_at - base, local_at - base + local.len());
    lemma_subrange_right(start, bytes, at - base, at - base + central.len());
    lemma_read_entry_of_records(start + bytes, e, at, local_at);
}

/// At the record of entry `i` the reader finds entry `i`, and the record of
/// the next entry after it.
proof fn lemma_read_entry_at(start: Seq<u8>, entries: Seq<EntryView>, i: int)
    requires
        entries[i].wf(),
        archive_fits(entries, start.len()),
        0 <= i < entries.len(),
    ensures
        read_entry(
            start + archive_bytes(entries, start.len()),
            central_offset(entries, start.len(), i) as int,
        ) == Some((entries[i], central_offset(entries, start.len(), i + 1) as int)),
{
    let base = start.len();
    let bytes = archive_bytes(entries, base);
    let e = entries[i];
    let local_at = local_offset(entries, base, i);
    let at = central_offset(entries, base, i);
    stored_offsets_are_record_positions(entries, base, i);
    lemma_central_section_step(entries, base, i);
    trailer_position(entries, base);
    lemma_read_entry_after(start, bytes, e, at as int, local_at as int);
}

/// From the record of entry `i` on, the reader finds the entries from `i` on.
proof fn lemma_read_entries_from(start: Seq<u8>, entries: Seq<EntryView>, i: int)
    requires
        all_wf(entries),
        archive_fits(entries, start.len()),
        0 <= i <= entries.len(),
    ensures
        read_entries(
            start + archive_bytes(entries, start.len()),
            central_offset(entries, start.len(), i) as int,
            (entries.len() - i) as nat,
        ) == Some(entries.skip(i)),
    decreases entries.len() - i,
{
    if i < entries.len() {
        lemma_read_entry_at(start, entries, i);
        lemma_read_entries_from(start, entries, i + 1);
    }
}

/// A reader finds in every archive that is written the entries that went
/// into it, in their order: each with its name, its method, its checksum, its
/// sizes, its attributes and its stored data.
///
/// `start` is what the destination held before the archive was written.
pub proof fn written_archives_read_back(start: Seq<u8>, entries: Seq<EntryView>)
    requires
        all_wf(entries),
        entries.len() <= MAX_ENTRIES,
        archive_fits(entries, start.len()),
    ensures
        read_archive(start + archive_bytes(entries, start.len())) == Some(entries),
{
    let base = start.len();
    let bytes = archive_bytes(entries, base);
    let whole = start + bytes;
    let trailer = archive_trailer(entries, base);
    let end = directory_end(entries, base) as int;
    let count = entries.len() as u16;
    let size = central_section(entries, base).len() as u32;
    let offset = directory_offset(entries, base) as u32;
    trailer_describes_directory(entries, base);
    lemma_end_record_fields(count, size, offset);
    lemma_subrange_right(start, bytes, end - base, bytes.len() as int);
    lemma_read_u32(whole, end, trailer, 0, END_OF_CENTRAL_DIR_SIGNATURE);
    lemma_read_u16(whole, end, trailer, 4, 0);
    lemma_read_u16(whole, end, trailer, 6, 0);
    lemma_read_u16(whole, end, trailer, 8, count);
    lemma_read_u16(whole, end, trailer, 10, count);
    lemma_read_u32(whole, end, trailer, 12, size);
    lemma_read_u32(whole, end, trailer, 16, offset);
    lemma_read_u16(whole, end, trailer, 20, 0);
    lemma_read_entries_from(start, entries, 0);
}

} // verus!

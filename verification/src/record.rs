//! The three kinds of record that make up an archive, field by field.

use crate::entry::EntryView;
use crate::le::{field_u16, field_u32, le16, le32, lemma_le_lengths, put_u32};
use vstd::prelude::*;

verus! {

/// Version of the format that a reader needs: 2.0, for DEFLATE.
pub const VERSION_NEEDED_TO_EXTRACT: u16 = 20;

/// The writer's tag: format version 6.3 on a UNIX host.
pub const VERSION_MADE_BY: u16 = 0x033F;

/// Signature of a local file record.
pub const FILE_RECORD_SIGNATURE: u32 = 0x04034B50;

/// Signature of a central directory record.
pub const DIRECTORY_ENTRY_SIGNATURE: u32 = 0x02014B50;

/// Signature of the end-of-central-directory record.
pub const END_OF_CENTRAL_DIR_SIGNATURE: u32 = 0x06054B50;

/// Length of a local file header, without the name.
pub const LOCAL_HEADER_LEN: usize = 30;

/// Length of a central directory record, without the name.
pub const CENTRAL_HEADER_LEN: usize = 46;

/// Length of the end-of-central-directory record.
pub const END_RECORD_LEN: usize = 22;

/// The fixed part of the local file record of `e`.
pub open spec fn local_header(e: EntryView) -> Seq<u8> {
    le32(FILE_RECORD_SIGNATURE)  // signature
     + le16(VERSION_NEEDED_TO_EXTRACT)  // version needed to extract
     + le16(0)  // flags
     + le16(e.method.spec_code())  // method
     + le16(0)  // time
     + le16(0)  // date
     + le32(e.crc32)  // checksum
     + le32(e.data.len() as u32)  // compressed size
     + le32(e.uncompressed_size)  // uncompressed size
     + le16(e.name.len() as u16)  // name length
     + le16(0)  // extra field length
}

/// The local file record of `e`: its header, its name, its data.
pub open spec fn local_record(e: EntryView) -> Seq<u8> {
    local_header(e) + e.name + e.data
}

/// The fixed part of the central directory record of `e`, whose local file
/// record starts at `offset`.
pub open spec fn central_header(e: EntryView, offset: u32) -> Seq<u8> {
    le32(DIRECTORY_ENTRY_SIGNATURE)  // signature
     + le16(VERSION_MADE_BY)  // version made by
     + le16(VERSION_NEEDED_TO_EXTRACT)  // version needed to extract
     + le16(0)  // flags
     + le16(e.method.spec_code())  // method
     + le16(0)  // time
     + le16(0)  // date
     + le32(e.crc32)  // checksum
     + le32(e.data.len() as u32)  // compressed size
     + le32(e.uncompressed_size)  // uncompressed size
     + le16(e.name.len() as u16)  // name length
     + le16(0)  // extra field length
     + le16(0)  // comment length
     + le16(0)  // disk number
     + le16(0)  // internal attributes
     + le32(e.external_attributes)  // external attributes
     + le32(offset)  // offset of the local file record
}

/// The central directory record of `e`: its header and its name.
pub open spec fn central_record(e: EntryView, offset: u32) -> Seq<u8> {
    central_header(e, offset) + e.name
}

/// The end-of-central-directory record of an archive of `count` entries whose
/// central directory takes `directory_size` bytes from `directory_offset` on.
pub open spec fn end_record(count: u16, directory_size: u32, directory_offset: u32) -> Seq<u8> {
    le32(END_OF_CENTRAL_DIR_SIGNATURE)  // signature
     + le16(0)  // number of this disk
     + le16(0)  // disk on which the central directory starts
     + le16(count)  // entries on this disk
     + le16(count)  // entries in all
     + le32(directory_size)  // size of the central directory
     + le32(directory_offset)  // offset of the central directory
     + le16(0)  // comment length
}

/// A local file header takes 30 bytes and a central directory header 46.
pub proof fn lemma_header_lengths(e: EntryView, offset: u32)
    ensures
        local_header(e).len() == LOCAL_HEADER_LEN,
        local_record(e).len() == LOCAL_HEADER_LEN + e.name.len() + e.data.len(),
        central_header(e, offset).len() == CENTRAL_HEADER_LEN,
        central_record(e, offset).len() == CENTRAL_HEADER_LEN + e.name.len(),
{
    lemma_le_lengths();
}

/// The end-of-central-directory record takes 22 bytes.
pub proof fn lemma_end_record_length(count: u16, directory_size: u32, directory_offset: u32)
    ensures
        end_record(count, directory_size, directory_offset).len() == END_RECORD_LEN,
{
    lemma_le_lengths();
}

/// What a reader finds in the local file record of `e`, field by field.
pub proof fn lemma_local_record_fields(e: EntryView)
    ensures
        ({
            let r = local_record(e);
            let n = e.name.len() as int;
            &&& r.subrange(0, 4) == le32(FILE_RECORD_SIGNATURE)
            &&& r.subrange(4, 6) == le16(VERSION_NEEDED_TO_EXTRACT)
            &&& r.subrange(6, 8) == le16(0)
            &&& r.subrange(8, 10) == le16(e.method.spec_code())
            &&& r.subrange(10, 12) == le16(0)
            &&& r.subrange(12, 14) == le16(0)
            &&& r.subrange(14, 18) == le32(e.crc32)
            &&& r.subrange(18, 22) == le32(e.data.len() as u32)
            &&& r.subrange(22, 26) == le32(e.uncompressed_size)
            &&& r.subrange(26, 28) == le16(e.name.len() as u16)
            &&& r.subrange(28, 30) == le16(0)
            &&& r.subrange(30, 30 + n) == e.name
            &&& r.subrange(30 + n, r.len() as int) == e.data
        }),
{
    lemma_le_lengths();
}

/// What a reader finds in the central directory record of `e`, field by field.
pub proof fn lemma_central_record_fields(e: EntryView, offset: u32)
    ensures
        ({
            let r = central_record(e, offset);
            &&& r.subrange(0, 4) == le32(DIRECTORY_ENTRY_SIGNATURE)
            &&& r.subrange(4, 6) == le16(VERSION_MADE_BY)
            &&& r.subrange(6, 8) == le16(VERSION_NEEDED_TO_EXTRACT)
            &&& r.subrange(8, 10) == le16(0)
            &&& r.subrange(10, 12) == le16(e.method.spec_code())
            &&& r.subrange(12, 14) == le16(0)
            &&& r.subrange(14, 16) == le16(0)
            &&& r.subrange(16, 20) == le32(e.crc32)
            &&& r.subrange(20, 24) == le32(e.data.len() as u32)
            &&& r.subrange(24, 28) == le32(e.uncompressed_size)
            &&& r.subrange(28, 30) == le16(e.name.len() as u16)
            &&& r.subrange(30, 32) == le16(0)
            &&& r.subrange(32, 34) == le16(0)
            &&& r.subrange(34, 36) == le16(0)
            &&& r.subrange(36, 38) == le16(0)
            &&& r.subrange(38, 42) == le32(e.external_attributes)
            &&& r.subrange(42, 46) == le32(offset)
            &&& r.subrange(46, r.len() as int) == e.name
        }),
{
    lemma_le_lengths();
}

/// What a reader finds in the end-of-central-directory record, field by field.
pub proof fn lemma_end_record_fields(count: u16, directory_size: u32, directory_offset: u32)
    ensures
        ({
            let r = end_record(count, directory_size, directory_offset);
            &&& r.len() == END_RECORD_LEN
            &&& r.subrange(0, 4) == le32(END_OF_CENTRAL_DIR_SIGNATURE)
            &&& r.subrange(4, 6) == le16(0)
            &&& r.subrange(6, 8) == le16(0)
            &&& r.subrange(8, 10) == le16(count)
            &&& r.subrange(10, 12) == le16(count)
            &&& r.subrange(12, 16) == le32(directory_size)
            &&& r.subrange(16, 20) == le32(directory_offset)
            &&& r.subrange(20, 22) == le16(0)
        }),
{
    lemma_le_lengths();
}

/// Appends the end-of-central-directory record to `buf`.
pub fn put_end_record(buf: &mut Vec<u8>, count: u16, directory_size: u32, directory_offset: u32)
    ensures
        final(buf)@ == old(buf)@ + end_record(count, directory_size, directory_offset),
{
    let base = Ghost(buf@);
    // signature
    put_u32(buf, END_OF_CENTRAL_DIR_SIGNATURE);
    let f = Ghost(le32(END_OF_CENTRAL_DIR_SIGNATURE));
    // number of this disk
    let f = field_u16(buf, 0, base, f);
    // disk on which the central directory starts
    let f = field_u16(buf, 0, base, f);
    // entries on this disk
    let f = field_u16(buf, count, base, f);
    // entries in all
    let f = field_u16(buf, count, base, f);
    // size of the central directory
    let f = field_u32(buf, directory_size, base, f);
    // offset of the central directory
    let f = field_u32(buf, directory_offset, base, f);
    // comment length
    let _ = field_u16(buf, 0, base, f);
}

} // verus!

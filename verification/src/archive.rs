//! The archive under construction and its serialisation.

use crate::codec::{deflate_of, deflate_with_crc};
use crate::crc::crc32_of;
use crate::entry::{
    all_wf, directory_outcome, file_outcome, outcome_view, EntryView, ZipError, ZipFile,
    MAX_NAME_LEN,
};
use crate::layout::{
    archive_fits, archive_trailer, central_section, directory_offset,
    lemma_central_section_monotonic, lemma_central_section_step, lemma_local_section_monotonic,
    lemma_local_section_step, local_offset, local_section, write_outcome, MAX_ENTRIES,
};
use crate::le::{lemma_concat_assoc, lemma_le32_value, u32_at};
use crate::reader::{read_archive, written_archives_read_back};
use crate::record::{
    central_record, lemma_central_record_fields, lemma_header_lengths, lemma_local_record_fields,
    local_record, put_end_record,
};
use vstd::prelude::*;
use vstd::string::*;

verus! {

/// The entries of an archive, in the order in which they will be written.
#[derive(Debug)]
pub struct ZipArchive {
    files: Vec<ZipFile>,
}

impl View for ZipArchive {
    type V = Seq<EntryView>;

    closed spec fn view(&self) -> Seq<EntryView> {
        Seq::new(self.files@.len(), |i: int| self.files@[i]@)
    }
}

/// What compressing `content` into a file called `name` gives: the entry, or
/// the reason why there is none.
///
/// A name of more than 65535 bytes is refused, then a content of more than
/// 4294967295 bytes. Then the content is compressed: where the compressor
/// yields no stream, that is the error; else the entry has the checksum
/// `crc32_of(content)`, the size of `content` and the stream as its data,
/// unless the stream itself takes more than 4294967295 bytes.
pub open spec fn compressed_outcome(
    name: Seq<u8>,
    content: Seq<u8>,
) -> Result<EntryView, ZipError> {
    if name.len() > MAX_NAME_LEN {
        Err(ZipError::NameTooLong)
    } else if content.len() > u32::MAX {
        Err(ZipError::EntryTooLarge)
    } else {
        match deflate_of(content) {
            Some(data) => file_outcome(name, content.len(), crc32_of(content), data),
            None => Err(ZipError::Compression),
        }
    }
}

/// Both records of a compressed file hold the checksum of its content, the
/// length of its content and the length of its DEFLATE stream, and the stream
/// itself is the data of its local file record.
pub proof fn file_records_hold_checksum_and_sizes(name: Seq<u8>, content: Seq<u8>, offset: u32)
    ensures
        compressed_outcome(name, content) matches Ok(entry) ==> {
            let local = local_record(entry);
            let central = central_record(entry, offset);
            &&& entry.wf()
            &&& entry.name == name
            &&& deflate_of(content) == Some(entry.data)
            &&& u32_at(local, 14) == crc32_of(content)
            &&& u32_at(local, 18) == entry.data.len()
            &&& u32_at(local, 22) == content.len()
            &&& local.subrange(30 + name.len() as int, local.len() as int) == entry.data
            &&& u32_at(central, 16) == crc32_of(content)
            &&& u32_at(central, 20) == entry.data.len()
            &&& u32_at(central, 24) == content.len()
        },
{
    if let Ok(entry) = compressed_outcome(name, content) {
        lemma_local_record_fields(entry);
        lemma_central_record_fields(entry, offset);
        lemma_le32_value(entry.crc32);
        lemma_le32_value(entry.data.len() as u32);
        lemma_le32_value(entry.uncompressed_size);
    }
}

impl ZipArchive {
    /// An archive without entries.
    pub fn new() -> (archive: ZipArchive)
        ensures
            archive@ == Seq::<EntryView>::empty(),
    {
        let archive = ZipArchive { files: Vec::new() };
        archive
    }

    /// The number of entries.
    pub fn len(&self) -> (n: usize)
        ensures
            n == self@.len(),
    {
        self.files.len()
    }

    /// Compresses `slice` and builds the entry of a regular file called
    /// `archived_name` from it: its checksum is the CRC-32 of `slice`, its
    /// size the length of `slice`, its data the DEFLATE stream of `slice`.
    ///
    /// A name of more than 65535 bytes and a content of more than 4294967295
    /// bytes are refused before anything is compressed. Equal names and equal
    /// contents give equal results.
    pub fn slice_to_archive_file(slice: &[u8], archived_name: &str) -> (r: Result<ZipFile, ZipError>)
        ensures
            outcome_view(r) == compressed_outcome(archived_name.spec_bytes(), slice@),
    {
        if archived_name.as_bytes().len() > MAX_NAME_LEN {
            return Err(ZipError::NameTooLong);
        }
        if slice.len() > 0xFFFF_FFFF {
            return Err(ZipError::EntryTooLarge);
        }
        match deflate_with_crc(slice) {
            Ok((data, crc)) => ZipFile::from_deflate(archived_name, slice.len(), crc, data),
            Err(_) => Err(ZipError::Compression),
        }
    }

    /// Appends an entry.
    pub fn add_entry(&mut self, file: ZipFile)
        ensures
            file@.wf(),
            final(self)@ == old(self)@.push(file@),
    {
        proof {
            use_type_invariant(&file);
        }
        self.files.push(file);
    }

    /// Compresses `slice` and appends it as the regular file `archived_name`.
    /// On an error the archive is left as it was.
    pub fn add_file_from_slice(&mut self, slice: &[u8], archived_name: &str) -> (r: Result<(), ZipError>)
        ensures
            match compressed_outcome(archived_name.spec_bytes(), slice@) {
                Ok(entry) => r == Ok::<(), ZipError>(()) && final(self)@ == old(self)@.push(entry),
                Err(e) => r == Err::<(), ZipError>(e) && final(self)@ == old(self)@,
            },
    {
        match ZipArchive::slice_to_archive_file(slice, archived_name) {
            Ok(file) => {
                self.add_entry(file);
                Ok(())
            },
            Err(e) => Err(e),
        }
    }

    /// Appends the entry of the directory `archived_name`: nothing is
    /// compressed. On an error the archive is left as it was.
    pub fn add_directory(&mut self, archived_name: &str) -> (r: Result<(), ZipError>)
        ensures
            match directory_outcome(archived_name.spec_bytes()) {
                Ok(entry) => r == Ok::<(), ZipError>(()) && final(self)@ == old(self)@.push(entry),
                Err(e) => r == Err::<(), ZipError>(e) && final(self)@ == old(self)@,
            },
    {
        match ZipFile::directory(archived_name) {
            Ok(file) => {
                self.add_entry(file);
                Ok(())
            },
            Err(e) => Err(e),
        }
    }

    /// Writes the archive to the end of `destination`: the local file record
    /// of every entry, then the central directory, then the end record.
    ///
    /// Positions are counted from byte 0 of `destination`, so what it already
    /// holds comes before the archive. Nothing is written when the archive
    /// holds more than 65535 entries, or when its central directory would end
    /// beyond byte 4294967295. What is written reads back as the entries of
    /// this archive.
    pub fn write(self, destination: &mut Vec<u8>) -> (r: Result<(), ZipError>)
        ensures
            match write_outcome(self@, old(destination)@.len()) {
                Ok(bytes) => {
                    &&& r == Ok::<(), ZipError>(())
                    &&& final(destination)@ == old(destination)@ + bytes
                    &&& read_archive(final(destination)@) == Some(self@)
                },
                Err(e) => r == Err::<(), ZipError>(e) && final(destination)@ == old(destination)@,
            },
    {
        let position: usize = destination.len();
        let r = self.write_at(position as u64, destination);
        proof {
            if r is Ok {
                written_archives_read_back(old(destination)@, self@);
            }
        }
        r
    }

    /// Appends to `destination` the archive as it stands from byte `position`
    /// of a larger output on: every stored offset counts from byte 0 of that
    /// output. Nothing is written when the archive holds more than 65535
    /// entries, or when its central directory would end beyond byte
    /// 4294967295 of the output.
    pub fn write_at(self, position: u64, destination: &mut Vec<u8>) -> (r: Result<(), ZipError>)
        ensures
            r is Ok ==> all_wf(self@),
            match write_outcome(self@, position as nat) {
                Ok(bytes) => r == Ok::<(), ZipError>(()) && final(destination)@ == old(
                    destination,
                )@ + bytes,
                Err(e) => r == Err::<(), ZipError>(e) && final(destination)@ == old(destination)@,
            },
    {
        let n: usize = self.files.len();
        if n > MAX_ENTRIES {
            return Err(ZipError::TooManyEntries);
        }
        let ghost entries = self@;
        let ghost start = destination@;
        let ghost base: nat = position as nat;

        // How long the two sections will be.
        let mut local_total: u64 = 0;
        let mut central_total: u64 = 0;
        let mut i: usize = 0;
        while i < n
            invariant
                n == self.files@.len(),
                n <= MAX_ENTRIES,
                i <= n,
                entries == self@,
                local_total == local_section(entries.take(i as int)).len(),
                central_total == central_section(entries.take(i as int), base).len(),
                local_total <= i * 0x2_0000_0000,
                central_total <= i * 0x2_0000,
                all_wf(entries.take(i as int)),
            decreases n - i,
        {
            let file = &self.files[i];
            let local_len: u64 = file.local_record_len();
            let central_len: u64 = file.central_record_len();
            proof {
                lemma_local_section_step(entries, i as int);
                lemma_central_section_step(entries, base, i as int);
                lemma_header_lengths(entries[i as int], 0);
            }
            local_total = local_total + local_len;
            central_total = central_total + central_len;
            i = i + 1;
        }
        assert(entries.take(n as int) =~= entries);
        if position > 0xFFFF_FFFF || position + local_total + central_total > 0xFFFF_FFFF {
            return Err(ZipError::ArchiveTooLarge);
        }
        // The local file records, and where each one starts.

        let mut offsets: Vec<u32> = Vec::new();
        let mut offset: u64 = position;
        let mut i: usize = 0;
        while i < n
            invariant
                n == self.files@.len(),
                i <= n,
                entries == self@,
                base == position,
                archive_fits(entries, base),
                destination@ == start + local_section(entries.take(i as int)),
                offset == local_offset(entries, base, i as int),
                offsets@.len() == i,
                forall|j: int| 0 <= j < i ==> offsets@[j] == local_offset(entries, base, j),
            decreases n - i,
        {
            proof {
                lemma_local_section_monotonic(entries, i as int, n as int);
                lemma_local_section_monotonic(entries, i as int + 1, n as int);
                assert(entries.take(n as int) =~= entries);
                lemma_local_section_step(entries, i as int);
                lemma_concat_assoc(
                    start,
                    local_section(entries.take(i as int)),
                    local_record(entries[i as int]),
                );
            }
            offsets.push(offset as u32);
            self.files[i].to_bytes_filerecord(destination);
            offset = offset + self.files[i].local_record_len();
            i = i + 1;
        }

        // The central directory.
        let directory_start: u32 = offset as u32;
        let mut i: usize = 0;
        while i < n
            invariant
                n == self.files@.len(),
                i <= n,
                entries == self@,
                base == position,
                archive_fits(entries, base),
                destination@ == start + local_section(entries) + central_section(
                    entries.take(i as int),
                    base,
                ),
                offset == directory_offset(entries, base) + central_section(
                    entries.take(i as int),
                    base,
                ).len(),
                offsets@.len() == n,
                forall|j: int| 0 <= j < n ==> offsets@[j] == local_offset(entries, base, j),
            decreases n - i,
        {
            proof {
                lemma_central_section_monotonic(entries, base, i as int + 1, n as int);
                assert(entries.take(n as int) =~= entries);
                lemma_central_section_step(entries, base, i as int);
                lemma_concat_assoc(
                    start + local_section(entries),
                    central_section(entries.take(i as int), base),
                    central_record(entries[i as int], local_offset(entries, base, i as int) as u32),
                );
            }
            self.files[i].to_bytes_direntry(destination, offsets[i]);
            offset = offset + self.files[i].central_record_len();
            i = i + 1;
        }

        // The end record.
        let directory_stop: u32 = offset as u32;
        put_end_record(destination, n as u16, directory_stop - directory_start, directory_start);
        proof {
            let locals = local_section(entries);
            let central = central_section(entries, base);
            let trailer = archive_trailer(entries, base);
            lemma_concat_assoc(start + locals, central, trailer);
            lemma_concat_assoc(start, locals, central + trailer);
            lemma_concat_assoc(locals, central, trailer);
        }
        Ok(())
    }
}

} // verus!

//! Archive entries: what is stored for one file or one directory.

use crate::le::{field_bytes, field_u16, field_u32, le32, put_u32};
use crate::record::{
    central_record, lemma_header_lengths, local_record, CENTRAL_HEADER_LEN,
    DIRECTORY_ENTRY_SIGNATURE, FILE_RECORD_SIGNATURE, LOCAL_HEADER_LEN, VERSION_MADE_BY,
    VERSION_NEEDED_TO_EXTRACT,
};
use vstd::prelude::*;
use vstd::slice::slice_to_vec;
use vstd::string::*;

verus! {

/// External attributes of a regular file: UNIX mode `0100644` in the upper 16 bits.
pub const FILE_ATTRIBUTES: u32 = 0x81A4_0000;

/// External attributes of a directory: UNIX mode `040755` in the upper 16 bits.
pub const DIRECTORY_ATTRIBUTES: u32 = 0x41ED_0000;

/// The longest entry name, in bytes, that the 16-bit name length field can hold.
pub const MAX_NAME_LEN: usize = 0xFFFF;

/// The byte `/`.
pub const SLASH: u8 = 0x2F;

/// The byte `\`.
pub const BACKSLASH: u8 = 0x5C;

/// How the data of an entry is stored. Only directory entries are `Stored`.
#[derive(Debug, Clone, Copy, PartialEq, Eq, Structural)]
pub enum CompressionType {
    /// The data is stored as it is.
    Stored,
    /// The data is a raw DEFLATE stream.
    Deflate,
}

impl CompressionType {
    /// The method code of the ZIP format: 0 for `Stored`, 8 for `Deflate`.
    pub open spec fn spec_code(self) -> u16 {
        match self {
            CompressionType::Stored => 0,
            CompressionType::Deflate => 8,
        }
    }

    /// The method code of the ZIP format: 0 for `Stored`, 8 for `Deflate`.
    #[verifier::when_used_as_spec(spec_code)]
    pub fn code(self) -> (c: u16)
        ensures
            c == self.spec_code(),
    {
        match self {
            CompressionType::Stored => 0,
            CompressionType::Deflate => 8,
        }
    }
}

/// Why an entry could not be built or an archive could not be written.
#[derive(Debug, Clone, Copy, PartialEq, Eq, Structural)]
pub enum ZipError {
    /// The entry name is longer than 65535 bytes.
    NameTooLong,
    /// The data of an entry, before or after compression, is longer than
    /// 4294967295 bytes.
    EntryTooLarge,
    /// The compressor yielded no stream for the content.
    Compression,
    /// The archive holds more than 65535 entries.
    TooManyEntries,
    /// The central directory would end beyond byte 4294967295 of the destination.
    ArchiveTooLarge,
}

/// The mathematical content of an entry.
pub struct EntryView {
    /// How the data is stored.
    pub method: CompressionType,
    /// The CRC-32 checksum of the content before compression.
    pub crc32: u32,
    /// The length of the content before compression.
    pub uncompressed_size: u32,
    /// The name under which the entry is stored, with `/` between its parts.
    pub name: Seq<u8>,
    /// The content as it is stored.
    pub data: Seq<u8>,
    /// The UNIX mode of the entry, in the upper 16 bits.
    pub external_attributes: u32,
}

impl EntryView {
    /// The entry stands for a directory.
    pub open spec fn is_directory(self) -> bool {
        self.external_attributes == DIRECTORY_ATTRIBUTES
    }

    /// The name and the stored data fit the 16-bit and 32-bit fields of the
    /// format, and the entry is either a directory entry (name ending in `/`
    /// without any `\`, no data, zero checksum and size, stored) or a deflated
    /// regular file.
    pub open spec fn wf(self) -> bool {
        &&& self.name.len() <= MAX_NAME_LEN
        &&& self.data.len() <= u32::MAX
        &&& if self.is_directory() {
            &&& self.method == CompressionType::Stored
            &&& self.crc32 == 0
            &&& self.uncompressed_size == 0
            &&& self.data.len() == 0
            &&& self.name.len() > 0
            &&& self.name.last() == SLASH
            &&& !self.name.contains(BACKSLASH)
        } else {
            &&& self.method == CompressionType::Deflate
            &&& self.external_attributes == FILE_ATTRIBUTES
        }
    }
}

/// Every entry of `entries` is well formed.
pub open spec fn all_wf(entries: Seq<EntryView>) -> bool {
    forall|i: int| 0 <= i < entries.len() ==> (#[trigger] entries[i]).wf()
}

/// The entry of a regular file called `name` whose `uncompressed_size` bytes
/// have the checksum `crc32` and compress to `data`.
pub open spec fn file_entry(
    name: Seq<u8>,
    uncompressed_size: u32,
    crc32: u32,
    data: Seq<u8>,
) -> EntryView {
    EntryView {
        method: CompressionType::Deflate,
        crc32,
        uncompressed_size,
        name,
        data,
        external_attributes: FILE_ATTRIBUTES,
    }
}

/// `name` with every `\` turned into `/`.
pub open spec fn with_forward_slashes(name: Seq<u8>) -> Seq<u8> {
    Seq::new(name.len(), |i: int| if name[i] == BACKSLASH { SLASH } else { name[i] })
}

/// The name under which a directory called `name` is stored: every `\` becomes
/// `/`, and a `/` is appended unless the name already ends in one.
pub open spec fn directory_name(name: Seq<u8>) -> Seq<u8> {
    let slashed = with_forward_slashes(name);
    if slashed.len() > 0 && slashed.last() == SLASH {
        slashed
    } else {
        slashed.push(SLASH)
    }
}

/// The entry of a directory stored under `name`.
pub open spec fn directory_entry(name: Seq<u8>) -> EntryView {
    EntryView {
        method: CompressionType::Stored,
        crc32: 0,
        uncompressed_size: 0,
        name,
        data: Seq::empty(),
        external_attributes: DIRECTORY_ATTRIBUTES,
    }
}

/// What building the entry of a regular file gives: the entry, or the reason
/// why there is none. The name may take 65535 bytes; the content, before and
/// after compression, 4294967295 bytes each.
pub open spec fn file_outcome(
    name: Seq<u8>,
    uncompressed_len: nat,
    crc32: u32,
    data: Seq<u8>,
) -> Result<EntryView, ZipError> {
    if name.len() > MAX_NAME_LEN {
        Err(ZipError::NameTooLong)
    } else if uncompressed_len > u32::MAX || data.len() > u32::MAX {
        Err(ZipError::EntryTooLarge)
    } else {
        Ok(file_entry(name, uncompressed_len as u32, crc32, data))
    }
}

/// What building the entry of the directory `name` gives: the entry, or the
/// reason why there is none. The stored name may take 65535 bytes.
pub open spec fn directory_outcome(name: Seq<u8>) -> Result<EntryView, ZipError> {
    if directory_name(name).len() > MAX_NAME_LEN {
        Err(ZipError::NameTooLong)
    } else {
        Ok(directory_entry(directory_name(name)))
    }
}

/// The outcome of building an entry, with the entry taken by its content.
pub open spec fn outcome_view(r: Result<ZipFile, ZipError>) -> Result<EntryView, ZipError> {
    match r {
        Ok(file) => Ok(file@),
        Err(e) => Err(e),
    }
}

/// A directory is stored under a name that ends in `/` and holds no `\`; its
/// entry has no data, a zero checksum and a zero size, and is stored
/// uncompressed.
pub proof fn directory_entries_are_empty_and_end_in_slash(name: Seq<u8>)
    ensures
        ({
            let stored = directory_name(name);
            let entry = directory_entry(stored);
            &&& stored.len() > 0
            &&& stored.last() == SLASH
            &&& !stored.contains(BACKSLASH)
            &&& entry.is_directory()
            &&& entry.name == stored
            &&& entry.data.len() == 0
            &&& entry.crc32 == 0
            &&& entry.uncompressed_size == 0
            &&& entry.method == CompressionType::Stored
            &&& directory_outcome(name) is Ok ==> entry.wf()
        }),
{
    let stored = directory_name(name);
    assert forall|k: int| 0 <= k < stored.len() implies stored[k] != BACKSLASH by {}
}

/// Every entry that is built is well formed.
pub proof fn built_entries_are_well_formed(
    name: Seq<u8>,
    uncompressed_len: nat,
    crc32: u32,
    data: Seq<u8>,
)
    ensures
        file_outcome(name, uncompressed_len, crc32, data) matches Ok(entry) ==> entry.wf()
            && !entry.is_directory(),
        directory_outcome(name) matches Ok(entry) ==> entry.wf() && entry.is_directory(),
{
    directory_entries_are_empty_and_end_in_slash(name);
}

/// One entry of an archive: a compressed regular file or a directory.
#[derive(Debug, PartialEq, Eq)]
pub struct ZipFile {
    compression_type: CompressionType,
    crc: u32,
    uncompressed_size: u32,
    filename: Vec<u8>,
    data: Vec<u8>,
    external_file_attributes: u32,
}

impl View for ZipFile {
    type V = EntryView;

    closed spec fn view(&self) -> EntryView {
        EntryView {
            method: self.compression_type,
            crc32: self.crc,
            uncompressed_size: self.uncompressed_size,
            name: self.filename@,
            data: self.data@,
            external_attributes: self.external_file_attributes,
        }
    }
}

impl ZipFile {
    /// Every entry that exists is well formed.
    #[verifier::type_invariant]
    pub open spec fn inv(&self) -> bool {
        self@.wf()
    }

    /// Builds the entry of a regular file from what the compressor returned
    /// for it: `uncompressed_len` is the length of the file before compression,
    /// `crc` its checksum and `data` its DEFLATE stream.
    pub fn from_deflate(
        archived_name: &str,
        uncompressed_len: usize,
        crc: u32,
        data: Vec<u8>,
    ) -> (r: Result<ZipFile, ZipError>)
        ensures
            outcome_view(r) == file_outcome(
                archived_name.spec_bytes(),
                uncompressed_len as nat,
                crc,
                data@,
            ),
    {
        let name = archived_name.as_bytes();
        if name.len() > MAX_NAME_LEN {
            return Err(ZipError::NameTooLong);
        }
        if uncompressed_len > 0xFFFF_FFFF || data.len() > 0xFFFF_FFFF {
            return Err(ZipError::EntryTooLarge);
        }
        Ok(
            ZipFile {
                compression_type: CompressionType::Deflate,
                crc,
                uncompressed_size: uncompressed_len as u32,
                filename: slice_to_vec(name),
                data,
                external_file_attributes: FILE_ATTRIBUTES,
            },
        )
    }

    /// Builds the entry of the directory `name`: every `\` of the name becomes
    /// `/`, and a `/` is appended unless the name already ends in one. The
    /// contract states this of the bytes of the name; `directory_names_of_text`
    /// shows that it is the same for its characters.
    pub fn directory(name: &str) -> (r: Result<ZipFile, ZipError>)
        ensures
            outcome_view(r) == directory_outcome(name.spec_bytes()),
    {
        let bytes = name.as_bytes();
        let n: usize = bytes.len();
        if n > MAX_NAME_LEN {
            return Err(ZipError::NameTooLong);
        }
        let mut stored: Vec<u8> = Vec::new();
        let mut i: usize = 0;
        while i < n
            invariant
                n == bytes@.len(),
                i <= n,
                stored@ == with_forward_slashes(bytes@.take(i as int)),
            decreases n - i,
        {
            let b: u8 = bytes[i];
            stored.push(if b == BACKSLASH { SLASH } else { b });
            i = i + 1;
        }
        assert(bytes@.take(n as int) =~= bytes@);
        if n == 0 || stored[n - 1] != SLASH {
            if n == MAX_NAME_LEN {
                return Err(ZipError::NameTooLong);
            }
            stored.push(SLASH);
        }
        proof {
            directory_entries_are_empty_and_end_in_slash(bytes@);
        }
        Ok(
            ZipFile {
                compression_type: CompressionType::Stored,
                crc: 0,
                uncompressed_size: 0,
                filename: stored,
                data: Vec::new(),
                external_file_attributes: DIRECTORY_ATTRIBUTES,
            },
        )
    }

    /// How the data is stored.
    pub fn compression_type(&self) -> (method: CompressionType)
        ensures
            method == self@.method,
    {
        self.compression_type
    }

    /// The CRC-32 checksum of the content before compression.
    pub fn crc(&self) -> (crc: u32)
        ensures
            crc == self@.crc32,
    {
        self.crc
    }

    /// The length of the content before compression.
    pub fn uncompressed_size(&self) -> (size: u32)
        ensures
            size == self@.uncompressed_size,
    {
        self.uncompressed_size
    }

    /// The name under which the entry is stored, as bytes.
    pub fn filename(&self) -> (name: &[u8])
        ensures
            name@ == self@.name,
    {
        self.filename.as_slice()
    }

    /// The content as it is stored.
    pub fn data(&self) -> (data: &[u8])
        ensures
            data@ == self@.data,
    {
        self.data.as_slice()
    }

    /// The external attributes: the UNIX mode in the upper 16 bits.
    pub fn external_file_attributes(&self) -> (attributes: u32)
        ensures
            attributes == self@.external_attributes,
    {
        self.external_file_attributes
    }

    /// Whether the entry stands for a directory.
    pub fn is_directory(&self) -> (b: bool)
        ensures
            b == self@.is_directory(),
    {
        self.external_file_attributes == DIRECTORY_ATTRIBUTES
    }

    /// The length of the local file record of this entry.
    pub fn local_record_len(&self) -> (n: u64)
        ensures
            self@.wf(),
            n == local_record(self@).len(),
    {
        proof {
            use_type_invariant(self);
            lemma_header_lengths(self@, 0);
        }
        LOCAL_HEADER_LEN as u64 + self.filename.len() as u64 + self.data.len() as u64
    }

    /// The length of the central directory record of this entry.
    pub fn central_record_len(&self) -> (n: u64)
        ensures
            self@.wf(),
            forall|offset: u32| n == (#[trigger] central_record(self@, offset)).len(),
    {
        proof {
            use_type_invariant(self);
            assert forall|offset: u32|
                CENTRAL_HEADER_LEN + self@.name.len() == (#[trigger] central_record(
                    self@,
                    offset,
                )).len() by {
                lemma_header_lengths(self@, offset);
            }
        }
        CENTRAL_HEADER_LEN as u64 + self.filename.len() as u64
    }

    /// Appends the local file record of this entry to `buf`.
    pub fn to_bytes_filerecord(&self, buf: &mut Vec<u8>)
        ensures
            final(buf)@ == old(buf)@ + local_record(self@),
    {
        proof {
            use_type_invariant(self);
        }
        let base = Ghost(buf@);
        // signature
        put_u32(buf, FILE_RECORD_SIGNATURE);
        let f = Ghost(le32(FILE_RECORD_SIGNATURE));
        // version needed to extract
        let f = field_u16(buf, VERSION_NEEDED_TO_EXTRACT, base, f);
        // flags
        let f = field_u16(buf, 0, base, f);
        // method
        let f = field_u16(buf, self.compression_type.code(), base, f);
        // time
        let f = field_u16(buf, 0, base, f);
        // date
        let f = field_u16(buf, 0, base, f);
        // checksum
        let f = field_u32(buf, self.crc, base, f);
        // compressed size
        let f = field_u32(buf, self.data.len() as u32, base, f);
        // uncompressed size
        let f = field_u32(buf, self.uncompressed_size, base, f);
        // name length
        let f = field_u16(buf, self.filename.len() as u16, base, f);
        // extra field length
        let f = field_u16(buf, 0, base, f);
        // name
        let f = field_bytes(buf, self.filename.as_slice(), base, f);
        // data
        let _ = field_bytes(buf, self.data.as_slice(), base, f);
    }

    /// Appends the central directory record of this entry to `buf`, with
    /// `local_header_offset` as the place of its local file record.
    pub fn to_bytes_direntry(&self, buf: &mut Vec<u8>, local_header_offset: u32)
        ensures
            final(buf)@ == old(buf)@ + central_record(self@, local_header_offset),
    {
        proof {
            use_type_invariant(self);
        }
        let base = Ghost(buf@);
        // signature
        put_u32(buf, DIRECTORY_ENTRY_SIGNATURE);
        let f = Ghost(le32(DIRECTORY_ENTRY_SIGNATURE));
        // version made by
        let f = field_u16(buf, VERSION_MADE_BY, base, f);
        // version needed to extract
        let f = field_u16(buf, VERSION_NEEDED_TO_EXTRACT, base, f);
        // flags
        let f = field_u16(buf, 0, base, f);
        // method
        let f = field_u16(buf, self.compression_type.code(), base, f);
        // time
        let f = field_u16(buf, 0, base, f);
        // date
        let f = field_u16(buf, 0, base, f);
        // checksum
        let f = field_u32(buf, self.crc, base, f);
        // compressed size
        let f = field_u32(buf, self.data.len() as u32, base, f);
        // uncompressed size
        let f = field_u32(buf, self.uncompressed_size, base, f);
        // name length
        let f = field_u16(buf, self.filename.len() as u16, base, f);
        // extra field length
        let f = field_u16(buf, 0, base, f);
        // comment length
        let f = field_u16(buf, 0, base, f);
        // disk number
        let f = field_u16(buf, 0, base, f);
        // internal attributes
        let f = field_u16(buf, 0, base, f);
        // external attributes
        let f = field_u32(buf, self.external_file_attributes, base, f);
        // offset of the local file record
        let f = field_u32(buf, local_header_offset, base, f);
        // name
        let _ = field_bytes(buf, self.filename.as_slice(), base, f);
    }
}

} // verus!

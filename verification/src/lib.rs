//! ZIP archives built from in-memory buffers and directory names.
//!
//! An [`archive::ZipArchive`] collects entries: regular files, compressed with
//! DEFLATE, and directories. Writing it emits the local file record of every
//! entry, the central directory and the end-of-central-directory record.
//!
//! What is proved of the bytes that are written:
//! - they are exactly `layout::archive_bytes` of the entries, in the order in
//!   which the entries were added;
//! - every offset that the central directory stores is the position of a
//!   local file record, and the end record gives the count of entries and the
//!   place and size of the central directory;
//! - a reader that follows the format (`reader::read_archive`) finds the
//!   entries again, each with its name, checksum, sizes and data.
//!
//! Compression and checksums come from `flate2`; what is taken on trust about
//! it stands in [`codec`]. The checksum is the CRC-32 that [`crc`] defines.
//!
//! - [`le`]: little-endian fields.
//! - [`entry`]: entries and how they are built.
//! - [`name`]: directory names as text.
//! - [`record`]: the three kinds of record, field by field.
//! - [`layout`]: the archive as a whole.
//! - [`reader`]: a model of a reader.
//! - [`archive`]: the archive under construction and its serialisation.
//! - [`crc`]: the CRC-32 checksum.
//! - [`codec`]: the compressor.

pub mod archive;
pub mod codec;
pub mod crc;
pub mod entry;
pub mod layout;
pub mod le;
pub mod name;
pub mod reader;
pub mod record;

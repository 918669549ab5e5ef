//! DEFLATE compression and CRC-32 checksums, both computed by `flate2`.
//!
//! Nothing in this module is proved: the contract below is what the rest of
//! the crate takes on trust about `flate2`.

use crate::crc::crc32_of;
use flate2::read::DeflateEncoder;
use flate2::{Compression, CrcReader};
use std::io::Read;
use vstd::prelude::*;

verus! {

/// `std::io::Error`, the error that reading from a `flate2` encoder reports.
#[verifier::external_type_specification]
#[verifier::external_body]
pub struct ExIoError(std::io::Error);

/// What `flate2::read::DeflateEncoder` yields at compression level 9 when it
/// is read to its end over a source that holds exactly `input`: the raw
/// DEFLATE stream, or nothing where the read reports an error.
pub uninterp spec fn deflate_of(input: Seq<u8>) -> Option<Seq<u8>>;

/// Compresses `input` and computes its checksum in one pass.
///
/// Calls `flate2::read::DeflateEncoder::new` at level 9 over a
/// `flate2::CrcReader` that wraps `input`, reads the encoder to its end, and
/// then takes `CrcReader::crc().sum()`. The contract claims that whether the
/// read succeeds, and what it yields, depends on the input alone: it succeeds
/// exactly where `deflate_of(input)` is some stream, and the bytes read are
/// that stream. It claims that the checksum is the CRC-32 of the input, which
/// `flate2` has from `crc32fast`, documented as the IEEE CRC-32.
#[verifier::external_body]
pub(crate) fn deflate_with_crc(input: &[u8]) -> (r: Result<(Vec<u8>, u32), std::io::Error>)
    ensures
        match r {
            Ok(out) => deflate_of(input@) == Some(out.0@) && out.1 == crc32_of(input@),
            Err(_) => deflate_of(input@) is None,
        },
{
    let mut encoder = DeflateEncoder::new(CrcReader::new(input), Compression::new(9));
    let mut data = Vec::new();
    match encoder.read_to_end(&mut data) {
        Ok(_) => Ok((data, encoder.into_inner().crc().sum())),
        Err(e) => Err(e),
    }
}

} // verus!

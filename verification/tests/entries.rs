use flate2::read::DeflateDecoder;
use parallel_zip::archive::ZipArchive;
use parallel_zip::entry::{
    CompressionType, ZipError, ZipFile, DIRECTORY_ATTRIBUTES, FILE_ATTRIBUTES,
};
use std::io::Read;

fn inflate(data: &[u8]) -> Vec<u8> {
    let mut out = Vec::new();
    DeflateDecoder::new(data).read_to_end(&mut out).unwrap();
    out
}

#[test]
fn attributes_carry_the_unix_modes() {
    assert_eq!(FILE_ATTRIBUTES, 0o100644 << 16);
    assert_eq!(DIRECTORY_ATTRIBUTES, 0o40755 << 16);
}

#[test]
fn checksum_of_hello() {
    let file = ZipArchive::slice_to_archive_file(b"hello", "hello.txt").unwrap();
    assert_eq!(file.crc(), 0x3610_A686);
    assert_eq!(file.uncompressed_size(), 5);
    assert_eq!(file.filename(), b"hello.txt");
    assert_eq!(file.compression_type(), CompressionType::Deflate);
    assert_eq!(file.external_file_attributes(), 0o100644 << 16);
    assert!(!file.is_directory());
    assert_ne!(file.data(), b"hello");
    assert_eq!(inflate(file.data()), b"hello");
}

#[test]
fn checksum_of_the_check_string() {
    let file = ZipArchive::slice_to_archive_file(b"123456789", "digits").unwrap();
    assert_eq!(file.crc(), 0xCBF4_3926);
    assert_eq!(file.uncompressed_size(), 9);
    assert_eq!(inflate(file.data()), b"123456789");
}

#[test]
fn equal_names_and_contents_give_equal_entries() {
    let content: Vec<u8> = (0..5000usize).map(|k| (k * k % 253) as u8).collect();
    let copy = content.clone();
    let first = ZipArchive::slice_to_archive_file(&content, "same.bin");
    let second = ZipArchive::slice_to_archive_file(&copy, "same.bin");
    assert!(first.is_ok());
    assert_eq!(first, second);
    let file = first.unwrap();
    assert_eq!(file.uncompressed_size(), 5000);
    assert_eq!(inflate(file.data()), content);
}

#[test]
fn empty_content() {
    let file = ZipArchive::slice_to_archive_file(b"", "empty").unwrap();
    assert_eq!(file.crc(), 0);
    assert_eq!(file.uncompressed_size(), 0);
    assert_eq!(file.data(), &[3u8, 0]);
    assert_eq!(inflate(file.data()), b"");
    assert_eq!(file.compression_type(), CompressionType::Deflate);
}

#[test]
fn repetitive_content_shrinks() {
    let content = vec![b'z'; 100_000];
    let file = ZipArchive::slice_to_archive_file(&content, "z").unwrap();
    assert_eq!(file.uncompressed_size(), 100_000);
    assert!(file.data().len() < 1000);
    assert_eq!(inflate(file.data()), content);
    assert_eq!(file.local_record_len(), 30 + 1 + file.data().len() as u64);
}

#[test]
fn file_names_are_kept_as_they_are() {
    let file = ZipArchive::slice_to_archive_file(b"x", "a\\b.txt").unwrap();
    assert_eq!(file.filename(), b"a\\b.txt");
    let file = ZipArchive::slice_to_archive_file(b"x", "d\u{e9}j\u{e0}").unwrap();
    assert_eq!(file.filename(), "d\u{e9}j\u{e0}".as_bytes());
}

#[test]
fn directory_entry_shape() {
    let dir = ZipFile::directory("docs").unwrap();
    assert_eq!(dir.filename(), b"docs/");
    assert_eq!(dir.crc(), 0);
    assert_eq!(dir.uncompressed_size(), 0);
    assert!(dir.data().is_empty());
    assert_eq!(dir.compression_type(), CompressionType::Stored);
    assert_eq!(dir.external_file_attributes(), 0o40755 << 16);
    assert!(dir.is_directory());
    assert_eq!(dir.local_record_len(), 35);
    assert_eq!(dir.central_record_len(), 51);
}

#[test]
fn directory_names_are_normalised() {
    assert_eq!(ZipFile::directory("docs/").unwrap().filename(), b"docs/");
    assert_eq!(ZipFile::directory("a\\b").unwrap().filename(), b"a/b/");
    assert_eq!(ZipFile::directory("a\\b\\").unwrap().filename(), b"a/b/");
    assert_eq!(ZipFile::directory("a/b\\c/").unwrap().filename(), b"a/b/c/");
    assert_eq!(ZipFile::directory("").unwrap().filename(), b"/");
    assert_eq!(ZipFile::directory("\\").unwrap().filename(), b"/");
    assert_eq!(
        ZipFile::directory("caf\u{e9}\\menu").unwrap().filename(),
        "caf\u{e9}/menu/".as_bytes()
    );
}

#[test]
fn names_longer_than_the_length_field_are_refused() {
    let long = "n".repeat(65536);
    assert_eq!(
        ZipArchive::slice_to_archive_file(b"x", &long).err(),
        Some(ZipError::NameTooLong)
    );
    assert_eq!(ZipFile::from_deflate(&long, 1, 0, vec![0]).err(), Some(ZipError::NameTooLong));
    assert_eq!(ZipFile::directory(&long).err(), Some(ZipError::NameTooLong));

    let longest = "n".repeat(65535);
    assert_eq!(
        ZipArchive::slice_to_archive_file(b"x", &longest).unwrap().filename().len(),
        65535
    );
    // the slash that is appended makes it one byte too long
    assert_eq!(ZipFile::directory(&longest).err(), Some(ZipError::NameTooLong));
    let mut with_slash = "n".repeat(65534);
    with_slash.push('/');
    assert_eq!(ZipFile::directory(&with_slash).unwrap().filename().len(), 65535);
    let mut with_backslash = "n".repeat(65534);
    with_backslash.push('\\');
    assert_eq!(ZipFile::directory(&with_backslash).unwrap().filename().len(), 65535);
}

#[test]
fn sizes_beyond_32_bits_are_refused() {
    assert_eq!(
        ZipFile::from_deflate("big", 0x1_0000_0000, 0, vec![1]).err(),
        Some(ZipError::EntryTooLarge)
    );
    let file = ZipFile::from_deflate("big", 0xFFFF_FFFF, 1, vec![1]).unwrap();
    assert_eq!(file.uncompressed_size(), 0xFFFF_FFFF);
    // the name is looked at first
    let long = "n".repeat(65536);
    assert_eq!(
        ZipFile::from_deflate(&long, 0x1_0000_0000, 0, vec![1]).err(),
        Some(ZipError::NameTooLong)
    );
}

#[test]
fn a_refused_entry_leaves_the_archive_as_it_was() {
    let mut archive = ZipArchive::new();
    archive.add_directory("kept").unwrap();
    let long = "n".repeat(70000);
    assert_eq!(archive.add_directory(&long), Err(ZipError::NameTooLong));
    assert_eq!(archive.add_file_from_slice(b"x", &long), Err(ZipError::NameTooLong));
    assert_eq!(archive.len(), 1);
    let mut out = Vec::new();
    archive.write(&mut out).unwrap();
    assert_eq!(out.len(), 35 + 51 + 22);
}

#[test]
fn entries_are_written_in_the_order_they_were_added() {
    let first = ZipArchive::slice_to_archive_file(b"one", "1").unwrap();
    let second = ZipFile::directory("2").unwrap();
    let mut archive = ZipArchive::new();
    assert_eq!(archive.len(), 0);
    archive.add_entry(second);
    archive.add_entry(first);
    assert_eq!(archive.len(), 2);
    let mut out = Vec::new();
    archive.write(&mut out).unwrap();
    assert_eq!(&out[30..32], b"2/");
    assert_eq!(out[32 + 30], b'1');
}

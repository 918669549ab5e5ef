use parallel_zip::archive::ZipArchive;
use parallel_zip::entry::{CompressionType, ZipError, ZipFile};
use parallel_zip::le::{put_u16, put_u32};
use parallel_zip::record::put_end_record;

fn u16_at(bytes: &[u8], at: usize) -> u16 {
    u16::from_le_bytes([bytes[at], bytes[at + 1]])
}

fn u32_at(bytes: &[u8], at: usize) -> u32 {
    u32::from_le_bytes([bytes[at], bytes[at + 1], bytes[at + 2], bytes[at + 3]])
}

#[test]
fn little_endian_fields() {
    let mut buf = vec![0xAA];
    put_u16(&mut buf, 0x1234);
    put_u32(&mut buf, 0x04034B50);
    put_u16(&mut buf, 0);
    put_u32(&mut buf, 0xFFFF_FFFF);
    assert_eq!(
        buf,
        vec![0xAA, 0x34, 0x12, 0x50, 0x4B, 0x03, 0x04, 0, 0, 0xFF, 0xFF, 0xFF, 0xFF]
    );
}

#[test]
fn method_codes() {
    assert_eq!(CompressionType::Stored.code(), 0);
    assert_eq!(CompressionType::Deflate.code(), 8);
}

#[test]
fn end_record_bytes() {
    let mut buf = Vec::new();
    put_end_record(&mut buf, 2, 0x0102_0304, 0x0A0B_0C0D);
    assert_eq!(
        buf,
        vec![
            0x50, 0x4B, 0x05, 0x06, 0, 0, 0, 0, 2, 0, 2, 0, 0x04, 0x03, 0x02, 0x01, 0x0D, 0x0C,
            0x0B, 0x0A, 0, 0
        ]
    );
}

#[test]
fn empty_archive_is_the_end_record_alone() {
    let mut out = Vec::new();
    assert_eq!(ZipArchive::new().write(&mut out), Ok(()));
    let mut expected = vec![0x50, 0x4B, 0x05, 0x06];
    expected.extend_from_slice(&[0u8; 18]);
    assert_eq!(out, expected);
    assert_eq!(out.len(), 22);
}

#[test]
fn archive_of_one_directory_byte_for_byte() {
    let mut archive = ZipArchive::new();
    assert_eq!(archive.add_directory("docs"), Ok(()));
    assert_eq!(archive.len(), 1);
    let mut out = Vec::new();
    assert_eq!(archive.write(&mut out), Ok(()));

    let mut expected: Vec<u8> = Vec::new();
    // local file record
    expected.extend_from_slice(&[0x50, 0x4B, 0x03, 0x04]);
    expected.extend_from_slice(&[20, 0, 0, 0, 0, 0, 0, 0, 0, 0]);
    expected.extend_from_slice(&[0; 12]);
    expected.extend_from_slice(&[5, 0, 0, 0]);
    expected.extend_from_slice(b"docs/");
    // central directory record
    expected.extend_from_slice(&[0x50, 0x4B, 0x01, 0x02]);
    expected.extend_from_slice(&[0x3F, 0x03, 20, 0, 0, 0, 0, 0, 0, 0, 0, 0]);
    expected.extend_from_slice(&[0; 12]);
    expected.extend_from_slice(&[5, 0, 0, 0, 0, 0, 0, 0, 0, 0]);
    expected.extend_from_slice(&[0x00, 0x00, 0xED, 0x41]);
    expected.extend_from_slice(&[0, 0, 0, 0]);
    expected.extend_from_slice(b"docs/");
    // end record
    expected.extend_from_slice(&[0x50, 0x4B, 0x05, 0x06, 0, 0, 0, 0, 1, 0, 1, 0]);
    expected.extend_from_slice(&[51, 0, 0, 0, 35, 0, 0, 0, 0, 0]);
    assert_eq!(out.len(), 108);
    assert_eq!(out, expected);
}

#[test]
fn local_record_of_a_file_byte_for_byte() {
    let file = ZipFile::from_deflate("a.txt", 7, 0xDEAD_BEEF, vec![1, 2, 3]).unwrap();
    let mut out = vec![9, 9];
    file.to_bytes_filerecord(&mut out);
    let mut expected: Vec<u8> = vec![9, 9, 0x50, 0x4B, 0x03, 0x04, 20, 0, 0, 0, 8, 0, 0, 0, 0, 0];
    expected.extend_from_slice(&[0xEF, 0xBE, 0xAD, 0xDE, 3, 0, 0, 0, 7, 0, 0, 0, 5, 0, 0, 0]);
    expected.extend_from_slice(b"a.txt");
    expected.extend_from_slice(&[1, 2, 3]);
    assert_eq!(out, expected);
    assert_eq!(file.local_record_len(), 38);
}

#[test]
fn central_record_of_a_file_byte_for_byte() {
    let file = ZipFile::from_deflate("a.txt", 7, 0xDEAD_BEEF, vec![1, 2, 3]).unwrap();
    let mut out = Vec::new();
    file.to_bytes_direntry(&mut out, 0x0001_0203);
    let mut expected: Vec<u8> = vec![0x50, 0x4B, 0x01, 0x02, 0x3F, 0x03, 20, 0, 0, 0, 8, 0];
    expected.extend_from_slice(&[0, 0, 0, 0, 0xEF, 0xBE, 0xAD, 0xDE, 3, 0, 0, 0, 7, 0, 0, 0]);
    expected.extend_from_slice(&[5, 0, 0, 0, 0, 0, 0, 0, 0, 0]);
    // 0100644 << 16
    expected.extend_from_slice(&[0x00, 0x00, 0xA4, 0x81]);
    expected.extend_from_slice(&[0x03, 0x02, 0x01, 0x00]);
    expected.extend_from_slice(b"a.txt");
    assert_eq!(out, expected);
    assert_eq!(file.central_record_len(), 51);
}

#[test]
fn stored_offsets_point_at_local_signatures() {
    let mut archive = ZipArchive::new();
    archive.add_file_from_slice(&[7u8; 1000], "first.bin").unwrap();
    archive.add_directory("dir").unwrap();
    archive.add_file_from_slice(b"some more text, some more text", "dir/second.txt").unwrap();
    let mut out = Vec::new();
    archive.write(&mut out).unwrap();

    let end = out.len() - 22;
    assert_eq!(u32_at(&out, end), 0x06054B50);
    let directory_size = u32_at(&out, end + 12) as usize;
    let directory_start = u32_at(&out, end + 16) as usize;
    assert_eq!(directory_start + directory_size, end);

    let names: [&[u8]; 3] = [b"first.bin", b"dir/", b"dir/second.txt"];
    let mut at = directory_start;
    let mut expected_offset = 0usize;
    for name in names {
        assert_eq!(u32_at(&out, at), 0x02014B50);
        let compressed = u32_at(&out, at + 20) as usize;
        let name_len = u16_at(&out, at + 28) as usize;
        assert_eq!(&out[at + 46..at + 46 + name_len], name);
        let offset = u32_at(&out, at + 42) as usize;
        assert_eq!(offset, expected_offset);
        assert_eq!(u32_at(&out, offset), 0x04034B50);
        assert_eq!(u32_at(&out, offset + 18) as usize, compressed);
        assert_eq!(u16_at(&out, offset + 26) as usize, name_len);
        assert_eq!(&out[offset + 30..offset + 30 + name_len], name);
        expected_offset = offset + 30 + name_len + compressed;
        at += 46 + name_len;
    }
    assert_eq!(at, end);
    assert_eq!(expected_offset, directory_start);
}

#[test]
fn trailer_counts_and_directory_extent() {
    let mut archive = ZipArchive::new();
    for i in 0..300 {
        if i % 3 == 0 {
            archive.add_directory(&format!("d{}", i)).unwrap();
        } else {
            archive.add_file_from_slice(format!("content {}", i).as_bytes(), &format!("f{}", i)).unwrap();
        }
    }
    assert_eq!(archive.len(), 300);
    let mut out = Vec::new();
    archive.write(&mut out).unwrap();
    let end = out.len() - 22;
    assert_eq!(u16_at(&out, end + 8), 300);
    assert_eq!(u16_at(&out, end + 10), 300);
    let directory_size = u32_at(&out, end + 12) as usize;
    let directory_start = u32_at(&out, end + 16) as usize;
    assert_eq!(directory_size, end - directory_start);
    // the central directory starts where the local records end
    assert_eq!(u32_at(&out, directory_start), 0x02014B50);
    assert_eq!(u16_at(&out, end + 20), 0);
}

#[test]
fn write_counts_positions_from_the_start_of_the_destination() {
    let mut archive = ZipArchive::new();
    archive.add_directory("a").unwrap();
    archive.add_directory("b").unwrap();
    let mut out = vec![0xEE; 10];
    archive.write(&mut out).unwrap();
    assert_eq!(&out[..10], &[0xEE; 10]);
    let end = out.len() - 22;
    // two local records of 30 + 2 bytes after the 10 bytes that were there
    assert_eq!(u32_at(&out, end + 16), 10 + 32 + 32);
    let directory_start = u32_at(&out, end + 16) as usize;
    assert_eq!(u32_at(&out, directory_start + 42), 10);
    assert_eq!(u32_at(&out, directory_start + 48 + 42), 42);
    assert_eq!(u32_at(&out, 10), 0x04034B50);
    assert_eq!(u32_at(&out, 42), 0x04034B50);
}

#[test]
fn write_at_counts_positions_from_the_given_one() {
    let mut archive = ZipArchive::new();
    archive.add_directory("a").unwrap();
    let mut out = Vec::new();
    archive.write_at(1000, &mut out).unwrap();
    assert_eq!(out.len(), 32 + 48 + 22);
    assert_eq!(u32_at(&out, 32 + 42), 1000);
    assert_eq!(u32_at(&out, 80 + 16), 1032);
    assert_eq!(u32_at(&out, 80 + 12), 48);
}

#[test]
fn too_many_entries_are_refused() {
    let mut archive = ZipArchive::new();
    for _ in 0..65536 {
        archive.add_directory("d").unwrap();
    }
    assert_eq!(archive.len(), 65536);
    let mut out = vec![1, 2, 3];
    assert_eq!(archive.write(&mut out), Err(ZipError::TooManyEntries));
    assert_eq!(out, vec![1, 2, 3]);
}

#[test]
fn the_most_entries_that_fit() {
    let mut archive = ZipArchive::new();
    for _ in 0..65535 {
        archive.add_directory("d").unwrap();
    }
    let mut out = Vec::new();
    assert_eq!(archive.write(&mut out), Ok(()));
    let end = out.len() - 22;
    assert_eq!(u16_at(&out, end + 8), 0xFFFF);
    assert_eq!(u16_at(&out, end + 10), 0xFFFF);
    assert_eq!(out.len(), 65535 * (32 + 48) + 22);
}

#[test]
fn an_archive_beyond_four_gigabytes_is_refused() {
    let mut archive = ZipArchive::new();
    archive.add_directory("d").unwrap();
    let mut out = Vec::new();
    // 32 bytes of local record and 48 of central directory end at 4294967296
    assert_eq!(archive.write_at(0xFFFF_FFFF - 79, &mut out), Err(ZipError::ArchiveTooLarge));
    assert!(out.is_empty());

    let mut archive = ZipArchive::new();
    archive.add_directory("d").unwrap();
    assert_eq!(archive.write_at(0xFFFF_FFFF - 80, &mut out), Ok(()));
    assert_eq!(u32_at(&out, 80 + 16), 0xFFFF_FFFF - 48);

    let mut out = Vec::new();
    assert_eq!(ZipArchive::new().write_at(0x1_0000_0000, &mut out), Err(ZipError::ArchiveTooLarge));
    assert_eq!(ZipArchive::new().write_at(0xFFFF_FFFF, &mut out), Ok(()));
}

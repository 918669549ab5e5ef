use parallel_zip::archive::ZipArchive;
use std::io::{Cursor, Read};
use zip::CompressionMethod;

fn read_entry(reader: &mut zip::ZipArchive<Cursor<Vec<u8>>>, name: &str) -> Vec<u8> {
    let mut file = reader.by_name(name).unwrap();
    let mut content = Vec::new();
    file.read_to_end(&mut content).unwrap();
    content
}

#[test]
fn hello_and_docs() {
    let mut archive = ZipArchive::new();
    archive.add_file_from_slice(b"hello", "hello.txt").unwrap();
    archive.add_directory("docs").unwrap();
    let mut out = Vec::new();
    archive.write(&mut out).unwrap();

    let mut reader = zip::ZipArchive::new(Cursor::new(out)).unwrap();
    assert_eq!(reader.len(), 2);
    assert_eq!(read_entry(&mut reader, "hello.txt"), b"hello");
    {
        let hello = reader.by_name("hello.txt").unwrap();
        assert_eq!(hello.size(), 5);
        assert_eq!(hello.crc32(), 0x3610_A686);
        assert_eq!(hello.compression(), CompressionMethod::Deflated);
        assert_eq!(hello.unix_mode(), Some(0o100644));
        assert!(!hello.is_dir());
    }
    let docs = reader.by_name("docs/").unwrap();
    assert!(docs.is_dir());
    assert_eq!(docs.size(), 0);
    assert_eq!(docs.compressed_size(), 0);
    assert_eq!(docs.crc32(), 0);
    assert_eq!(docs.compression(), CompressionMethod::Stored);
    assert_eq!(docs.unix_mode(), Some(0o40755));
}

#[test]
fn an_empty_archive_is_read_as_empty() {
    let mut out = Vec::new();
    ZipArchive::new().write(&mut out).unwrap();
    let reader = zip::ZipArchive::new(Cursor::new(out)).unwrap();
    assert_eq!(reader.len(), 0);
    assert!(reader.is_empty());
}

#[test]
fn every_file_extracts_to_its_content() {
    let contents: Vec<(String, Vec<u8>)> = (0..40usize)
        .map(|i| {
            let content: Vec<u8> = (0..i * 257).map(|k| ((k * 31 + i) % 251) as u8).collect();
            (format!("dir{}/file{}.bin", i % 4, i), content)
        })
        .collect();
    let mut archive = ZipArchive::new();
    for d in 0..4 {
        archive.add_directory(&format!("dir{}", d)).unwrap();
    }
    for (name, content) in &contents {
        archive.add_file_from_slice(content, name).unwrap();
    }
    let mut out = Vec::new();
    archive.write(&mut out).unwrap();

    let mut reader = zip::ZipArchive::new(Cursor::new(out.clone())).unwrap();
    assert_eq!(reader.len(), 44);
    for (index, (name, content)) in contents.iter().enumerate() {
        assert_eq!(&read_entry(&mut reader, name), content);
        let file = reader.by_index(index + 4).unwrap();
        assert_eq!(file.name(), name);
        assert_eq!(file.size(), content.len() as u64);
        // the stored offset is where the local record starts
        let at = file.header_start() as usize;
        assert_eq!(&out[at..at + 4], &[0x50, 0x4B, 0x03, 0x04]);
        assert_eq!(file.data_start() as usize, at + 30 + name.len());
    }
    for d in 0..4 {
        assert!(reader.by_name(&format!("dir{}/", d)).unwrap().is_dir());
    }
}

#[test]
fn the_reader_finds_the_directory_where_the_trailer_says() {
    let mut archive = ZipArchive::new();
    archive.add_file_from_slice(&[1u8; 5000], "ones").unwrap();
    archive.add_file_from_slice(&[2u8; 3000], "twos").unwrap();
    let mut out = Vec::new();
    archive.write(&mut out).unwrap();
    let end = out.len() - 22;
    let stored_start = u32::from_le_bytes([out[end + 16], out[end + 17], out[end + 18], out[end + 19]]);
    let reader = zip::ZipArchive::new(Cursor::new(out)).unwrap();
    assert_eq!(reader.central_directory_start(), stored_start as u64);
    assert_eq!(reader.offset(), 0);
}

use flate2::read::DeflateDecoder;
use flate2::write::DeflateEncoder;
use flate2::Compression;
use rawzip::{CompressionMethod, ErrorKind, ZipArchive, ZipArchiveWriter, ZipDataWriter};
use std::io::{Read, Write};

/// An archive with one deflated file, and the deflated data.
fn deflated_archive(name: &str, content: &[u8]) -> (Vec<u8>, Vec<u8>) {
    let mut encoder = DeflateEncoder::new(Vec::new(), Compression::default());
    encoder.write_all(content).unwrap();
    let compressed = encoder.finish().unwrap();

    let mut archive = ZipArchiveWriter::new(Vec::new());
    let mut file = archive
        .new_file(name)
        .compression_method(CompressionMethod::Deflate)
        .create()
        .unwrap();
    let mut account = ZipDataWriter::new(());
    account.record(content);
    let ((), descriptor) = account.finish().unwrap();
    assert_eq!(file.write(&compressed).unwrap(), compressed.len());
    assert_eq!(file.finish(descriptor).unwrap(), compressed.len() as u64);
    (archive.finish().unwrap(), compressed)
}

#[test]
fn test_deflated_entry_is_read_back() {
    let content = b"the quick brown fox jumps over the lazy dog\n".repeat(64);
    let (bytes, compressed) = deflated_archive("fox.txt", &content);
    assert!(compressed.len() < content.len());

    let archive = ZipArchive::from_slice(&bytes).unwrap();
    let mut entries = archive.entries();
    let record = entries.next_entry().unwrap().unwrap();
    assert_eq!(record.compression_method(), CompressionMethod::Deflate);
    assert_eq!(record.uncompressed_size_hint(), content.len() as u64);
    assert_eq!(record.compressed_size_hint(), compressed.len() as u64);
    let wayfinder = record.wayfinder();
    assert!(entries.next_entry().unwrap().is_none());

    let entry = archive.get_entry(wayfinder).unwrap();
    assert_eq!(entry.data(), compressed.as_slice());
    let mut verifier = entry.verifying_reader(DeflateDecoder::new(entry.data()));
    let mut inflated = Vec::new();
    let mut buf = [0u8; 100];
    loop {
        let read = verifier.get_mut().read(&mut buf).unwrap();
        verifier.record(&buf[..read]).unwrap();
        if read == 0 {
            break;
        }
        inflated.extend_from_slice(&buf[..read]);
    }
    assert_eq!(inflated, content);
}

#[test]
fn test_deflated_entry_through_reader() {
    let content = b"0123456789".repeat(300);
    let (bytes, compressed) = deflated_archive("digits.txt", &content);

    let mut buffer = vec![0u8; rawzip::RECOMMENDED_BUFFER_SIZE];
    let archive = rawzip::ZipLocator::new()
        .locate_in_reader(bytes.as_slice(), &mut buffer, bytes.len() as u64)
        .map_err(|(_, e)| e)
        .unwrap();
    let mut entries = archive.entries(&mut buffer);
    let wayfinder = entries.next_entry().unwrap().unwrap().wayfinder();
    let entry = archive.get_entry(wayfinder).unwrap();
    let (start, end) = entry.compressed_data_range();
    assert_eq!(end - start, compressed.len() as u64);

    let mut reader = entry.reader();
    let mut read_back = Vec::new();
    let mut buf = [0u8; 7];
    loop {
        let read = reader.read(&mut buf).unwrap();
        if read == 0 {
            break;
        }
        read_back.extend_from_slice(&buf[..read]);
    }
    assert_eq!(read_back, compressed);

    let mut verifier = entry.verifying_reader(DeflateDecoder::new(read_back.as_slice()));
    let mut inflated = Vec::new();
    let mut buf = [0u8; 256];
    loop {
        let read = verifier.get_mut().read(&mut buf).unwrap();
        verifier.record(&buf[..read]).unwrap();
        if read == 0 {
            break;
        }
        inflated.extend_from_slice(&buf[..read]);
    }
    assert_eq!(inflated, content);
}

#[test]
fn test_deflated_entry_with_wrong_checksum() {
    let content = b"a checksum that does not hold".repeat(10);
    let (mut bytes, compressed) = deflated_archive("bad.txt", &content);
    // The checksum of the data descriptor follows the data and the descriptor's signature.
    let header_len = 30 + "bad.txt".len();
    let descriptor = header_len + compressed.len();
    assert_eq!(&bytes[descriptor..descriptor + 4], &[0x50, 0x4b, 0x07, 0x08]);
    bytes[descriptor + 4] ^= 0x01;

    let archive = ZipArchive::from_slice(&bytes).unwrap();
    let mut entries = archive.entries();
    let wayfinder = entries.next_entry().unwrap().unwrap().wayfinder();
    let entry = archive.get_entry(wayfinder).unwrap();
    let mut verifier = entry.verifying_reader(DeflateDecoder::new(entry.data()));
    let mut buf = vec![0u8; content.len() + 1];
    let mut failure = None;
    loop {
        let read = verifier.get_mut().read(&mut buf).unwrap();
        if let Err(e) = verifier.record(&buf[..read]) {
            failure = Some(e);
            break;
        }
        if read == 0 {
            break;
        }
    }
    let failure = failure.expect("the checksum does not hold");
    assert!(matches!(failure.kind(), ErrorKind::InvalidChecksum { .. }));
}

use rawzip::reader_at::{read_at_least_at, read_at_most_at, try_read_at_least_at};
use rawzip::{ErrorKind, ReaderAt, ZipLocator};
use std::cell::Cell;

/// A reader over bytes that gives at most `step` bytes for a read, and fails the read with the
/// number `fail_at`, counted from 0.
struct Halting<'a> {
    data: &'a [u8],
    step: usize,
    fail_at: Option<usize>,
    reads: Cell<usize>,
}

impl<'a> Halting<'a> {
    fn new(data: &'a [u8], step: usize, fail_at: Option<usize>) -> Self {
        Halting {
            data,
            step,
            fail_at,
            reads: Cell::new(0),
        }
    }
}

impl ReaderAt for Halting<'_> {
    fn read_at(&self, buf: &mut [u8], offset: u64) -> std::io::Result<usize> {
        let n = self.reads.get();
        self.reads.set(n + 1);
        if self.fail_at == Some(n) {
            return Err(std::io::Error::new(std::io::ErrorKind::Other, "halt"));
        }
        let skip = self.data.len().min(offset as usize);
        let rest = &self.data[skip..];
        let len = rest.len().min(buf.len()).min(self.step);
        buf[..len].copy_from_slice(&rest[..len]);
        Ok(len)
    }
}

#[test]
fn slice_reads_what_is_there() {
    let data: &[u8] = &[1, 2, 3, 4, 5];
    let mut buf = [0u8; 3];
    assert_eq!(data.read_at(&mut buf, 0).unwrap(), 3);
    assert_eq!(buf, [1, 2, 3]);
    assert_eq!(data.read_at(&mut buf, 3).unwrap(), 2);
    assert_eq!(buf, [4, 5, 3]);
    assert_eq!(data.read_at(&mut buf, 5).unwrap(), 0);
    assert_eq!(data.read_at(&mut buf, u64::MAX).unwrap(), 0);
    let owned = data.to_vec();
    assert_eq!(owned.read_at(&mut buf, 1).unwrap(), 3);
    assert_eq!(buf, [2, 3, 4]);
    assert_eq!((&owned).read_at(&mut buf, 2).unwrap(), 3);
    assert_eq!(buf, [3, 4, 5]);
}

#[test]
fn read_exact_fills_the_buffer_or_fails_with_eof() {
    let data = [1u8, 2, 3, 4, 5, 6, 7];
    let reader = Halting::new(&data, 2, None);
    let mut buf = [0u8; 5];
    reader.read_exact_at(&mut buf, 1).unwrap();
    assert_eq!(buf, [2, 3, 4, 5, 6]);
    let err = reader.read_exact_at(&mut buf, 3).unwrap_err();
    assert!(matches!(err.kind(), ErrorKind::Eof));
    reader.read_exact_at(&mut [], 100).unwrap();
    let failing = Halting::new(&data, 2, Some(1));
    let err = failing.read_exact_at(&mut buf, 0).unwrap_err();
    assert!(matches!(err.kind(), ErrorKind::IO(_)));
    assert_eq!(err.to_string(), "halt");
}

#[test]
fn read_at_least_tells_short_buffers_from_short_data() {
    let data = [1u8, 2, 3, 4, 5, 6, 7];
    let reader = Halting::new(&data, 3, None);
    let mut buf = [0u8; 6];
    let n = read_at_least_at(&reader, &mut buf, 4, 1).unwrap();
    assert_eq!(n, 6);
    assert_eq!(buf, [2, 3, 4, 5, 6, 7]);
    let err = read_at_least_at(&reader, &mut buf, 7, 0).unwrap_err();
    assert!(matches!(err.kind(), ErrorKind::BufferTooSmall));
    assert_eq!(err.to_string(), "Buffer size too small");
    let err = read_at_least_at(&reader, &mut buf, 4, 4).unwrap_err();
    assert!(matches!(err.kind(), ErrorKind::Eof));
    assert_eq!(err.to_string(), "Unexpected end of file");
    assert_eq!(try_read_at_least_at(&reader, &mut buf, 4, 4).unwrap(), 3);
    assert_eq!(read_at_most_at(&reader, &mut buf, 2, 0).unwrap(), 3);
    assert_eq!(read_at_most_at(&reader, &mut buf, 0, 0).unwrap(), 0);
}

#[test]
fn archive_is_read_through_a_reader_of_short_reads() {
    // An archive with a comment, read one byte at a time.
    let mut data = vec![0x50u8, 0x4B, 0x05, 0x06];
    data.extend_from_slice(&[0u8; 16]);
    data.extend_from_slice(&5u16.to_le_bytes());
    data.extend_from_slice(b"hello");
    let reader = Halting::new(&data, 1, None);
    let mut buffer = vec![0u8; 24];
    let archive = ZipLocator::new()
        .locate_in_reader(&reader, &mut buffer, data.len() as u64)
        .map_err(|(_, e)| e)
        .unwrap();
    assert_eq!(archive.comment().as_bytes(), b"hello");
    // A read that fails is what the locator fails with.
    for fail_at in 0..data.len() {
        let reader = Halting::new(&data, 1, Some(fail_at));
        match ZipLocator::new().locate_in_reader(&reader, &mut buffer, data.len() as u64) {
            Ok(archive) => assert_eq!(archive.comment().as_bytes(), b"hello"),
            Err((_, e)) => assert!(matches!(e.kind(), ErrorKind::IO(_))),
        }
    }
    // A comment that is not whole fails with the end of the data.
    let short = &data[..data.len() - 1];
    let err = ZipLocator::new()
        .locate_in_reader(short, &mut buffer, short.len() as u64)
        .unwrap_err()
        .1;
    assert!(matches!(err.kind(), ErrorKind::Eof));
}

#[test]
fn error_texts() {
    let data = [0x50u8, 0x4B, 0x05, 0x06];
    let err = rawzip::ZipArchive::from_slice(&data[..3]).unwrap_err();
    assert_eq!(err.to_string(), "Missing end of central directory");
    let expected = rawzip::ZipVerification {
        crc: 0xABCDEF,
        uncompressed_size: 7,
    };
    let err = expected
        .valid(rawzip::ZipVerification {
            crc: 0x12,
            uncompressed_size: 7,
        })
        .unwrap_err();
    assert_eq!(
        err.to_string(),
        "Invalid checksum: expected 0x00abcdef, got 0x00000012"
    );
    let err = expected
        .valid(rawzip::ZipVerification {
            crc: 0xABCDEF,
            uncompressed_size: 1234567890123,
        })
        .unwrap_err();
    assert_eq!(
        err.to_string(),
        "Invalid size: expected 7, got 1234567890123"
    );
    let err = rawzip::archive::ZipLocalFileHeaderFixed::parse(&[0u8; 30]).unwrap_err();
    assert_eq!(
        err.kind().to_string(),
        "Invalid signature: expected 0x04034b50, got 0x00000000"
    );
    let err = rawzip::ZipFilePath::new(&[0xFF]).normalize().unwrap_err();
    assert!(err.to_string().starts_with("Invalid UTF-8: "));
    let mut archive = rawzip::ZipArchiveWriter::new(Vec::new());
    let err = archive.new_dir("x").create().unwrap_err();
    assert_eq!(err.to_string(), "Invalid input: not a directory");
    let missing = rawzip::errors::error_of(ErrorKind::MissingZip64EndOfCentralDirectory);
    assert_eq!(
        missing.to_string(),
        "Missing zip64 end of central directory"
    );
    assert!(!missing.is_eof());
}

#[test]
fn zip64_archive_is_read_through_small_buffers() {
    // An archive of 65535 directories has the zip64 records.
    let mut archive = rawzip::ZipArchiveWriter::new(Vec::new());
    let mut written = Vec::new();
    for i in 0..65535 {
        archive.new_dir(&format!("d{}/", i)).create().unwrap();
        // What was written is handed on, piece by piece.
        written.extend_from_slice(&archive.take_output());
    }
    written.extend_from_slice(&archive.finish().unwrap());
    let mut buffer = vec![0u8; 55];
    let err = ZipLocator::new()
        .locate_in_reader(written.as_slice(), &mut buffer, written.len() as u64)
        .unwrap_err()
        .1;
    assert!(matches!(err.kind(), ErrorKind::BufferTooSmall));
    for size in [56usize, 57, 76, 97, 98, 99, 200] {
        let mut buffer = vec![0u8; size];
        let reader = Halting::new(&written, 17, None);
        let archive = ZipLocator::new()
            .locate_in_reader(&reader, &mut buffer, written.len() as u64)
            .map_err(|(_, e)| e)
            .unwrap();
        assert_eq!(archive.entries_hint(), 65535);
        assert_eq!(archive.base_offset(), 0);
        let mut entries = archive.entries(&mut buffer);
        let mut count = 0;
        while let Some(entry) = entries.next_entry().unwrap() {
            assert!(entry.is_dir());
            assert_eq!(entry.file_raw_path(), format!("d{}/", count).as_bytes());
            assert_eq!(entry.mode().value(), 0o140666);
            count += 1;
        }
        assert_eq!(count, 65535);
    }
}

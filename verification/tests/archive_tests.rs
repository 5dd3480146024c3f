use rawzip::{ErrorKind, ZipArchive, ZipLocator, RECOMMENDED_BUFFER_SIZE};

/// Locates an archive through a reader that serves `data`, searching from its end.
fn from_seekable<'a>(
    data: &'a [u8],
    buffer: &mut [u8],
) -> Result<ZipArchive<&'a [u8]>, rawzip::Error> {
    ZipLocator::new()
        .locate_in_reader(data, buffer, data.len() as u64)
        .map_err(|(_, e)| e)
}

#[test]
pub fn blank_zip_archive() {
    let data = [80, 75, 5, 6];
    let mut buf = vec![0u8; RECOMMENDED_BUFFER_SIZE];
    let archive = from_seekable(&data, &mut buf);
    assert!(archive.is_err());
}

#[test]
pub fn trunc_comment_zips() {
    let data = [
        80, 75, 6, 7, 21, 0, 0, 0, 34, 0, 0, 0, 0, 0, 0, 0, 10, 0, 59, 59, 80, 75, 5, 6, 0, 255,
        255, 255, 255, 255, 255, 0, 0, 0, 80, 75, 6, 6, 0, 0, 0, 10,
    ];
    let mut buf = vec![0u8; RECOMMENDED_BUFFER_SIZE];
    let archive = from_seekable(&data, &mut buf);
    assert!(archive.is_err());

    let archive = ZipArchive::from_slice(&data);
    assert!(archive.is_err());
}

#[test]
pub fn trunc_eocd64() {
    let data = [
        80, 75, 6, 7, 21, 0, 0, 0, 34, 0, 0, 0, 0, 0, 0, 0, 10, 0, 59, 59, 80, 75, 5, 6, 0, 255,
        255, 255, 255, 255, 255, 0, 0, 0, 80, 75, 6, 6, 0, 0, 6, 0, 0, 250, 255, 255, 255, 255,
        251, 0, 0, 0, 0, 80, 5, 6, 0, 0, 0, 0, 56, 0, 0, 0, 0, 10,
    ];

    let archive = ZipArchive::from_slice(&data);
    assert!(archive.is_err());

    let mut buf = vec![0u8; RECOMMENDED_BUFFER_SIZE];
    let archive = from_seekable(&data, &mut buf);
    assert!(archive.is_err());
}

#[test]
pub fn trunc_eocd_entry() {
    let data = [
        80, 75, 1, 2, 159, 159, 159, 159, 159, 159, 159, 159, 159, 0, 241, 205, 0, 80, 75, 5, 6,
        0, 48, 249, 0, 250, 255, 255, 255, 255, 251, 42, 0, 0, 0, 0, 0, 0, 0, 0, 0, 0, 0, 0, 35,
        0,
    ];

    let archive = ZipArchive::from_slice(&data).unwrap();
    let mut entries = archive.entries();
    assert!(entries.next_entry().is_err());

    let mut buf = vec![0u8; RECOMMENDED_BUFFER_SIZE];
    let archive = from_seekable(&data, &mut buf).unwrap();
    let mut buf = vec![0u8; RECOMMENDED_BUFFER_SIZE];
    let mut entries = archive.entries(&mut buf);
    assert!(entries.next_entry().is_err());
}

/// The canonical small archive: one stored entry `test.txt` and an archive comment.
fn small_archive() -> Vec<u8> {
    let content = b"This is a test text file.\n";
    let name = b"test.txt";
    let comment = b"This is a zipfile comment.";
    let crc = rawzip::crc32(content);
    let mut data = Vec::new();
    // Local file header.
    data.extend_from_slice(&0x04034b50u32.to_le_bytes());
    data.extend_from_slice(&20u16.to_le_bytes());
    data.extend_from_slice(&0u16.to_le_bytes());
    data.extend_from_slice(&0u16.to_le_bytes());
    data.extend_from_slice(&0u16.to_le_bytes());
    data.extend_from_slice(&0u16.to_le_bytes());
    data.extend_from_slice(&crc.to_le_bytes());
    data.extend_from_slice(&(content.len() as u32).to_le_bytes());
    data.extend_from_slice(&(content.len() as u32).to_le_bytes());
    data.extend_from_slice(&(name.len() as u16).to_le_bytes());
    data.extend_from_slice(&0u16.to_le_bytes());
    data.extend_from_slice(name);
    data.extend_from_slice(content);
    let cd_offset = data.len() as u32;
    // Central directory record, made on Unix with mode 0644.
    data.extend_from_slice(&0x02014b50u32.to_le_bytes());
    data.extend_from_slice(&((3u16 << 8) | 20).to_le_bytes());
    data.extend_from_slice(&20u16.to_le_bytes());
    data.extend_from_slice(&0u16.to_le_bytes());
    data.extend_from_slice(&0u16.to_le_bytes());
    data.extend_from_slice(&0u16.to_le_bytes());
    data.extend_from_slice(&0u16.to_le_bytes());
    data.extend_from_slice(&crc.to_le_bytes());
    data.extend_from_slice(&(content.len() as u32).to_le_bytes());
    data.extend_from_slice(&(content.len() as u32).to_le_bytes());
    data.extend_from_slice(&(name.len() as u16).to_le_bytes());
    data.extend_from_slice(&0u16.to_le_bytes());
    data.extend_from_slice(&0u16.to_le_bytes());
    data.extend_from_slice(&0u16.to_le_bytes());
    data.extend_from_slice(&0u16.to_le_bytes());
    data.extend_from_slice(&(0o100644u32 << 16).to_le_bytes());
    data.extend_from_slice(&0u32.to_le_bytes());
    data.extend_from_slice(name);
    let cd_size = data.len() as u32 - cd_offset;
    // End of central directory.
    data.extend_from_slice(&0x06054b50u32.to_le_bytes());
    data.extend_from_slice(&[0u8; 4]);
    data.extend_from_slice(&1u16.to_le_bytes());
    data.extend_from_slice(&1u16.to_le_bytes());
    data.extend_from_slice(&cd_size.to_le_bytes());
    data.extend_from_slice(&cd_offset.to_le_bytes());
    data.extend_from_slice(&(comment.len() as u16).to_le_bytes());
    data.extend_from_slice(comment);
    data
}

#[test]
fn small_archive_in_a_slice() {
    let data = small_archive();
    let archive = ZipArchive::from_slice(&data).unwrap();
    assert_eq!(archive.comment().as_bytes(), b"This is a zipfile comment.");
    assert_eq!(archive.entries_hint(), 1);
    assert_eq!(archive.base_offset(), 0);
    assert_eq!(archive.as_bytes(), &data[..]);
    let mut entries = archive.entries();
    let entry = entries.next_entry().unwrap().unwrap();
    assert_eq!(entry.file_raw_path(), b"test.txt");
    assert_eq!(entry.file_safe_path().unwrap(), "test.txt");
    assert_eq!(entry.file_path().as_ref(), b"test.txt");
    assert!(!entry.is_dir());
    assert!(!entry.has_data_descriptor());
    assert_eq!(entry.compression_method(), rawzip::CompressionMethod::Store);
    assert_eq!(entry.uncompressed_size_hint(), 26);
    assert_eq!(entry.compressed_size_hint(), 26);
    assert_eq!(entry.local_header_offset(), 0);
    assert_eq!(entry.mode().value(), 0o100644);
    assert_eq!(entry.mode().permissions(), 0o644);
    assert!(!entry.mode().is_symlink());
    let wayfinder = entry.wayfinder();
    assert!(entries.next_entry().unwrap().is_none());
    assert!(entries.next_entry().unwrap().is_none());

    let ent = archive.get_entry(wayfinder).unwrap();
    assert_eq!(ent.data(), b"This is a test text file.\n");
    assert_eq!(ent.compressed_data_range(), (38, 64));
    let expected = ent.claim_verifier();
    assert_eq!(expected.size(), 26);
    assert_eq!(expected.crc(), rawzip::crc32(b"This is a test text file.\n"));

    // The data is stored: what is read is what is verified.
    let mut verifier = ent.verifying_reader(ent.data());
    let mut out = Vec::new();
    loop {
        let source: &mut &[u8] = verifier.get_mut();
        let n = source.len().min(7);
        let piece = source[..n].to_vec();
        *source = &source[n..];
        verifier.record(&piece).unwrap();
        out.extend_from_slice(&piece);
        if n == 0 {
            break;
        }
    }
    assert_eq!(out, b"This is a test text file.\n");
    assert!(verifier.into_inner().is_empty());
}

#[test]
fn small_archive_behind_a_reader() {
    let data = small_archive();
    for buffer_size in [22usize, 23, 46, 54, 64, 100, RECOMMENDED_BUFFER_SIZE] {
        let mut buffer = vec![0u8; buffer_size];
        let archive = from_seekable(&data, &mut buffer).unwrap();
        assert_eq!(archive.comment().as_bytes(), b"This is a zipfile comment.");
        assert_eq!(archive.entries_hint(), 1);
        assert_eq!(archive.get_ref(), &&data[..]);
        let mut entries = archive.entries(&mut buffer);
        let first = entries.next_entry();
        if buffer_size < 46 {
            assert!(matches!(
                first.unwrap_err().kind(),
                ErrorKind::BufferTooSmall
            ));
            continue;
        }
        let entry = first.unwrap().unwrap();
        assert_eq!(entry.file_raw_path(), b"test.txt");
        assert_eq!(entry.mode().value(), 0o100644);
        let wayfinder = entry.wayfinder();
        assert!(entries.next_entry().unwrap().is_none());

        let ent = archive.get_entry(wayfinder).unwrap();
        assert_eq!(ent.compressed_data_range(), (38, 64));
        let mut reader = ent.reader();
        let mut verifier = ent.verifying_reader(());
        let mut out = Vec::new();
        let mut piece = [0u8; 5];
        loop {
            let n = reader.read(&mut piece).unwrap();
            verifier.record(&piece[..n]).unwrap();
            out.extend_from_slice(&piece[..n]);
            if n == 0 {
                break;
            }
        }
        assert_eq!(out, b"This is a test text file.\n");
        let expected = reader.claim_verifier().unwrap();
        assert_eq!(expected.size(), 26);
    }
}

#[test]
fn verifier_tells_wrong_checksum_and_wrong_size() {
    let data = small_archive();
    let archive = ZipArchive::from_slice(&data).unwrap();
    let wayfinder = archive.entries().next_entry().unwrap().unwrap().wayfinder();
    let ent = archive.get_entry(wayfinder).unwrap();

    // One bit of the data is flipped: the checksum is wrong.
    let mut wrong = ent.data().to_vec();
    wrong[3] ^= 1;
    let mut verifier = ent.verifying_reader(());
    let err = verifier.record(&wrong).unwrap_err();
    match err.kind() {
        ErrorKind::InvalidChecksum { expected, actual } => {
            assert_eq!(*expected, rawzip::crc32(ent.data()));
            assert_eq!(*actual, rawzip::crc32(&wrong));
        }
        other => panic!("unexpected error {:?}", other),
    }

    // The data ends early: the size is wrong.
    let mut verifier = ent.verifying_reader(());
    verifier.record(&ent.data()[..10]).unwrap();
    let err = verifier.record(&[]).unwrap_err();
    match err.kind() {
        ErrorKind::InvalidSize { expected, actual } => {
            assert_eq!((*expected, *actual), (26, 10));
        }
        other => panic!("unexpected error {:?}", other),
    }

    // The data goes on: the size is wrong as soon as it is passed.
    let mut verifier = ent.verifying_reader(());
    let mut longer = ent.data().to_vec();
    longer.push(0);
    let err = verifier.record(&longer).unwrap_err();
    assert!(matches!(
        err.kind(),
        ErrorKind::InvalidSize {
            expected: 26,
            actual: 27
        }
    ));

    let expected = ent.claim_verifier();
    let ok = rawzip::ZipVerification {
        crc: expected.crc(),
        uncompressed_size: 26,
    };
    assert!(expected.valid(ok).is_ok());
    // An expected checksum of zero is not checked.
    let unchecked = rawzip::ZipVerification {
        crc: 0,
        uncompressed_size: 26,
    };
    assert!(unchecked.valid(ok).is_ok());
}

#[test]
fn wrong_local_header_signature_is_reported() {
    let mut data = small_archive();
    data[0] = 0x51;
    let archive = ZipArchive::from_slice(&data).unwrap();
    let wayfinder = archive.entries().next_entry().unwrap().unwrap().wayfinder();
    let err = archive.get_entry(wayfinder).unwrap_err();
    assert!(matches!(
        err.kind(),
        ErrorKind::InvalidSignature {
            expected: 0x04034b50,
            actual: 0x04034b51
        }
    ));
    let mut buffer = vec![0u8; 64];
    let archive = from_seekable(&data, &mut buffer).unwrap();
    let err = archive.get_entry(wayfinder).unwrap_err();
    assert!(matches!(
        err.kind(),
        ErrorKind::InvalidSignature {
            expected: 0x04034b50,
            actual: 0x04034b51
        }
    ));
}

#[test]
fn into_reader_keeps_the_archive() {
    let data = small_archive();
    let archive = ZipArchive::from_slice(&data).unwrap();
    let reader = archive.into_reader();
    assert_eq!(reader.comment().as_bytes(), b"This is a zipfile comment.");
    let mut buf = vec![0u8; RECOMMENDED_BUFFER_SIZE];
    let mut entries = reader.entries(&mut buf);
    let mut count = 0;
    while let Some(entry) = entries.next_entry().unwrap() {
        if entry.is_dir() {
            continue;
        }
        count += 1;
    }
    assert_eq!(count, 1);
}

#[test]
fn compression_method_ids_go_both_ways() {
    for id in 0..=u16::MAX {
        let method = rawzip::CompressionMethod::from(id);
        assert_eq!(method.as_id().as_u16(), id);
    }
    assert_eq!(
        rawzip::CompressionMethod::from(8),
        rawzip::CompressionMethod::Deflate
    );
    assert_eq!(
        rawzip::CompressionMethod::from(11),
        rawzip::CompressionMethod::Unknown(11)
    );
}

#[test]
fn with_max_search_space_bounds_the_search() {
    let mut data = small_archive();
    let len = data.len();
    data.extend_from_slice(&[0u8; 100]);
    assert!(ZipArchive::with_max_search_space(100)
        .locate_in_slice(&data)
        .is_err());
    let archive = ZipArchive::with_max_search_space(1000)
        .locate_in_slice(&data)
        .unwrap();
    assert_eq!(archive.entries_hint(), 1);
    // A search that ends where the archive ends finds it whatever follows.
    let mut buffer = vec![0u8; 64];
    let archive = ZipArchive::with_max_search_space(60)
        .locate_in_reader(data.as_slice(), &mut buffer, len as u64)
        .map_err(|(_, e)| e)
        .unwrap();
    assert_eq!(archive.comment().as_bytes(), b"This is a zipfile comment.");
}

/// An archive without entries that has the zip64 records, and a comment behind its end record.
fn empty_zip64_archive(comment: &[u8]) -> Vec<u8> {
    let mut data = Vec::new();
    // The zip64 end of central directory record.
    data.extend_from_slice(&0x06064b50u32.to_le_bytes());
    data.extend_from_slice(&44u64.to_le_bytes());
    data.extend_from_slice(&45u16.to_le_bytes());
    data.extend_from_slice(&45u16.to_le_bytes());
    data.extend_from_slice(&0u32.to_le_bytes());
    data.extend_from_slice(&0u32.to_le_bytes());
    data.extend_from_slice(&0u64.to_le_bytes());
    data.extend_from_slice(&0u64.to_le_bytes());
    data.extend_from_slice(&0u64.to_le_bytes());
    data.extend_from_slice(&0u64.to_le_bytes());
    // Its locator.
    data.extend_from_slice(&0x07064b50u32.to_le_bytes());
    data.extend_from_slice(&0u32.to_le_bytes());
    data.extend_from_slice(&0u64.to_le_bytes());
    data.extend_from_slice(&1u32.to_le_bytes());
    // The end of central directory record, with the sentinels.
    data.extend_from_slice(&0x06054b50u32.to_le_bytes());
    data.extend_from_slice(&0u16.to_le_bytes());
    data.extend_from_slice(&0u16.to_le_bytes());
    data.extend_from_slice(&0xFFFFu16.to_le_bytes());
    data.extend_from_slice(&0xFFFFu16.to_le_bytes());
    data.extend_from_slice(&0xFFFF_FFFFu32.to_le_bytes());
    data.extend_from_slice(&0xFFFF_FFFFu32.to_le_bytes());
    data.extend_from_slice(&(comment.len() as u16).to_le_bytes());
    data.extend_from_slice(comment);
    data
}

#[test]
fn comment_of_a_zip64_archive_follows_the_end_record() {
    let comment = b"a comment behind the zip64 records";
    let data = empty_zip64_archive(comment);

    let archive = ZipArchive::from_slice(&data).unwrap();
    assert_eq!(archive.entries_hint(), 0);
    assert_eq!(archive.base_offset(), 0);
    assert_eq!(archive.comment().as_bytes(), comment);
    assert!(archive.entries().next_entry().unwrap().is_none());

    let through_slice = archive.into_reader();
    assert_eq!(through_slice.comment().as_bytes(), comment);

    let mut buffer = vec![0u8; 128];
    let through_reader = ZipLocator::new()
        .locate_in_reader(data.as_slice(), &mut buffer, data.len() as u64)
        .map_err(|(_, e)| e)
        .unwrap();
    assert_eq!(through_reader.comment().as_bytes(), comment);
    assert_eq!(through_reader.entries_hint(), 0);
}

#[test]
fn comment_of_a_zip64_archive_that_is_cut_short() {
    let mut data = empty_zip64_archive(b"0123456789");
    data.truncate(data.len() - 4);
    let archive = ZipArchive::from_slice(&data).unwrap();
    assert_eq!(archive.comment().as_bytes(), b"012345");
}

#[test]
fn version_made_by_is_read_from_the_lower_byte() {
    assert_eq!(rawzip::archive::VersionMadeBy(0x0314).version(), (2, 0));
    assert_eq!(rawzip::archive::VersionMadeBy(0x032d).version(), (4, 5));
    assert_eq!(rawzip::archive::VersionMadeBy(45).version(), (4, 5));
    assert_eq!(rawzip::archive::VersionMadeBy(0x0314).as_u16(), 0x0314);
}

/// A reader over bytes that counts the reads made of it.
struct Counting<'a> {
    data: &'a [u8],
    reads: std::cell::Cell<usize>,
}

impl rawzip::ReaderAt for Counting<'_> {
    fn read_at(&self, buf: &mut [u8], offset: u64) -> std::io::Result<usize> {
        self.reads.set(self.reads.get() + 1);
        self.data.read_at(buf, offset)
    }
}

#[test]
fn entry_without_data_descriptor_is_verified_without_a_read() {
    let data = small_archive();
    let reader = Counting {
        data: &data,
        reads: std::cell::Cell::new(0),
    };
    let mut buffer = vec![0u8; RECOMMENDED_BUFFER_SIZE];
    let archive = ZipLocator::new()
        .locate_in_reader(reader, &mut buffer, data.len() as u64)
        .map_err(|(_, e)| e)
        .unwrap();
    let wayfinder = archive
        .entries(&mut buffer)
        .next_entry()
        .unwrap()
        .unwrap()
        .wayfinder();
    let entry = archive.get_entry(wayfinder).unwrap();
    let reads_before = archive.get_ref().reads.get();

    let content = b"This is a test text file.\n";
    let mut verifier = entry.verifying_reader(());
    verifier.record(&content[..10]).unwrap();
    verifier.record(&content[10..]).unwrap();
    verifier.record(&[]).unwrap();
    let expected = entry.reader().claim_verifier().unwrap();
    assert_eq!(expected.crc(), rawzip::crc32(content));
    assert_eq!(expected.size(), 26);
    assert_eq!(archive.get_ref().reads.get(), reads_before);
}

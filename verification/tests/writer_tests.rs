use rawzip::time::{LocalDateTime, UtcDateTime, ZipDateTimeKind};
use rawzip::{
    ZipArchive, ZipArchiveWriter, ZipDataWriter, ZipEntryWriter, ZipLocator,
    RECOMMENDED_BUFFER_SIZE,
};

/// Writes `data` to the entry as it is (the entry is stored), and keeps account of it.
fn write_all(writer: &mut ZipDataWriter<&mut ZipEntryWriter<'_>>, data: &[u8]) {
    let written = writer.get_mut().write(data).unwrap();
    assert_eq!(written, data.len());
    writer.record(data);
}

/// An archive with one stored file.
fn one_file_archive(
    sink: Vec<u8>,
    name: &str,
    content: &[u8],
    modified: Option<UtcDateTime>,
    permissions: Option<u32>,
) -> Vec<u8> {
    let mut archive = ZipArchiveWriter::new(sink);
    let mut builder = archive.new_file(name);
    if let Some(t) = modified {
        builder = builder.last_modified(t);
    }
    if let Some(p) = permissions {
        builder = builder.unix_permissions(p);
    }
    let mut file = builder.create().unwrap();
    let mut writer = ZipDataWriter::new(&mut file);
    write_all(&mut writer, content);
    let (_, descriptor) = writer.finish().unwrap();
    file.finish(descriptor).unwrap();
    archive.finish().unwrap()
}

/// Test basic concatenated ZIP functionality: two ZIP files with prefix data
#[test]
fn test_concatenated_zip_files() {
    // Create two concatenated ZIP files with prefix data
    let data = {
        let mut data = Vec::new();

        // First ZIP with prefix
        data.extend_from_slice(b"PREFIX_FOR_FIRST_ZIP\n");
        data = one_file_archive(data, "first.txt", b"First ZIP content", None, None);

        // Second ZIP with prefix
        data.extend_from_slice(b"PREFIX_FOR_SECOND_ZIP\n");
        data = one_file_archive(data, "second.txt", b"Second ZIP content", None, None);
        data
    };

    // Start off by reading the zip as one normally does
    let second_archive = ZipArchive::from_slice(&data).unwrap();

    // Verify that the last concatenated ZIP would be detected first
    let mut all = second_archive.entries();
    let mut entries = Vec::new();
    while let Some(entry) = all.next_entry().unwrap() {
        entries.push(entry);
    }
    assert_eq!(entries.len(), 1);
    let entry = &entries[0];
    assert_eq!(entry.file_path().as_ref(), b"second.txt");

    // Realize that the base offset is not zero so there is prefix data
    assert_ne!(second_archive.base_offset(), 0);

    // Attempt to see if there are additional zips in the data, as one would
    // for a file that does not fit in memory.
    let locator = ZipLocator::new();
    let mut buffer = vec![0u8; RECOMMENDED_BUFFER_SIZE];
    let first_archive = locator
        .locate_in_reader(data.as_slice(), &mut buffer, second_archive.base_offset())
        .map_err(|(_, e)| e)
        .unwrap();
    let first_base_offset = first_archive.base_offset();

    // Verify prefix data extraction
    let prefix = &data[..first_base_offset as usize];
    assert_eq!(prefix, b"PREFIX_FOR_FIRST_ZIP\n");

    let mut entries_iter = first_archive.entries(&mut buffer);
    let entry = entries_iter.next_entry().unwrap().unwrap();
    assert_eq!(entry.file_path().as_ref(), b"first.txt");
}

#[test]
fn test_zip_with_prepended_data() {
    let prefix_data = b"This is some prefix data that comes before the ZIP file\nLine 2\nLine 3\n";

    // Create a writer with the prefix data already in it
    let mut output = Vec::new();
    output.extend_from_slice(prefix_data);

    // Create ZIP archive starting after the prefix data
    let output = one_file_archive(output, "test.txt", b"Hello, world!", None, None);

    let archive = ZipArchive::from_slice(&output).unwrap();
    let zip_start_offset = archive.base_offset();

    // Verify we can extract the prefix data using the base offset
    let extracted_prefix = &output[..zip_start_offset as usize];
    assert_eq!(extracted_prefix, prefix_data);

    let mut all = archive.entries();
    let mut entries = Vec::new();
    while let Some(entry) = all.next_entry().unwrap() {
        entries.push(entry);
    }
    assert_eq!(entries.len(), 1);

    // Check first file
    let entry1 = &entries[0];
    assert_eq!(
        entry1.file_path().try_normalize().unwrap().as_ref(),
        "test.txt"
    );
    let wayfinder1 = entry1.wayfinder();
    let ent1 = archive.get_entry(wayfinder1).unwrap();
    assert_eq!(ent1.data(), b"Hello, world!");
}

/// Test that modification times are preserved in a round-trip for files
#[test]
fn test_modification_time_roundtrip_file() {
    let datetime = UtcDateTime::from_components(2023, 6, 15, 14, 30, 45, 0).unwrap();
    // Create archive with modification time
    let output = one_file_archive(
        Vec::new(),
        "test.txt",
        b"Hello, world!",
        Some(datetime),
        None,
    );

    // Read back and verify modification time
    let archive = ZipArchive::from_slice(&output).unwrap();
    let mut entries = archive.entries();
    let entry = entries.next_entry().unwrap().unwrap();

    assert_eq!(
        entry.file_path().try_normalize().unwrap().as_ref(),
        "test.txt"
    );
    let actual_datetime = entry.last_modified();
    assert_eq!(actual_datetime, ZipDateTimeKind::Utc(datetime));
}

/// Test that modification times are preserved in a round-trip for directories
#[test]
fn test_modification_time_roundtrip_directory() {
    let datetime = UtcDateTime::from_components(2023, 8, 20, 9, 15, 30, 0).unwrap();

    // Create archive with directory modification time
    let mut archive = ZipArchiveWriter::new(Vec::new());
    archive
        .new_dir("test_dir/")
        .last_modified(datetime)
        .create()
        .unwrap();
    let output = archive.finish().unwrap();

    // Read back and verify modification time
    let archive = ZipArchive::from_slice(&output).unwrap();
    let mut entries = archive.entries();
    let entry = entries.next_entry().unwrap().unwrap();

    assert_eq!(
        entry.file_path().try_normalize().unwrap().as_ref(),
        "test_dir/"
    );
    let actual_datetime = entry.last_modified();

    assert_eq!(actual_datetime, ZipDateTimeKind::Utc(datetime));
}

/// Test that files without modification time use DOS timestamp 0
#[test]
fn test_no_modification_time_defaults_to_zero() {
    // Create archive without modification time
    let output = one_file_archive(Vec::new(), "test.txt", b"Hello, world!", None, None);

    // Read back and verify it uses the "zero" timestamp (1980-01-01 00:00:00)
    let archive = ZipArchive::from_slice(&output).unwrap();
    let mut entries = archive.entries();
    let entry = entries.next_entry().unwrap().unwrap();

    assert_eq!(
        entry.file_path().try_normalize().unwrap().as_ref(),
        "test.txt"
    );
    let actual_datetime = entry.last_modified();

    // Should be the DOS timestamp 0 normalized to 1980-01-01 00:00:00
    let expected =
        ZipDateTimeKind::Local(LocalDateTime::from_components(1980, 1, 1, 0, 0, 0, 0).unwrap());
    assert_eq!(actual_datetime, expected);
}

/// Test that extended timestamp format is used when modification time is provided
#[test]
fn test_extended_timestamp_format_present() {
    let datetime = UtcDateTime::from_components(2023, 6, 15, 14, 30, 45, 0).unwrap();
    let output = one_file_archive(
        Vec::new(),
        "test.txt",
        b"Hello, world!",
        Some(datetime),
        None,
    );

    // Check that the extended timestamp extra field is present
    // Extended timestamp field ID is 0x5455
    let extended_timestamp_id_bytes = 0x5455u16.to_le_bytes();
    let contains_extended_timestamp = output.windows(2).any(|w| w == extended_timestamp_id_bytes);

    assert!(
        contains_extended_timestamp,
        "Extended timestamp extra field should be present when modification time is provided"
    );
}

/// Test that no extended timestamp format is used when no modification time is provided
#[test]
fn test_no_extended_timestamp_without_modification_time() {
    let output = one_file_archive(Vec::new(), "test.txt", b"Hello, world!", None, None);

    // Check that the extended timestamp extra field is NOT present
    let extended_timestamp_id_bytes = 0x5455u16.to_le_bytes();
    let contains_extended_timestamp = output.windows(2).any(|w| w == extended_timestamp_id_bytes);

    assert!(
        !contains_extended_timestamp,
        "Extended timestamp extra field should NOT be present when no modification time is provided"
    );
}

/// Test that we can handle timestamps outside DOS range (before 1980)
#[test]
fn test_timestamp_before_dos_range() {
    let datetime = UtcDateTime::from_components(1970, 1, 1, 0, 0, 0, 0).unwrap();
    let output = one_file_archive(
        Vec::new(),
        "test.txt",
        b"Hello, world!",
        Some(datetime),
        None,
    );

    let archive = ZipArchive::from_slice(&output).unwrap();
    let mut entries = archive.entries();
    let entry = entries.next_entry().unwrap().unwrap();

    assert_eq!(
        entry.file_path().try_normalize().unwrap().as_ref(),
        "test.txt"
    );
    let actual_datetime = entry.last_modified();

    assert_eq!(actual_datetime, ZipDateTimeKind::Utc(datetime));
}

/// Test multiple files with different modification times
#[test]
fn test_multiple_files_different_timestamps() {
    let datetime1 = UtcDateTime::from_components(2023, 1, 15, 10, 0, 0, 0).unwrap();
    let datetime2 = UtcDateTime::from_components(2023, 6, 20, 15, 30, 45, 0).unwrap();

    // Create archive with multiple files having different timestamps
    let output = {
        let mut archive = ZipArchiveWriter::new(Vec::new());

        // First file
        let mut file1 = archive
            .new_file("file1.txt")
            .last_modified(datetime1)
            .create()
            .unwrap();
        let mut writer1 = ZipDataWriter::new(&mut file1);
        write_all(&mut writer1, b"File 1");
        let (_, descriptor1) = writer1.finish().unwrap();
        file1.finish(descriptor1).unwrap();

        // Second file
        let mut file2 = archive
            .new_file("file2.txt")
            .last_modified(datetime2)
            .create()
            .unwrap();
        let mut writer2 = ZipDataWriter::new(&mut file2);
        write_all(&mut writer2, b"File 2");
        let (_, descriptor2) = writer2.finish().unwrap();
        file2.finish(descriptor2).unwrap();

        archive.finish().unwrap()
    };

    // Read back and verify timestamps
    let archive = ZipArchive::from_slice(&output).unwrap();
    let mut all = archive.entries();
    let mut entries = Vec::new();
    while let Some(entry) = all.next_entry().unwrap() {
        entries.push(entry);
    }

    assert_eq!(entries.len(), 2);

    // Find entries by name and check timestamps
    for entry in entries {
        let file_path = entry.file_path();
        let filename = file_path.try_normalize().unwrap();
        match filename.as_ref() {
            "file1.txt" => {
                assert_eq!(entry.last_modified(), ZipDateTimeKind::Utc(datetime1));
            }
            "file2.txt" => {
                assert_eq!(entry.last_modified(), ZipDateTimeKind::Utc(datetime2));
            }
            name => panic!("Unexpected file: {}", name),
        }
    }
}

#[test]
fn test_new_dir_with_options() {
    let datetime = UtcDateTime::from_components(2023, 12, 25, 12, 0, 0, 0).unwrap();

    // Create archive with directory using options
    let mut archive = ZipArchiveWriter::new(Vec::new());
    archive
        .new_dir("christmas/")
        .last_modified(datetime)
        .create()
        .unwrap();
    let output = archive.finish().unwrap();

    // Verify the directory was created with the correct timestamp
    let archive = ZipArchive::from_slice(&output).unwrap();
    let mut entries = archive.entries();
    let entry = entries.next_entry().unwrap().unwrap();

    assert_eq!(
        entry.file_path().try_normalize().unwrap().as_ref(),
        "christmas/"
    );
    assert!(entry.is_dir());
    assert_eq!(entry.last_modified(), ZipDateTimeKind::Utc(datetime));
}

#[test]
fn test_unix_permissions_roundtrip() {
    let test_cases = vec![
        (0o644, 0o100644, "Regular file (644)"),
        (0o755, 0o100755, "Executable file (755)"),
        (0o600, 0o100600, "Owner-only file (600)"),
        (0o777, 0o100777, "World-writable file (777)"),
        (0o040755, 0o040755, "Directory (040755)"),
        (0o100644, 0o100644, "Regular file with type (100644)"),
        (0o120777, 0o120777, "Symbolic link (120777)"),
    ];

    for (permissions, expected_mode, description) in test_cases {
        // Write archive with permissions
        let output = one_file_archive(
            Vec::new(),
            "test_file.txt",
            b"test content",
            None,
            Some(permissions),
        );

        // Read archive and verify permissions
        let archive = ZipArchive::from_slice(&output).unwrap();
        let mut entries = archive.entries();
        let entry = entries.next_entry().unwrap().unwrap();

        assert_eq!(
            entry.file_path().try_normalize().unwrap().as_ref(),
            "test_file.txt"
        );

        let actual_mode = entry.mode().value();
        assert_eq!(
            actual_mode, expected_mode,
            "{}: expected permissions 0o{:o}, got 0o{:o}",
            description, expected_mode, actual_mode
        );
    }
}

#[test]
fn test_directory_permissions_roundtrip() {
    // Write archive with directory
    let mut archive = ZipArchiveWriter::new(Vec::new());
    archive
        .new_dir("test_dir/")
        .unix_permissions(0o040755)
        .create()
        .unwrap();
    let output = archive.finish().unwrap();

    // Read archive and verify directory permissions
    let archive = ZipArchive::from_slice(&output).unwrap();
    let mut entries = archive.entries();
    let entry = entries.next_entry().unwrap().unwrap();

    assert_eq!(
        entry.file_path().try_normalize().unwrap().as_ref(),
        "test_dir/"
    );
    assert!(entry.is_dir());

    let actual_mode = entry.mode().value();
    assert_eq!(
        actual_mode, 0o040755,
        "Directory permissions: expected 0o040755, got 0o{:o}",
        actual_mode
    );
}

#[test]
fn test_permissions_without_unix_permissions() {
    // Write archive without explicit permissions
    let output = one_file_archive(Vec::new(), "test_file.txt", b"test content", None, None);

    // Read archive and verify default behavior
    let archive = ZipArchive::from_slice(&output).unwrap();
    let mut entries = archive.entries();
    let entry = entries.next_entry().unwrap().unwrap();

    // When no unix permissions are set, we should get default permissions
    let actual_mode = entry.mode().value();
    assert_eq!(
        actual_mode, 0o100666,
        "Default permissions: expected 0o100666, got 0o{:o}",
        actual_mode
    );
}

/// The general purpose bit flags of the first local file header.
fn extract_flags_from_zip(zip_data: &[u8]) -> u16 {
    let signature = u32::from_le_bytes([zip_data[0], zip_data[1], zip_data[2], zip_data[3]]);
    if signature != 0x04034b50 {
        panic!("Invalid local file header signature: 0x{:x}", signature);
    }
    u16::from_le_bytes([zip_data[6], zip_data[7]])
}

/// Test filename UTF-8 flag behavior with various filenames
#[test]
fn test_filename_utf8_flag() {
    let cases = vec![
        ("file.txt", false),
        ("MixedCase123.TXT", false),
        ("with-dashes_and_underscores.txt", false),
        ("\u{1F980}\u{1F525}_rust_file.txt", true),
        ("\u{30C6}\u{30B9}\u{30C8}\u{30D5}\u{30A1}\u{30A4}\u{30EB}.txt", true),
        ("caf\u{E9}.txt", true),
        ("file~backup.txt", true), // Tilde character - UTF-8 flag (EUC-KR conflict)
        ("path\\file.txt", false),
        ("normal-file_123.txt", false),
        ("test|file.txt", false),
        ("test}file.txt", false),
    ];
    for (filename, should_have_utf8_flag) in cases {
        let output = one_file_archive(Vec::new(), filename, b"test content", None, None);

        // Parse the ZIP file to verify the UTF-8 flag is set correctly
        let flags = extract_flags_from_zip(&output);
        let utf8_flag_present = (flags & 0x800) != 0;
        assert_eq!(
            utf8_flag_present, should_have_utf8_flag,
            "UTF-8 flag mismatch for filename '{}': expected {}, got {}",
            filename, should_have_utf8_flag, utf8_flag_present
        );
        // A file has a data descriptor.
        assert_eq!(flags & 0x08, 0x08);
    }
}

/// Test directory UTF-8 flag behavior with various directory names
#[test]
fn test_directory_utf8_flag() {
    let cases = vec![
        ("ascii_dir/", false),
        ("\u{1F980}\u{1F525}/", true),
        ("\u{30D5}\u{30A9}\u{30EB}\u{30C0}/", true),
        ("dossier/", false),
        ("caf\u{E9}_folder/", true),
        ("file~backup/", true),
    ];
    for (dirname, should_have_utf8_flag) in cases {
        let mut archive = ZipArchiveWriter::new(Vec::new());
        archive.new_dir(dirname).create().unwrap();
        let output = archive.finish().unwrap();

        let flags = extract_flags_from_zip(&output);
        let utf8_flag_present = (flags & 0x800) != 0;
        assert_eq!(
            utf8_flag_present, should_have_utf8_flag,
            "UTF-8 flag mismatch for directory '{}': expected {}, got {}",
            dirname, should_have_utf8_flag, utf8_flag_present
        );
        // A directory has no data descriptor.
        assert_eq!(flags & 0x08, 0);
    }
}

// ZIP64 signatures to check for
const ZIP64_EOCD_SIGNATURE: u32 = 0x06064b50;
const ZIP64_EOCD_LOCATOR_SIGNATURE: u32 = 0x07064b50;

fn contains(data: &[u8], signature: u32) -> bool {
    let bytes = signature.to_le_bytes();
    data.windows(4).any(|w| w == bytes)
}

fn verify_expected_entries(data: &[u8], expected_count: u64) {
    // Verify with slice
    let read_archive = ZipArchive::from_slice(data).unwrap();
    assert_eq!(read_archive.entries_hint(), expected_count);
    let mut entries = read_archive.entries();
    let mut count = 0;
    while entries.next_entry().unwrap().is_some() {
        count += 1;
    }
    assert_eq!(count, expected_count as usize);

    // Verify with reader
    let mut buffer = vec![0u8; RECOMMENDED_BUFFER_SIZE];
    let read_archive = ZipLocator::new()
        .locate_in_reader(data, &mut buffer, data.len() as u64)
        .map_err(|(_, e)| e)
        .unwrap();
    assert_eq!(read_archive.entries_hint(), expected_count);
    let mut entries = read_archive.entries(&mut buffer);
    let mut count = 0;
    while entries.next_entry().unwrap().is_some() {
        count += 1;
    }
    assert_eq!(count, expected_count as usize);
}

fn zip64_threshold_entries(entry_count: usize, should_be_zip64: bool) {
    let mut archive = ZipArchiveWriter::new(Vec::new());

    for i in 0..entry_count {
        let filename = format!("file_{:05}.txt", i);
        let mut file = archive.new_file(&filename).create().unwrap();
        let written = file.write(b"x").unwrap();
        assert_eq!(written, 1);
        let descriptor_output = {
            // The account of one byte is the same for every entry.
            thread_local_descriptor()
        };
        file.finish(descriptor_output).unwrap();
    }

    let data = archive.finish().unwrap();

    // Verify ZIP64 signatures presence matches expectation
    assert_eq!(
        contains(&data, ZIP64_EOCD_SIGNATURE),
        should_be_zip64,
        "{} entries expected zip64: {}",
        entry_count,
        should_be_zip64
    );
    assert_eq!(
        contains(&data, ZIP64_EOCD_LOCATOR_SIGNATURE),
        should_be_zip64
    );

    verify_expected_entries(&data, entry_count as u64);
}

/// The descriptor of the one byte `x`.
fn thread_local_descriptor() -> rawzip::DataDescriptorOutput {
    let mut writer = ZipDataWriter::new(());
    writer.record(b"x");
    writer.finish().unwrap().1
}

#[test]
fn test_zip64_threshold_entries_65534() {
    zip64_threshold_entries(65534, false);
}

#[test]
fn test_zip64_threshold_entries_65535() {
    zip64_threshold_entries(65535, true);
}

#[test]
fn test_zip64_threshold_entries_65536() {
    zip64_threshold_entries(65536, true);
}

#[test]
fn test_read_what_we_write_slice() {
    let mut state = 0x9E3779B97F4A7C15u64;
    for round in 0..200usize {
        let len = (round * 37) % 700;
        let data: Vec<u8> = (0..len)
            .map(|_| {
                state ^= state << 13;
                state ^= state >> 7;
                state ^= state << 17;
                (state >> 32) as u8
            })
            .collect();
        let mut archive = ZipArchiveWriter::new(Vec::new());
        let mut file = archive.new_file("file.txt").create().unwrap();
        let mut writer = ZipDataWriter::new(&mut file);
        for piece in data.chunks(61) {
            write_all(&mut writer, piece);
        }
        let (_, descriptor) = writer.finish().unwrap();
        assert_eq!(descriptor.uncompressed_size(), data.len() as u64);
        assert_eq!(descriptor.crc(), rawzip::crc32(&data));
        let compressed = file.finish(descriptor).unwrap();
        assert_eq!(compressed, data.len() as u64);
        let output = archive.finish().unwrap();

        let archive = ZipArchive::from_slice(&output).unwrap();
        let mut entries = archive.entries();
        let entry = entries.next_entry().unwrap().unwrap();
        assert_eq!(
            entry.file_path().try_normalize().unwrap().as_ref(),
            "file.txt"
        );
        assert_eq!(entry.compression_method(), rawzip::CompressionMethod::Store);
        assert_eq!(entry.uncompressed_size_hint(), data.len() as u64);
        assert_eq!(entry.compressed_size_hint(), data.len() as u64);
        let wayfinder = entry.wayfinder();
        let entry = archive.get_entry(wayfinder).unwrap();
        assert_eq!(data, entry.data());
        // The verifier accepts what was written.
        let mut verifier = entry.verifying_reader(());
        verifier.record(entry.data()).unwrap();
        verifier.record(&[]).unwrap();

        // And so does the archive behind a reader.
        let mut buffer = vec![0u8; 128];
        let archive = ZipLocator::new()
            .locate_in_reader(output.as_slice(), &mut buffer, output.len() as u64)
            .map_err(|(_, e)| e)
            .unwrap();
        let wayfinder = archive
            .entries(&mut buffer)
            .next_entry()
            .unwrap()
            .unwrap()
            .wayfinder();
        let entry = archive.get_entry(wayfinder).unwrap();
        let (start, end) = entry.compressed_data_range();
        assert_eq!(&output[start as usize..end as usize], &data[..]);
        let mut reader = entry.reader();
        let mut verifier = entry.verifying_reader(());
        let mut piece = [0u8; 50];
        let mut read_back = Vec::new();
        loop {
            let n = reader.read(&mut piece).unwrap();
            verifier.record(&piece[..n]).unwrap();
            read_back.extend_from_slice(&piece[..n]);
            if n == 0 {
                break;
            }
        }
        assert_eq!(read_back, data);
    }
}

#[test]
fn stored_checksum_with_a_flipped_bit_is_told() {
    let mut output = one_file_archive(Vec::new(), "a.txt", b"some content", None, None);
    // The data descriptor follows the data: signature, then the checksum.
    let at = 30 + 5 + 12 + 4;
    output[at] ^= 0x10;
    let archive = ZipArchive::from_slice(&output).unwrap();
    let wayfinder = archive.entries().next_entry().unwrap().unwrap().wayfinder();
    let entry = archive.get_entry(wayfinder).unwrap();
    let mut verifier = entry.verifying_reader(());
    let err = verifier.record(entry.data()).unwrap_err();
    assert!(matches!(
        err.kind(),
        rawzip::ErrorKind::InvalidChecksum { .. }
    ));
    // Behind a reader the descriptor is read at the end of the data.
    let mut buffer = vec![0u8; 256];
    let archive = ZipLocator::new()
        .locate_in_reader(output.as_slice(), &mut buffer, output.len() as u64)
        .map_err(|(_, e)| e)
        .unwrap();
    let entry = archive.get_entry(wayfinder).unwrap();
    let mut verifier = entry.verifying_reader(());
    let err = verifier.record(b"some content").unwrap_err();
    assert!(matches!(
        err.kind(),
        rawzip::ErrorKind::InvalidChecksum { .. }
    ));
    let mut verifier = entry.verifying_reader(());
    verifier.record(b"some").unwrap();
    let err = verifier.record(b"").unwrap_err();
    assert!(matches!(
        err.kind(),
        rawzip::ErrorKind::InvalidSize {
            expected: 12,
            actual: 4
        }
    ));
}

#[test]
fn overlapping_ranges_come_to_light_when_sorted() {
    let mut archive = ZipArchiveWriter::new(Vec::new());
    for name in ["a", "b", "c"] {
        let mut file = archive.new_file(name).create().unwrap();
        let mut writer = ZipDataWriter::new(&mut file);
        write_all(&mut writer, name.as_bytes());
        let (_, descriptor) = writer.finish().unwrap();
        file.finish(descriptor).unwrap();
    }
    let output = archive.finish().unwrap();
    let archive = ZipArchive::from_slice(&output).unwrap();
    let mut ranges = Vec::new();
    let mut entries = archive.entries();
    while let Some(entry) = entries.next_entry().unwrap() {
        let wayfinder = entry.wayfinder();
        let lho = entry.local_header_offset();
        let range = archive.get_entry(wayfinder).unwrap().compressed_data_range();
        assert_eq!(range, (lho + 30 + 1, lho + 30 + 1 + 1));
        ranges.push(range);
    }
    ranges.sort_by_key(|&(start, _)| start);
    for window in ranges.windows(2) {
        assert!(window[0].1 <= window[1].0);
    }
}

#[test]
fn new_dir_asks_for_a_slash_at_the_end() {
    let mut archive = ZipArchiveWriter::new(Vec::new());
    let err = archive.new_dir("no_slash").create().unwrap_err();
    match err.kind() {
        rawzip::ErrorKind::InvalidInput { msg } => assert_eq!(msg, "not a directory"),
        other => panic!("unexpected error {:?}", other),
    }
    let long = format!("{}/", "d".repeat(65535));
    let err = archive.new_dir(&long).create().unwrap_err();
    match err.kind() {
        rawzip::ErrorKind::InvalidInput { msg } => assert_eq!(msg, "directory name too long"),
        other => panic!("unexpected error {:?}", other),
    }
    let long = "f".repeat(65536);
    match archive.new_file(&long).create() {
        Err(err) => match err.kind() {
            rawzip::ErrorKind::InvalidInput { msg } => assert_eq!(msg, "file name too long"),
            other => panic!("unexpected error {:?}", other),
        },
        Ok(_) => panic!("a name of 65536 bytes was accepted"),
    }
    // Nothing was written.
    let output = archive.finish().unwrap();
    assert_eq!(output.len(), 22);
}

#[test]
fn writer_at_an_offset_counts_from_it() {
    let mut archive = ZipArchiveWriter::at_offset(1000).build(Vec::new());
    let mut file = archive.new_file("x/").create().unwrap();
    file.write(b"abc").unwrap();
    assert_eq!(file.compressed_bytes(), 3);
    let mut account = ZipDataWriter::new(());
    account.record(b"abc");
    file.finish(account.finish().unwrap().1).unwrap();
    let part = archive.finish().unwrap();
    // Behind 1000 bytes of something else the archive reads as any other.
    let mut whole = vec![0u8; 1000];
    whole.extend_from_slice(&part);
    let archive = ZipArchive::from_slice(&whole).unwrap();
    assert_eq!(archive.base_offset(), 0);
    let entry = archive.entries().next_entry().unwrap().unwrap();
    // A file is entered without the slashes at the end of its name.
    assert_eq!(entry.file_raw_path(), b"x");
    assert_eq!(entry.local_header_offset(), 1000);
    let data = archive.get_entry(entry.wayfinder()).unwrap();
    assert_eq!(data.data(), b"abc");
    assert_eq!(data.compressed_data_range(), (1031, 1034));
}

#[test]
fn timestamp_round_trips_over_many_moments() {
    let mut seconds: i64 = 0;
    while seconds <= u32::MAX as i64 {
        let t = UtcDateTime::from_unix(seconds);
        let output = one_file_archive(Vec::new(), "t", b"", Some(t), None);
        let archive = ZipArchive::from_slice(&output).unwrap();
        let entry = archive.entries().next_entry().unwrap().unwrap();
        assert_eq!(entry.last_modified(), ZipDateTimeKind::Utc(t));
        seconds += 98_765_432;
    }
}

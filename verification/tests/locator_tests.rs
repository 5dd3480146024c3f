use rawzip::locator::{find_end_of_central_dir, find_end_of_central_dir_signature};
use rawzip::{ErrorKind, ZipArchive, ZipLocator, RECOMMENDED_BUFFER_SIZE};

const END_OF_CENTRAL_DIR_SIGNAUTRE_BYTES: [u8; 4] = [0x50, 0x4b, 0x05, 0x06];

#[test]
fn test_find_end_of_central_dir_signature_cases() {
    let cases: Vec<(&[u8], usize, u64, Option<u64>)> = vec![
        (&[], 4, 1000, None),
        (&[6], 4, 1000, None),
        (&[5, 6], 4, 1000, None),
        (&[b'K', 5, 6], 4, 1000, None),
        (&[0, 6, 0, 0, 0], 4, 1000, None),
        (&[b'P', b'K', 5, 6], 4, 1000, Some(0)),
        (&[b'P', b'K', 5, 6], 5, 1000, Some(0)),
        (&[b'P', b'K', 5, 6, 5, 6], 5, 1000, Some(0)),
        (&[b'P', b'K', 5, 6, 6, 0, 0, 0], 4, 1000, Some(0)),
        (&[b'P', b'K', 5, 6, 0, 0, 0, 0], 4, 1000, Some(0)),
        (&[b'P', b'K', 5, 6, 0, 0, 0], 4, 1000, Some(0)),
        (&[b'P', b'K', 5, 6, 0], 4, 1000, Some(0)),
        (&[5, 6, b'P', b'K', 5, 6], 4, 1000, Some(2)),
        (&[5, 6, b'P', b'K', 5, 6], 5, 1000, Some(2)),
        (&[5, 6, b'P', b'K', 5, 6, 5, 6], 4, 1000, Some(2)),
        (&[5, 6, b'P', b'K', 5, 6, 5, 6], 5, 1000, Some(2)),
        (&[b'P', b'K', 5, 6, b'P', b'K', 5, 6, 5, 6], 5, 1000, Some(4)),
        (&[b'P', b'K', 5, 6, b'P', b'K', 5, 6, 5, 6], 32, 1000, Some(4)),
        (&[b'P', b'K', 5, 6], 5, 4, Some(0)), // start of max search space tests
        (&[b'P', b'K', 5, 6, 5, 6], 5, 5, None),
        (&[b'P', b'K', 5, 6, 6, 0, 0, 0], 4, 8, Some(0)),
        (&[b'P', b'K', 5, 6, 0, 0, 0], 4, 8, Some(0)),
        (&[b'P', b'K', 5, 6, 0], 4, 4, None),
        (&[5, 6, b'P', b'K', 5, 6], 4, 4, Some(2)),
        (&[5, 6, b'P', b'K', 5, 6], 5, 4, Some(2)),
        (&[5, 6, b'P', b'K', 5, 6, 5, 6], 4, 4, None),
        (&[5, 6, b'P', b'K', 5, 6, 5, 6], 5, 4, None),
        (&[b'P', b'K', 5, 6, b'P', b'K', 5, 6, 5, 6], 5, 6, Some(4)),
        (&[b'P', b'K', 5, 6, b'P', b'K', 5, 6, 5, 6], 32, 10, Some(4)),
    ];
    for (input, buffer_size, max_search_space, expected) in cases {
        let result = find_end_of_central_dir_signature(input, max_search_space as usize);
        assert_eq!(result.map(|x| x as u64), expected);

        let mut buffer = vec![0u8; buffer_size];
        let found =
            find_end_of_central_dir(&input, &mut buffer, max_search_space, input.len() as u64)
                .unwrap();
        assert_eq!(found.map(|(a, _, _)| a), expected);

        if expected.is_some() {
            let (_, buffer_pos, buffer_valid_len) = found.unwrap();
            assert!(buffer_valid_len > 0, "buffer_valid_len should be positive");
            assert!(
                buffer_valid_len <= buffer_size,
                "buffer_valid_len should not exceed buffer capacity"
            );
            assert!(
                buffer_pos < buffer_valid_len,
                "buffer_index should be within buffer_valid_len"
            );
            assert!(
                buffer_pos + END_OF_CENTRAL_DIR_SIGNAUTRE_BYTES.len() <= buffer_valid_len,
                "signature should be within valid part of buffer"
            );
            assert_eq!(
                buffer[buffer_pos..buffer_pos + 4],
                END_OF_CENTRAL_DIR_SIGNAUTRE_BYTES
            );
        }
    }
}

/// A small deterministic generator, to try many inputs.
fn next_random(state: &mut u64) -> u64 {
    *state ^= *state << 13;
    *state ^= *state >> 7;
    *state ^= *state << 17;
    *state
}

#[test]
fn slice_and_reader_search_agree_on_many_inputs() {
    let mut state = 0x2545F4914F6CDD1Du64;
    for round in 0..3000 {
        let len = (next_random(&mut state) % 40) as usize;
        // Few distinct bytes, so that signatures and parts of them are common.
        let alphabet = [0x50u8, 0x4b, 0x05, 0x06, 0x00];
        let data: Vec<u8> = (0..len)
            .map(|_| alphabet[(next_random(&mut state) % 5) as usize])
            .collect();
        let chunk = 4 + (next_random(&mut state) % 12) as usize;
        let max_search_space = if round % 3 == 0 {
            1 << 20
        } else {
            next_random(&mut state) % 48
        };
        let mem = find_end_of_central_dir_signature(&data, max_search_space as usize);
        let mut buffer = vec![0u8; chunk];
        let found = find_end_of_central_dir(
            &data.as_slice(),
            &mut buffer,
            max_search_space,
            data.len() as u64,
        )
        .unwrap();
        assert_eq!(mem.map(|x| x as u64), found.map(|(a, _, _)| a));
        if let Some((_, index, valid)) = found {
            assert!(index + 4 <= valid && valid <= buffer.len());
            assert_eq!(buffer[index..index + 4], END_OF_CENTRAL_DIR_SIGNAUTRE_BYTES);
        }
    }
}

#[test]
fn signature_across_a_read_boundary_is_found() {
    // For each buffer size and each place of the signature the search finds it.
    for buffer_size in 4..12usize {
        for len in 4..40usize {
            for at in 0..=(len - 4) {
                let mut data = vec![0u8; len];
                data[at..at + 4].copy_from_slice(&END_OF_CENTRAL_DIR_SIGNAUTRE_BYTES);
                let mut buffer = vec![0u8; buffer_size];
                let found =
                    find_end_of_central_dir(&data.as_slice(), &mut buffer, 1 << 20, len as u64)
                        .unwrap();
                assert_eq!(found.map(|(a, _, _)| a), Some(at as u64));
            }
        }
    }
}

#[test]
fn a_buffer_of_fewer_than_four_bytes_finds_nothing() {
    let data = [b'P', b'K', 5, 6];
    let mut buffer = vec![0u8; 3];
    let found = find_end_of_central_dir(&&data[..], &mut buffer, 1000, 4).unwrap();
    assert_eq!(found, None);
    let err = ZipLocator::new()
        .locate_in_reader(&data[..], &mut buffer, 4)
        .unwrap_err()
        .1;
    assert!(matches!(err.kind(), ErrorKind::MissingEndOfCentralDirectory));
}

#[test]
fn search_beyond_the_end_of_the_reader_fails_with_eof() {
    let data = [b'P', b'K', 5, 6];
    let mut buffer = vec![0u8; 16];
    let err = find_end_of_central_dir(&&data[..], &mut buffer, 1000, 5).unwrap_err();
    assert!(matches!(err.kind(), ErrorKind::Eof));
}

#[test]
fn empty_input_has_no_end_of_central_directory() {
    let err = ZipArchive::from_slice(&[]).unwrap_err();
    assert!(matches!(err.kind(), ErrorKind::MissingEndOfCentralDirectory));
    let mut buffer = vec![0u8; RECOMMENDED_BUFFER_SIZE];
    let empty: &[u8] = &[];
    let err = ZipLocator::new()
        .locate_in_reader(empty, &mut buffer, 0)
        .unwrap_err()
        .1;
    assert!(matches!(err.kind(), ErrorKind::MissingEndOfCentralDirectory));
}

#[test]
fn bare_signature_fails_with_eof() {
    let data = [0x50u8, 0x4B, 0x05, 0x06];
    let err = ZipArchive::from_slice(&data).unwrap_err();
    assert!(matches!(err.kind(), ErrorKind::Eof));
    let mut buffer = vec![0u8; RECOMMENDED_BUFFER_SIZE];
    let err = ZipLocator::new()
        .locate_in_reader(&data[..], &mut buffer, 4)
        .unwrap_err()
        .1;
    assert!(matches!(err.kind(), ErrorKind::Eof));
}

#[test]
fn small_buffers_are_told_apart_from_short_data() {
    // A whole record without comment.
    let mut data = vec![0x50u8, 0x4B, 0x05, 0x06];
    data.extend_from_slice(&[0u8; 18]);
    let mut buffer = vec![0u8; 21];
    let err = ZipLocator::new()
        .locate_in_reader(data.as_slice(), &mut buffer, data.len() as u64)
        .unwrap_err()
        .1;
    assert!(matches!(err.kind(), ErrorKind::BufferTooSmall));
    let mut buffer = vec![0u8; 22];
    let archive = ZipLocator::new()
        .locate_in_reader(data.as_slice(), &mut buffer, data.len() as u64)
        .unwrap();
    assert_eq!(archive.entries_hint(), 0);
    assert_eq!(archive.base_offset(), 0);
    assert_eq!(archive.comment().as_bytes(), b"");
}

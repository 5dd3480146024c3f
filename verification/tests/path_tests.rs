use rawzip::path::ZipFilePath;

#[test]
fn test_path_lifetime_test() {
    let normalized_path = ZipFilePath::from_bytes(b"test.txt")
        .try_normalize()
        .unwrap();
    assert_eq!(normalized_path.as_ref(), "test.txt");
    assert_eq!(normalized_path.len(), 8);
}

#[test]
fn test_zip_path_normalized() {
    let cases: Vec<(&[u8], &str)> = vec![
        (b"test.txt", "test.txt"),
        (b"dir/test.txt", "dir/test.txt"),
        (b"dir\\test.txt", "dir/test.txt"),
        (b"dir//test.txt", "dir/test.txt"),
        (b"/test.txt", "test.txt"),
        (b"../test.txt", "test.txt"),
        (b"dir/../test.txt", "test.txt"),
        (b"./test.txt", "test.txt"),
        (b"dir/./test.txt", "dir/test.txt"),
        (b"dir/./../test.txt", "test.txt"),
        (b"dir/sub/../test.txt", "dir/test.txt"),
        (b"dir/../../test.txt", "test.txt"),
        (b"../../../test.txt", "test.txt"),
        (b"a/b/../../test.txt", "test.txt"),
        (b"a/b/c/../../../test.txt", "test.txt"),
        (b"a/b/c/d/../../test.txt", "a/b/test.txt"),
        (b"C:\\hello\\test.txt", "hello/test.txt"),
        (b"C:/hello\\test.txt", "hello/test.txt"),
        (b"C:/hello/test.txt", "hello/test.txt"),
        (b"a/b/c/../../x", "a/x"),
        (b"dir/", "dir/"),
        (b"", ""),
        (b"..", ""),
        (b".", ""),
        (b"/.", ""),
        (b"./.", ""),
        (b".x", ".x"),
        (b"./", ""),
        (b"/", ""),
        (b"a/..", ""),
        (b"a//", "a"),
        (b"a/b/..", "a"),
        (b"a..b", "a..b"),
        (b"a/.b", "a/.b"),
        (b"x:y:z", "z"),
        (b"../../../etc/passwd", "etc/passwd"),
    ];
    for (input, expected) in cases {
        assert_eq!(
            ZipFilePath::from_bytes(input)
                .try_normalize()
                .unwrap()
                .as_ref(),
            expected
        );
        assert_eq!(
            rawzip::ZipFilePath::new(input).normalize().unwrap(),
            expected
        );
        // A normalized path is left as it is.
        assert_eq!(ZipFilePath::from_str(expected).as_ref(), expected);
    }
}

#[test]
fn test_zip_path_normalized_invalid_utf8() {
    let cases: Vec<&[u8]> = vec![&[0xFF], &[b't', b'e', b's', b't', 0xFF]];
    for input in cases {
        assert!(ZipFilePath::from_bytes(input).try_normalize().is_err());
        let err = rawzip::ZipFilePath::new(input).normalize().unwrap_err();
        assert!(matches!(err.kind(), rawzip::ErrorKind::InvalidUtf8(_)));
    }
}

#[test]
fn test_needs_utf8_encoding() {
    let cases = vec![
        ("test.txt", false),
        ("hello_world", false),
        ("file.name.ext", false),
        ("hello!", false),
        ("hello{world}", false),
        ("hello|world", false),
        ("hello`world", false),
        ("hello\"world", false),
        ("hello<world>", false),
        ("hello;world", false),
        ("hello:world", false),
        ("hello^world", false),
        ("hello\u{00A0}world", true),
        ("hello\u{0080}world", true),
        ("hello\u{00FF}world", true),
        ("hello\u{0100}world", true),
        ("hello\u{03B1}world", true),
        ("hello\u{4E00}world", true),
        ("hello\u{1F600}world", true),
        (r"hello\world", false), // Backslash gets normalized to forward slash
        ("hello~world", true),
        ("hello\u{007F}world", true),
        ("hello\u{001F}world", true),
        ("hello\u{0000}world", true),
        ("hello\u{0001}world", true),
        ("hello\u{000A}world", true),
        ("hello\u{000D}world", true),
        ("hello\u{0009}world", true),
        ("", false),
        (" ", false),
        ("hello\u{007E}world", true),
        ("hello\u{007D}world", false),
    ];
    for (input, expected) in cases {
        let path = ZipFilePath::from_str(input);
        assert_eq!(
            path.needs_utf8_encoding(),
            expected,
            "Failed for input: {}",
            input
        );
    }
}

#[test]
fn path_is_a_directory_where_it_ends_with_a_slash() {
    assert!(ZipFilePath::from_bytes(b"dir/").is_dir());
    assert!(!ZipFilePath::from_bytes(b"dir/file.txt").is_dir());
    assert!(!ZipFilePath::from_bytes(b"").is_dir());
    assert!(ZipFilePath::from_bytes(b"").is_empty());
    assert!(ZipFilePath::from_str("dir/").is_dir());
    assert!(rawzip::ZipFilePath::new(b"dir/").is_dir());
    assert_eq!(ZipFilePath::from_str("caf\u{e9}").len(), 5);
}

#[test]
fn fast_path_keeps_text_behind_multibyte_characters() {
    let p = ZipFilePath::from_str("/\u{1F600}/x");
    assert_eq!(p.as_ref(), "\u{1F600}/x");
    let owned = p.into_owned();
    assert_eq!(owned.into_string(), "\u{1F600}/x");
    assert_eq!(ZipFilePath::normalize_alloc("a\\b:c\\..\\d"), "d");
}

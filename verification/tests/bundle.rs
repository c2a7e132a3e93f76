use vsl::bundle::order::{name_leq, name_order};
use vsl::bundle::path::{validate_relative, PathStyle};
use vsl::bundle::{
    entrypoint_path, is_bundle, pack, read_u16, read_u32, read_u64, symlink_target, take, unpack,
    unpack_end, unpack_entry, unpack_header, Bundle, BundleEntry, BundleEntryKind,
};
use vsl::error::{io_error, Error};

fn entry(path: &str, kind: BundleEntryKind, mode: u32, data: &[u8]) -> BundleEntry {
    BundleEntry { path: path.to_string(), kind, mode, data: data.to_vec() }
}

fn demo_bundle() -> Bundle {
    Bundle {
        entrypoint: "Contents/MacOS/Demo".to_string(),
        entries: vec![
            entry("Contents/MacOS/Demo", BundleEntryKind::File, 0o755, b"#!/bin/sh\necho demo\n"),
            entry("Contents/MacOS", BundleEntryKind::Directory, 0o755, b""),
            entry("Contents/MacOS/run", BundleEntryKind::Symlink, 0o777, b"Demo"),
            entry("Contents", BundleEntryKind::Directory, 0o755, b""),
        ],
    }
}

fn expect_malformed(err: Error, message: &str) {
    match err {
        Error::MalformedBundle(m) => assert_eq!(m, message),
        other => panic!("unexpected error {:?}", other),
    }
}

#[test]
fn pack_writes_the_documented_layout() {
    let bundle = Bundle {
        entrypoint: "Contents/MacOS/Demo".to_string(),
        entries: vec![entry("a", BundleEntryKind::File, 0o644, b"hi")],
    };
    let bytes = pack(&bundle).unwrap();
    let mut expected: Vec<u8> = Vec::new();
    expected.extend_from_slice(b"VSLBND01");
    expected.extend_from_slice(&[0, 1]);
    expected.extend_from_slice(&[0, 0, 0, 1]);
    expected.extend_from_slice(&[0, 19]);
    expected.extend_from_slice(b"Contents/MacOS/Demo");
    expected.push(1);
    expected.extend_from_slice(&[0, 0, 1, 0xa4]);
    expected.extend_from_slice(&[0, 0, 0, 1]);
    expected.extend_from_slice(&[0, 0, 0, 0, 0, 0, 0, 2]);
    expected.extend_from_slice(b"a");
    expected.extend_from_slice(b"hi");
    assert_eq!(bytes, expected);
}

#[test]
fn pack_tags_each_kind() {
    let bytes = pack(&demo_bundle()).unwrap();
    let start = 8 + 2 + 4 + 2 + 19;
    assert_eq!(bytes[start], 1);
    assert!(is_bundle(&bytes));
}

#[test]
fn unpack_gives_back_the_packed_bundle() {
    let bundle = demo_bundle();
    let bytes = pack(&bundle).unwrap();
    let restored = unpack(&bytes, PathStyle::Unix).unwrap();
    assert_eq!(restored, bundle);
}

#[test]
fn unpack_gives_back_an_empty_bundle() {
    let bundle = Bundle { entrypoint: "run".to_string(), entries: Vec::new() };
    let bytes = pack(&bundle).unwrap();
    assert_eq!(bytes.len(), 8 + 2 + 4 + 2 + 3);
    assert_eq!(unpack(&bytes, PathStyle::Unix).unwrap(), bundle);
}

#[test]
fn unpack_keeps_non_ascii_paths() {
    let bundle = Bundle {
        entrypoint: "Contents/MacOS/Démo".to_string(),
        entries: vec![entry("Contents/MacOS/Démo", BundleEntryKind::File, 0o700, b"\x00\xff")],
    };
    let bytes = pack(&bundle).unwrap();
    assert_eq!(unpack(&bytes, PathStyle::Unix).unwrap(), bundle);
}

#[test]
fn stepwise_unpack_walks_the_same_entries() {
    let bundle = demo_bundle();
    let bytes = pack(&bundle).unwrap();
    let (entrypoint, count, mut cursor) = unpack_header(&bytes, PathStyle::Unix).unwrap();
    assert_eq!(entrypoint, bundle.entrypoint);
    assert_eq!(count, 4);
    for expected in &bundle.entries {
        let got = unpack_entry(&bytes, &mut cursor, PathStyle::Unix).unwrap();
        assert_eq!(&got, expected);
    }
    assert!(unpack_end(&bytes, cursor).is_ok());
}

#[test]
fn is_bundle_checks_the_magic() {
    assert!(is_bundle(b"VSLBND01"));
    assert!(is_bundle(b"VSLBND01 and more"));
    assert!(!is_bundle(b"VSLBND0"));
    assert!(!is_bundle(b"VSLBND02"));
    assert!(!is_bundle(b""));
}

#[test]
fn unpack_rejects_a_short_magic_as_truncated() {
    expect_malformed(unpack(b"VSL", PathStyle::Unix).unwrap_err(), "bundle is truncated");
}

#[test]
fn unpack_rejects_a_wrong_magic() {
    expect_malformed(unpack(b"VSLBND02\x00\x01", PathStyle::Unix).unwrap_err(), "bundle magic is invalid");
}

#[test]
fn unpack_rejects_other_versions() {
    let mut bytes = pack(&demo_bundle()).unwrap();
    bytes[9] = 2;
    assert!(matches!(unpack(&bytes, PathStyle::Unix).unwrap_err(), Error::UnsupportedVersion(2)));
}

#[test]
fn unpack_rejects_trailing_bytes() {
    let mut bytes = pack(&demo_bundle()).unwrap();
    bytes.push(0);
    assert!(matches!(unpack(&bytes, PathStyle::Unix).unwrap_err(), Error::TrailingBundleData));
}

#[test]
fn unpack_rejects_a_missing_entry() {
    let bundle = demo_bundle();
    let mut bytes = pack(&bundle).unwrap();
    bytes[13] = 5;
    expect_malformed(unpack(&bytes, PathStyle::Unix).unwrap_err(), "bundle is truncated");
}

#[test]
fn unpack_rejects_an_unknown_entry_kind() {
    let mut bytes = pack(&demo_bundle()).unwrap();
    bytes[8 + 2 + 4 + 2 + 19] = 4;
    assert!(matches!(unpack(&bytes, PathStyle::Unix).unwrap_err(), Error::InvalidBundleEntryType));
}

#[test]
fn unpack_rejects_an_absolute_entry_path() {
    let bundle = Bundle {
        entrypoint: "run".to_string(),
        entries: vec![entry("/etc/passwd", BundleEntryKind::File, 0o644, b"x")],
    };
    let bytes = pack(&bundle).unwrap();
    assert!(matches!(unpack(&bytes, PathStyle::Unix).unwrap_err(), Error::InvalidBundlePath));
}

#[test]
fn unpack_rejects_a_climbing_entry_path() {
    let bundle = Bundle {
        entrypoint: "run".to_string(),
        entries: vec![entry("a/../../b", BundleEntryKind::File, 0o644, b"x")],
    };
    let bytes = pack(&bundle).unwrap();
    assert!(matches!(unpack(&bytes, PathStyle::Unix).unwrap_err(), Error::InvalidBundlePath));
}

#[test]
fn unpack_rejects_a_climbing_entrypoint() {
    let bundle = Bundle { entrypoint: "../run".to_string(), entries: Vec::new() };
    let bytes = pack(&bundle).unwrap();
    assert!(matches!(unpack(&bytes, PathStyle::Unix).unwrap_err(), Error::InvalidBundlePath));
}

#[test]
fn unpack_rejects_an_empty_entrypoint() {
    let bundle = Bundle { entrypoint: String::new(), entries: Vec::new() };
    let bytes = pack(&bundle).unwrap();
    assert!(matches!(unpack(&bytes, PathStyle::Unix).unwrap_err(), Error::InvalidBundlePath));
}

#[test]
fn unpack_rejects_a_non_utf8_entrypoint() {
    let mut bytes: Vec<u8> = b"VSLBND01\x00\x01\x00\x00\x00\x00\x00\x01".to_vec();
    bytes.push(0xff);
    expect_malformed(unpack(&bytes, PathStyle::Unix).unwrap_err(), "bundle entrypoint is not UTF-8");
}

#[test]
fn unpack_rejects_a_non_utf8_entry_path() {
    let bundle = Bundle {
        entrypoint: "run".to_string(),
        entries: vec![entry("a", BundleEntryKind::File, 0o644, b"x")],
    };
    let mut bytes = pack(&bundle).unwrap();
    let path_at = 8 + 2 + 4 + 2 + 3 + 1 + 4 + 4 + 8;
    bytes[path_at] = 0xc0;
    expect_malformed(unpack(&bytes, PathStyle::Unix).unwrap_err(), "bundle path is not UTF-8");
}

#[test]
fn unpack_reports_an_offset_overflow() {
    let bundle = Bundle {
        entrypoint: "run".to_string(),
        entries: vec![entry("a", BundleEntryKind::File, 0o644, b"x")],
    };
    let mut bytes = pack(&bundle).unwrap();
    let data_len_at = 8 + 2 + 4 + 2 + 3 + 1 + 4 + 4;
    for b in &mut bytes[data_len_at..data_len_at + 8] {
        *b = 0xff;
    }
    let err = unpack(&bytes, PathStyle::Unix).unwrap_err();
    if usize::MAX as u64 == u64::MAX {
        expect_malformed(err, "bundle offset overflow");
    } else {
        expect_malformed(err, "bundle data length is invalid");
    }
}

#[test]
fn take_moves_the_cursor_only_on_success() {
    let input = [1u8, 2, 3, 4, 5];
    let mut cursor = 1;
    assert_eq!(take(&input, &mut cursor, 3).unwrap(), &[2, 3, 4]);
    assert_eq!(cursor, 4);
    expect_malformed(take(&input, &mut cursor, 2).unwrap_err(), "bundle is truncated");
    assert_eq!(cursor, 4);
    expect_malformed(take(&input, &mut cursor, usize::MAX).unwrap_err(), "bundle offset overflow");
    assert_eq!(cursor, 4);
    assert_eq!(take(&input, &mut cursor, 1).unwrap(), &[5]);
    assert_eq!(take(&input, &mut cursor, 0).unwrap(), &[] as &[u8]);
}

#[test]
fn read_integers_big_endian() {
    let input = [0x12u8, 0x34, 0x56, 0x78, 0x9a, 0xbc, 0xde, 0xf0, 0x01, 0x02, 0x03, 0x04, 0x05, 0x06];
    let mut cursor = 0;
    assert_eq!(read_u16(&input, &mut cursor).unwrap(), 0x1234);
    assert_eq!(read_u32(&input, &mut cursor).unwrap(), 0x5678_9abc);
    assert_eq!(read_u64(&input, &mut cursor).unwrap(), 0xdef0_0102_0304_0506);
    assert_eq!(cursor, 14);
    assert!(read_u16(&input, &mut cursor).is_err());
    assert_eq!(cursor, 14);
}

#[test]
fn validate_relative_accepts_and_refuses() {
    for ok in ["a", "a/b", "Contents/MacOS/Demo", "./a", "a/..b", "..a", "a/...", "a/b/", "."] {
        assert!(validate_relative(ok, PathStyle::Unix).is_ok(), "{}", ok);
    }
    for bad in ["", "/", "/a", "..", "../a", "a/..", "a/../b", "a//../b"] {
        assert!(matches!(validate_relative(bad, PathStyle::Unix), Err(Error::InvalidBundlePath)), "{}", bad);
    }
}

#[test]
fn symlink_target_must_be_relative_utf8() {
    assert_eq!(symlink_target(b"MacOS/Demo", PathStyle::Unix).unwrap(), "MacOS/Demo");
    assert!(matches!(symlink_target(b"/bin/sh", PathStyle::Unix), Err(Error::InvalidBundlePath)));
    assert!(matches!(symlink_target(b"../x", PathStyle::Unix), Err(Error::InvalidBundlePath)));
    expect_malformed(symlink_target(b"\xff", PathStyle::Unix).unwrap_err(), "bundle symlink target is not UTF-8");
}

#[test]
fn entrypoint_path_is_under_contents_macos() {
    assert_eq!(entrypoint_path("Demo"), "Contents/MacOS/Demo");
}

#[test]
fn io_error_names_path_and_cause() {
    expect_malformed(io_error("/tmp/x", "denied"), "I/O error for /tmp/x: denied");
}

#[test]
fn unpacked_paths_are_never_outside_the_root() {
    let mut bytes = pack(&demo_bundle()).unwrap();
    let first_path = 8 + 2 + 4 + 2 + 19 + 1 + 4 + 4 + 8;
    bytes[first_path] = b'/';
    assert!(matches!(unpack(&bytes, PathStyle::Unix).unwrap_err(), Error::InvalidBundlePath));
}

fn one_link(target: &[u8]) -> Vec<u8> {
    let bundle = Bundle {
        entrypoint: "a".to_string(),
        entries: vec![entry("l", BundleEntryKind::Symlink, 0o777, target)],
    };
    pack(&bundle).unwrap()
}

#[test]
fn unpack_rejects_an_absolute_link_target() {
    let bytes = one_link(b"/etc");
    assert!(matches!(unpack(&bytes, PathStyle::Unix).unwrap_err(), Error::InvalidBundlePath));
    let (_, _, mut cursor) = unpack_header(&bytes, PathStyle::Unix).unwrap();
    assert!(matches!(unpack_entry(&bytes, &mut cursor, PathStyle::Unix).unwrap_err(), Error::InvalidBundlePath));
}

#[test]
fn unpack_rejects_a_climbing_link_target() {
    let bytes = one_link(b"../MacOS/Demo");
    assert!(matches!(unpack(&bytes, PathStyle::Unix).unwrap_err(), Error::InvalidBundlePath));
}

#[test]
fn unpack_rejects_a_non_utf8_link_target() {
    let bytes = one_link(b"\xff\xfe");
    expect_malformed(unpack(&bytes, PathStyle::Unix).unwrap_err(), "bundle symlink target is not UTF-8");
}

#[test]
fn unpack_accepts_a_relative_link_target() {
    let bytes = one_link(b"b/c");
    let bundle = unpack(&bytes, PathStyle::Unix).unwrap();
    assert_eq!(bundle.entries[0].data, b"b/c".to_vec());
}

#[test]
fn link_targets_are_not_checked_on_other_kinds() {
    let bundle = Bundle {
        entrypoint: "a".to_string(),
        entries: vec![entry("f", BundleEntryKind::File, 0o644, b"/etc/../\xff")],
    };
    let bytes = pack(&bundle).unwrap();
    assert_eq!(unpack(&bytes, PathStyle::Unix).unwrap(), bundle);
}

#[test]
fn unix_paths_treat_backslash_and_colon_as_ordinary_bytes() {
    for ok in ["..\\x", "a\\..\\b", "C:\\x", "c:x", "\\x", "\\\\server\\share"] {
        assert!(validate_relative(ok, PathStyle::Unix).is_ok(), "{}", ok);
    }
}

#[test]
fn windows_paths_reject_backslash_parents_roots_and_prefixes() {
    for bad in [
        "..\\x", "a\\..\\b", "a\\..", "a/..\\b", "C:\\x", "c:x", "Z:", "\\x", "/x",
        "\\\\server\\share\\x", "//server/share/x", "\\\\?\\C:\\x", "", "..",
    ] {
        assert!(
            matches!(validate_relative(bad, PathStyle::Windows), Err(Error::InvalidBundlePath)),
            "{}",
            bad
        );
    }
    for ok in ["a", "a\\b", "a/b\\c", ".\\a", "..a\\b", "a\\...", "1:x", "a\\C:"] {
        assert!(validate_relative(ok, PathStyle::Windows).is_ok(), "{}", ok);
    }
}

#[test]
fn unpack_reads_paths_in_the_given_style() {
    let bundle = Bundle {
        entrypoint: "run".to_string(),
        entries: vec![entry("..\\x", BundleEntryKind::File, 0o644, b"x")],
    };
    let bytes = pack(&bundle).unwrap();
    assert_eq!(unpack(&bytes, PathStyle::Unix).unwrap(), bundle);
    assert!(matches!(unpack(&bytes, PathStyle::Windows).unwrap_err(), Error::InvalidBundlePath));
    let drive = Bundle { entrypoint: "C:\\evil".to_string(), entries: Vec::new() };
    let bytes = pack(&drive).unwrap();
    assert!(matches!(unpack(&bytes, PathStyle::Windows).unwrap_err(), Error::InvalidBundlePath));
}

#[test]
fn windows_link_targets_are_checked_with_windows_rules() {
    let bytes = one_link(b"..\\x");
    assert!(unpack(&bytes, PathStyle::Unix).is_ok());
    assert!(matches!(unpack(&bytes, PathStyle::Windows).unwrap_err(), Error::InvalidBundlePath));
    assert!(matches!(symlink_target(b"C:\\x", PathStyle::Windows), Err(Error::InvalidBundlePath)));
}

#[test]
fn windows_round_trip_of_the_demo_bundle() {
    let bundle = demo_bundle();
    let bytes = pack(&bundle).unwrap();
    assert_eq!(unpack(&bytes, PathStyle::Windows).unwrap(), bundle);
}

#[test]
fn name_order_sorts_names_byte_by_byte() {
    let names: Vec<Vec<u8>> = vec![b"b".to_vec(), b"a".to_vec(), b"ab".to_vec(), b"".to_vec(), b"B".to_vec()];
    assert_eq!(name_order(&names), vec![3, 4, 1, 2, 0]);
    assert_eq!(name_order(&Vec::new()), Vec::<usize>::new());
}

#[test]
fn name_leq_compares_bytes_then_length() {
    assert!(name_leq(b"a", b"b"));
    assert!(name_leq(b"a", b"ab"));
    assert!(!name_leq(b"ab", b"a"));
    assert!(name_leq(b"ab", b"ab"));
    assert!(!name_leq(b"\xff", b"a"));
    assert!(name_leq(b"", b""));
}

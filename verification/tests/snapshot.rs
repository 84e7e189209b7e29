use control_cli::annotation::matches_annotation;
use control_cli::code::get_common_values;
use control_cli::code::CommentedCode;
use control_cli::code::Point;
use control_cli::codec::compress_snapshot;
use control_cli::codec::decode_snapshot;
use control_cli::codec::decompress_snapshot;
use control_cli::codec::encode_snapshot;
use control_cli::codec::SnapshotError;
use control_cli::differ::diff;

fn region(path: &str, comment: &str, content: &str, sr: usize, sc: usize, er: usize, ec: usize)
    -> CommentedCode {
    CommentedCode::new(
        path.to_string(),
        comment.to_string(),
        content.to_string(),
        Point::new(sr, sc),
        Point::new(er, ec),
    )
}

fn sample_snapshot() -> Vec<CommentedCode> {
    vec![
        region("src/a.js", "// control A1", "const x = 1;", 1, 0, 1, 12),
        region("src/b.js", "/* control B2 C3 */", "fn b() {}", 4, 2, 6, 1),
    ]
}

#[test]
fn point_and_region_accessors() {
    let p = Point::new(3, 7);
    assert_eq!(p.row, 3);
    assert_eq!(p.column, 7);
    let c = region("p", "// control X1", "body", 1, 2, 3, 4);
    assert_eq!(c.get_path(), "p");
    assert_eq!(c.get_comment(), "// control X1");
    assert_eq!(c.get_content(), "body");
    assert_eq!(c.get_start(), Point::new(1, 2));
    assert_eq!(c.get_end(), Point::new(3, 4));
}

#[test]
fn region_equality_is_full_field() {
    let a = region("p", "// control X1", "body", 1, 2, 3, 4);
    let b = region("p", "// control X1", "body", 1, 2, 3, 4);
    assert_eq!(a, b);
    assert_ne!(a, region("q", "// control X1", "body", 1, 2, 3, 4));
    assert_ne!(a, region("p", "// control X2", "body", 1, 2, 3, 4));
    assert_ne!(a, region("p", "// control X1", "bodyy", 1, 2, 3, 4));
    assert_ne!(a, region("p", "// control X1", "body", 0, 2, 3, 4));
    assert_ne!(a, region("p", "// control X1", "body", 1, 2, 3, 5));
}

#[test]
fn annotation_matching() {
    assert!(matches_annotation("// control SUB-1"));
    assert!(!matches_annotation("// not a control comment"));
    assert!(!matches_annotation("// controlling"));
    assert!(!matches_annotation("// controltest"));
    assert!(matches_annotation("/* control HE-110 JS-1 */"));
    assert!(matches_annotation("/**\n   * control T84\n  **/"));
    assert!(!matches_annotation(""));
    assert!(!matches_annotation("// control"));
    assert!(!matches_annotation("// control "));
    assert!(matches_annotation("// control T84"));
    assert!(matches_annotation("// control a_b"));
    assert!(!matches_annotation("// note control THIS-1"));
    assert!(matches_annotation("//\tcontrol T84"));
}

#[test]
fn encode_matches_stored_format() {
    let snapshot = vec![region(
        "cli/tests/resources/java/Program.java",
        "/* control HE-110 */",
        "System.out.println(\"Hello, World!\");",
        5,
        8,
        5,
        44,
    )];
    let encoded = encode_snapshot(&snapshot);
    let expected = "\u{1}\0\0\0\0\0\0\0%\0\0\0\0\0\0\0cli/tests/resources/java/Program.java\u{14}\0\0\0\0\0\0\0/* control HE-110 */$\0\0\0\0\0\0\0System.out.println(\"Hello, World!\");\u{5}\0\0\0\0\0\0\0\u{8}\0\0\0\0\0\0\0\u{5}\0\0\0\0\0\0\0,\0\0\0\0\0\0\0";
    assert_eq!(encoded, expected.as_bytes().to_vec());
}

#[test]
fn binary_round_trip() {
    let snapshot = sample_snapshot();
    let encoded = encode_snapshot(&snapshot);
    let decoded = decode_snapshot(&encoded).unwrap();
    assert_eq!(decoded, snapshot);
}

#[test]
fn binary_round_trip_non_ascii() {
    let snapshot = vec![region("s\u{e9}rc/\u{1f600}.js", "// control \u{dc}B-1", "let s = '\u{4e16}\u{754c}';", 0, 0, 0, 20)];
    let encoded = encode_snapshot(&snapshot);
    let decoded = decode_snapshot(&encoded).unwrap();
    assert_eq!(decoded, snapshot);
}

#[test]
fn binary_round_trip_empty() {
    let snapshot: Vec<CommentedCode> = Vec::new();
    let encoded = encode_snapshot(&snapshot);
    let decoded = decode_snapshot(&encoded).unwrap();
    assert_eq!(decoded.len(), 0);
}

#[test]
fn compressed_round_trip() {
    let snapshot = sample_snapshot();
    let packed = compress_snapshot(&snapshot).unwrap();
    assert_ne!(packed, encode_snapshot(&snapshot));
    let unpacked = decompress_snapshot(&packed).unwrap();
    assert_eq!(unpacked, snapshot);
}

#[test]
fn decode_rejects_empty_input() {
    assert_eq!(decode_snapshot(&Vec::new()), Err(SnapshotError::Malformed));
}

#[test]
fn decode_rejects_truncation() {
    let snapshot = sample_snapshot();
    let mut encoded = encode_snapshot(&snapshot);
    encoded.pop();
    assert_eq!(decode_snapshot(&encoded), Err(SnapshotError::Malformed));
}

#[test]
fn decode_rejects_trailing_bytes() {
    let snapshot = sample_snapshot();
    let mut encoded = encode_snapshot(&snapshot);
    encoded.push(0);
    assert_eq!(decode_snapshot(&encoded), Err(SnapshotError::Malformed));
}

#[test]
fn decode_rejects_invalid_utf8() {
    let snapshot = vec![region("abcd", "// control A1", "x", 0, 0, 0, 1)];
    let mut encoded = encode_snapshot(&snapshot);
    // the path's four bytes start right after the count and length prefixes
    encoded[16] = 0xFF;
    assert_eq!(decode_snapshot(&encoded), Err(SnapshotError::Malformed));
}

#[test]
fn decompress_rejects_raw_bytes() {
    let garbage = vec![0u8, 1, 2, 3, 4, 5, 250, 251, 252];
    assert_eq!(decompress_snapshot(&garbage), Err(SnapshotError::Compression));
}

#[test]
fn decompress_rejects_compressed_garbage() {
    let mut writer = brotli::CompressorWriter::new(Vec::new(), 4096, 5, 22);
    std::io::Write::write_all(&mut writer, b"no snapshot here").unwrap();
    let packed = writer.into_inner();
    assert_eq!(decompress_snapshot(&packed), Err(SnapshotError::Malformed));
}

#[test]
fn diff_identity_reports_no_changes() {
    let snapshot = sample_snapshot();
    let (removed, added) = diff(&snapshot, &snapshot);
    assert!(removed.is_empty());
    assert!(added.is_empty());
    let empty: Vec<CommentedCode> = Vec::new();
    let (removed, added) = diff(&empty, &empty);
    assert!(removed.is_empty());
    assert!(added.is_empty());
}

#[test]
fn diff_identity_ignores_order() {
    let a = sample_snapshot();
    let mut b = sample_snapshot();
    b.reverse();
    let (removed, added) = diff(&a, &b);
    assert!(removed.is_empty());
    assert!(added.is_empty());
}

#[test]
fn diff_symmetry() {
    let a = vec![
        region("p", "// control A1", "x", 0, 0, 0, 1),
        region("p", "// control B2", "y", 1, 0, 1, 1),
    ];
    let b = vec![
        region("p", "// control B2", "y", 1, 0, 1, 1),
        region("q", "// control C3", "z", 2, 0, 2, 1),
    ];
    let (removed_ab, added_ab) = diff(&a, &b);
    let (removed_ba, added_ba) = diff(&b, &a);
    assert_eq!(removed_ab, added_ba);
    assert_eq!(added_ab, removed_ba);
    assert_eq!(removed_ab, vec![region("p", "// control A1", "x", 0, 0, 0, 1)]);
    assert_eq!(added_ab, vec![region("q", "// control C3", "z", 2, 0, 2, 1)]);
}

#[test]
fn diff_multiset_cancellation() {
    let s1 = sample_snapshot();
    let mut s2 = sample_snapshot();
    let duplicate = region("src/a.js", "// control A1", "const x = 1;", 1, 0, 1, 12);
    s2.push(duplicate.clone());
    let (removed, added) = diff(&s1, &s2);
    assert!(removed.is_empty());
    assert_eq!(added, vec![duplicate]);
}

#[test]
fn diff_reports_changed_region_as_removed_and_added() {
    let old = vec![region("p", "// control A1", "x = 1;", 0, 0, 0, 6)];
    let new = vec![region("p", "// control A1", "x = 2;", 0, 0, 0, 6)];
    let (removed, added) = diff(&old, &new);
    assert_eq!(removed, old);
    assert_eq!(added, new);
}

#[test]
fn common_values_multiset_intersection() {
    let a = region("p", "// control A1", "x", 0, 0, 0, 1);
    let b = region("p", "// control B2", "y", 1, 0, 1, 1);
    let c = region("p", "// control C3", "z", 2, 0, 2, 1);
    // a value occurs min(count, count) times: one a, no b, one c
    let v1 = vec![a.clone(), b.clone(), a.clone(), c.clone()];
    let v2 = vec![c.clone(), a.clone()];
    let common = get_common_values(&v1, &v2);
    assert_eq!(common, vec![a.clone(), c.clone()]);
    // duplicates cancel one for one
    let common = get_common_values(&vec![a.clone(), a.clone()], &vec![a.clone()]);
    assert_eq!(common, vec![a.clone()]);
    // as multisets the intersection is symmetric; order follows the first argument
    let common = get_common_values(&vec![c.clone(), a.clone()], &v1);
    assert_eq!(common, vec![c, a]);
}

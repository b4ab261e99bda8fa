use carapace::artifact::{assess_bundle, parse_sha256sums, sum_for, summary_text, ChecksumsError};
use carapace::bundle::{entry_for_digest, file_entry, render_checksums, BundleFile, BundleMetadata, PublishBundle};

const SHA_ABC: &str = "ba7816bf8f01cfea414140de5dae2223b00361a396177a9cb410ff61f20015ad";
const SHA_EMPTY: &str = "e3b0c44298fc1c149afbf4c8996fb92427ae41e4649b934ca495991b7852b855";

fn sample_bundle() -> PublishBundle {
    PublishBundle::assemble(
        "2024-01-01T00:00:00Z".to_string(),
        "api.deepseek.com".to_string(),
        "https://api.deepseek.com".to_string(),
        "A".to_string(),
        100,
        "abc",
        "",
        "{\"host\":\"api.deepseek.com\"}",
    )
}

#[test]
fn file_entry_hashes_contents() {
    let f = file_entry("report.md", b"abc");
    assert_eq!(f.path, "report.md");
    assert_eq!(f.sha256, SHA_ABC);
    assert_eq!(f.bytes, 3);
    assert_eq!(file_entry("badge.svg", b"").sha256, SHA_EMPTY);
}

#[test]
fn digest_is_written_in_lower_case_hex() {
    let f = entry_for_digest("x", &[0x00, 0xab, 0x10, 0xff], 9);
    assert_eq!(f.sha256, "00ab10ff");
    assert_eq!(f.bytes, 9);
}

#[test]
fn bundle_writes_expected_layout() {
    let bundle = sample_bundle();
    let m = &bundle.metadata;
    assert_eq!(m.schema_version, "1");
    assert_eq!(m.files.len(), 3);
    assert_eq!(m.files[0].path, "report.md");
    assert_eq!(m.files[1].path, "badge.svg");
    assert_eq!(m.files[2].path, "entry.json");
    assert_eq!(m.files[0].sha256, SHA_ABC);
    assert_eq!(m.files[1].sha256, SHA_EMPTY);
    assert_eq!(m.files[2].bytes, 27);
    assert_eq!(m.score, 100);
}

#[test]
fn checksums_manifest_has_one_line_per_file() {
    let m = BundleMetadata {
        schema_version: "1".to_string(),
        generated_at: "t".to_string(),
        host: "h".to_string(),
        upstream: "u".to_string(),
        grade: "A".to_string(),
        score: 1,
        files: vec![
            BundleFile { path: "a".to_string(), sha256: "11".to_string(), bytes: 1 },
            BundleFile { path: "b".to_string(), sha256: "22".to_string(), bytes: 2 },
        ],
    };
    assert_eq!(render_checksums(&m), "11  a\n22  b\n");
}

#[test]
fn parse_reads_file_and_sum() {
    let v = parse_sha256sums("11  a\n\n   \n22 b extra\r\n").unwrap();
    assert_eq!(v, vec![("a".to_string(), "11".to_string()), ("b".to_string(), "22".to_string())]);
}

#[test]
fn parse_refuses_a_line_without_path() {
    assert_eq!(parse_sha256sums("11  a\n22\n"), Err(ChecksumsError::MissingPath));
    assert_eq!(parse_sha256sums(""), Ok(Vec::new()));
}

#[test]
fn later_line_overrides_earlier_for_same_file() {
    let v = parse_sha256sums("11 a\n22 a\n33 b\n").unwrap();
    assert_eq!(sum_for(&v, "a"), Some("22".to_string()));
    assert_eq!(sum_for(&v, "b"), Some("33".to_string()));
    assert_eq!(sum_for(&v, "c"), None);
}

#[test]
fn rendered_manifest_reads_back() {
    let bundle = sample_bundle();
    let v = parse_sha256sums(&render_checksums(&bundle.metadata)).unwrap();
    let expected: Vec<(String, String)> =
        bundle.metadata.files.iter().map(|f| (f.path.clone(), f.sha256.clone())).collect();
    assert_eq!(v, expected);
}

#[test]
fn verify_bundle_round_trip() {
    let bundle = sample_bundle();
    let sums = parse_sha256sums(&render_checksums(&bundle.metadata)).unwrap();
    let contents = vec![Some(b"abc".to_vec()), Some(Vec::new()), Some(b"{\"host\":\"api.deepseek.com\"}".to_vec())];
    let v = assess_bundle("/tmp/b".to_string(), &bundle.metadata, &sums, &contents, None);
    assert!(v.files_ok);
    assert!(v.checksums_ok);
    assert_eq!(v.entry_signature_ok, None);
    assert_eq!(v.summary, "bundle and checksums verify; entry signature not checked");
    assert_eq!(v.path, "/tmp/b");
}

#[test]
fn tampered_file_fails_checksums() {
    let bundle = sample_bundle();
    let sums = parse_sha256sums(&render_checksums(&bundle.metadata)).unwrap();
    let contents = vec![Some(b"abd".to_vec()), Some(Vec::new()), Some(b"{\"host\":\"api.deepseek.com\"}".to_vec())];
    let v = assess_bundle("d".to_string(), &bundle.metadata, &sums, &contents, Some(true));
    assert!(v.files_ok);
    assert!(!v.checksums_ok);
    assert_eq!(v.summary, "bundle files exist but checksums mismatch");
}

#[test]
fn missing_file_fails_presence() {
    let bundle = sample_bundle();
    let sums = parse_sha256sums(&render_checksums(&bundle.metadata)).unwrap();
    let contents = vec![Some(b"abc".to_vec()), None, Some(b"{\"host\":\"api.deepseek.com\"}".to_vec())];
    let v = assess_bundle("d".to_string(), &bundle.metadata, &sums, &contents, None);
    assert!(!v.files_ok);
    assert!(v.checksums_ok);
    assert_eq!(v.summary, "bundle is incomplete or missing files");
}

#[test]
fn file_missing_from_manifest_fails_checksums() {
    let bundle = sample_bundle();
    let sums = parse_sha256sums(&format!("{SHA_ABC}  report.md\n")).unwrap();
    let contents = vec![Some(b"abc".to_vec()), Some(Vec::new()), Some(b"{\"host\":\"api.deepseek.com\"}".to_vec())];
    let v = assess_bundle("d".to_string(), &bundle.metadata, &sums, &contents, None);
    assert!(v.files_ok);
    assert!(!v.checksums_ok);
}

#[test]
fn summaries_cover_every_outcome() {
    assert_eq!(summary_text(true, true, Some(true)), "bundle, checksums, and entry signature all verify");
    assert_eq!(summary_text(true, true, None), "bundle and checksums verify; entry signature not checked");
    assert_eq!(summary_text(true, false, Some(true)), "bundle files exist but checksums mismatch");
    assert_eq!(summary_text(false, true, None), "bundle is incomplete or missing files");
    assert_eq!(summary_text(true, true, Some(false)), "bundle verification failed");
}

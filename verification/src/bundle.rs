//! Publish-ready certification bundles.
//!
//! A bundle is one directory holding `report.md`, `badge.svg`, `entry.json`,
//! a machine-readable `bundle.json` and a `SHA256SUMS` manifest. The library
//! computes the metadata and the manifest from the files' contents; the
//! application writes them to disk.
use vstd::prelude::*;
use vstd::string::StringSliceAdditionalSpecFns;

use sha2::{Digest, Sha256};

use crate::seq_util::{concat_map, lemma_concat_map_take, lemma_take_full};

verus! {

/// One file of a bundle: its name inside the bundle directory, the lower-case
/// hex SHA-256 of its contents, and its size in bytes.
pub struct BundleFile {
    pub path: String,
    pub sha256: String,
    pub bytes: u64,
}

/// The machine-readable description of a bundle (`bundle.json`).
pub struct BundleMetadata {
    pub schema_version: String,
    pub generated_at: String,
    pub host: String,
    pub upstream: String,
    pub grade: String,
    pub score: u32,
    pub files: Vec<BundleFile>,
}

/// A bundle ready to be written out.
pub struct PublishBundle {
    pub metadata: BundleMetadata,
}

/// The lower-case hex digit for a value below 16.
pub open spec fn hex_digit(n: u8) -> char {
    if n < 10 {
        (n + 48) as char
    } else {
        (n + 87) as char
    }
}

/// Each byte as two lower-case hex digits, high nibble first.
pub open spec fn hex_text(bytes: Seq<u8>) -> Seq<char> {
    concat_map(bytes, |b: u8| seq![hex_digit(b / 16), hex_digit(b % 16)])
}

/// A lower-case hex digit.
pub open spec fn is_hex_char(c: char) -> bool {
    ('0' <= c && c <= '9') || ('a' <= c && c <= 'f')
}

/// The text of a SHA-256 digest: 64 lower-case hex digits.
pub open spec fn hex_digest_form(s: Seq<char>) -> bool {
    s.len() == 64 && forall|i: int| 0 <= i < s.len() ==> is_hex_char(#[trigger] s[i])
}

/// Hex text holds two digits per byte, each a lower-case hex digit.
pub proof fn lemma_hex_text(bytes: Seq<u8>)
    ensures
        hex_text(bytes).len() == 2 * bytes.len(),
        forall|i: int| 0 <= i < hex_text(bytes).len() ==> is_hex_char(#[trigger] hex_text(bytes)[i]),
    decreases bytes.len(),
{
    let f = |b: u8| seq![hex_digit(b / 16), hex_digit(b % 16)];
    if bytes.len() > 0 {
        lemma_hex_text(bytes.drop_last());
        let b = bytes.last();
        assert(b / 16 < 16 && b % 16 < 16);
        let prev = hex_text(bytes.drop_last());
        assert(hex_text(bytes) == prev + f(b));
        assert forall|i: int| 0 <= i < hex_text(bytes).len() implies is_hex_char(#[trigger] hex_text(bytes)[i]) by {
            if i < prev.len() {
                assert(hex_text(bytes)[i] == prev[i]);
            } else {
                assert(hex_text(bytes)[i] == f(b)[i - prev.len()]);
            }
        }
    }
}

/// Calls `hex::encode`, which writes each byte of `data` as two lower-case
/// hex digits (table `0123456789abcdef`), high nibble first.
#[verifier::external_body]
fn hex_encode(data: &[u8]) -> (s: String)
    ensures
        s@ == hex_text(data@),
{
    hex::encode(data)
}

/// The SHA-256 digest of a byte string.
pub uninterp spec fn sha256_digest(data: Seq<u8>) -> Seq<u8>;

/// Calls `Sha256::digest` (sha2) on `data`; its output type holds 32 bytes.
#[verifier::external_body]
fn sha256(data: &[u8]) -> (d: Vec<u8>)
    ensures
        d@ == sha256_digest(data@),
        d@.len() == 32,
{
    Sha256::digest(data).to_vec()
}

/// The hex SHA-256 of `contents`, as the manifest records it.
pub open spec fn digest_hex(contents: Seq<u8>) -> Seq<char> {
    hex_text(sha256_digest(contents))
}

/// The bundle entry for a file named `label` whose contents hash to `digest`
/// and hold `len` bytes.
pub fn entry_for_digest(label: &str, digest: &[u8], len: u64) -> (f: BundleFile)
    ensures
        f.path@ == label@,
        f.sha256@ == hex_text(digest@),
        f.bytes == len,
        digest@.len() == 32 ==> hex_digest_form(f.sha256@),
{
    proof {
        lemma_hex_text(digest@);
    }
    BundleFile { path: label.to_owned(), sha256: hex_encode(digest), bytes: len }
}

/// The bundle entry for a file named `label` with the given contents.
pub fn file_entry(label: &str, contents: &[u8]) -> (f: BundleFile)
    ensures
        f.path@ == label@,
        f.sha256@ == digest_hex(contents@),
        hex_digest_form(f.sha256@),
        f.bytes == contents@.len(),
{
    let d = sha256(contents);
    let len = contents.len() as u64;
    entry_for_digest(label, d.as_slice(), len)
}

/// One manifest line: digest, two spaces, file name, newline.
pub open spec fn checksum_line(f: BundleFile) -> Seq<char> {
    f.sha256@ + "  "@ + f.path@ + "\n"@
}

/// The `SHA256SUMS` manifest of `files`, one line per file, in order.
pub open spec fn spec_render_checksums(files: Seq<BundleFile>) -> Seq<char> {
    concat_map(files, |f: BundleFile| checksum_line(f))
}

/// Render the `SHA256SUMS` manifest of a bundle.
pub fn render_checksums(metadata: &BundleMetadata) -> (out: String)
    ensures
        out@ == spec_render_checksums(metadata.files@),
{
    let ghost fs = metadata.files@;
    let ghost f = |f: BundleFile| checksum_line(f);
    let mut out = String::new();
    let mut i: usize = 0;
    while i < metadata.files.len()
        invariant
            i <= fs.len(),
            fs == metadata.files@,
            f == (|f: BundleFile| checksum_line(f)),
            out@ == concat_map(fs.take(i as int), f),
        decreases fs.len() - i,
    {
        let file = &metadata.files[i];
        proof {
            reveal_strlit("  ");
            reveal_strlit("\n");
            lemma_concat_map_take(fs, f, i as int);
        }
        out.append(file.sha256.as_str());
        out.append("  ");
        out.append(file.path.as_str());
        out.append("\n");
        i += 1;
    }
    proof {
        lemma_take_full(fs);
    }
    out
}

impl PublishBundle {
    /// Assemble the bundle for a certified provider: schema version `1`, and
    /// the entries of `report.md`, `badge.svg` and `entry.json`, in that
    /// order, hashed from the texts that will be written.
    pub fn assemble(
        generated_at: String,
        host: String,
        upstream: String,
        grade: String,
        score: u32,
        report_md: &str,
        badge_svg: &str,
        entry_json: &str,
    ) -> (b: PublishBundle)
        ensures
            b.metadata.schema_version@ == "1"@,
            b.metadata.generated_at@ == generated_at@,
            b.metadata.host@ == host@,
            b.metadata.upstream@ == upstream@,
            b.metadata.grade@ == grade@,
            b.metadata.score == score,
            b.metadata.files@.len() == 3,
            b.metadata.files@[0].path@ == "report.md"@,
            b.metadata.files@[0].sha256@ == digest_hex(report_md.spec_bytes()),
            b.metadata.files@[0].bytes == report_md.spec_bytes().len(),
            b.metadata.files@[1].path@ == "badge.svg"@,
            b.metadata.files@[1].sha256@ == digest_hex(badge_svg.spec_bytes()),
            b.metadata.files@[1].bytes == badge_svg.spec_bytes().len(),
            b.metadata.files@[2].path@ == "entry.json"@,
            b.metadata.files@[2].sha256@ == digest_hex(entry_json.spec_bytes()),
            b.metadata.files@[2].bytes == entry_json.spec_bytes().len(),
            forall|i: int| 0 <= i < 3 ==> hex_digest_form(#[trigger] b.metadata.files@[i].sha256@),
    {
        let mut files: Vec<BundleFile> = Vec::new();
        files.push(file_entry("report.md", report_md.as_bytes()));
        files.push(file_entry("badge.svg", badge_svg.as_bytes()));
        files.push(file_entry("entry.json", entry_json.as_bytes()));
        PublishBundle {
            metadata: BundleMetadata {
                schema_version: "1".to_owned(),
                generated_at,
                host,
                upstream,
                grade,
                score,
                files,
            },
        }
    }
}

} // verus!

//! Verification of publish-ready bundles.
//!
//! A bundle that can be emitted must also be checkable before it is trusted
//! or published: every listed file present, its digest equal to the one in
//! `bundle.json` and to the one in `SHA256SUMS`. The application reads the
//! files; the library parses the manifest and decides.
use vstd::prelude::*;

use crate::bundle::{
    checksum_line, digest_hex, hex_digest_form, is_hex_char, spec_render_checksums, BundleFile, BundleMetadata,
};
use crate::seq_util::{concat_map, lemma_concat_map_push, lemma_take_full};
use crate::text::{chars_of, is_white_space, lemma_words_two, single_word, strs, words, words_in};

verus! {

/// The outcome of checking a bundle directory.
pub struct ArtifactVerification {
    pub path: String,
    pub files_ok: bool,
    pub checksums_ok: bool,
    pub entry_signature_ok: Option<bool>,
    pub summary: String,
}

/// Why a `SHA256SUMS` manifest was refused.
#[derive(Debug, Clone, Copy, PartialEq, Eq, Structural)]
pub enum ChecksumsError {
    /// A line holds a checksum but no file name.
    MissingPath,
}

/// The pieces of `s` between the separators `sep` (one more than there are
/// separators; what `str::split` yields).
pub open spec fn pieces(s: Seq<char>, sep: char) -> Seq<Seq<char>>
    decreases s.len(),
{
    if s.len() == 0 {
        seq![Seq::empty()]
    } else {
        let p = pieces(s.drop_last(), sep);
        if s.last() == sep {
            p.push(Seq::empty())
        } else {
            p.update(p.len() - 1, p.last().push(s.last()))
        }
    }
}

/// `pieces` never yields an empty list.
pub proof fn lemma_pieces_nonempty(s: Seq<char>, sep: char)
    ensures
        pieces(s, sep).len() >= 1,
    decreases s.len(),
{
    if s.len() > 0 {
        lemma_pieces_nonempty(s.drop_last(), sep);
    }
}

/// The `(file, checksum)` entry of one manifest line: its second and first
/// words, when it has at least two.
pub open spec fn sum_entry(line: Seq<char>) -> Seq<(Seq<char>, Seq<char>)> {
    let w = words(line);
    if w.len() >= 2 {
        seq![(w[1], w[0])]
    } else {
        Seq::empty()
    }
}

/// A line with a single word: a checksum without a file name.
pub open spec fn lone_word(line: Seq<char>) -> bool {
    words(line).len() == 1
}

/// The parse of a `SHA256SUMS` text: refused if a line holds a single word;
/// otherwise the `(file, checksum)` entries of its lines, in order. Blank
/// lines are skipped, words past the second ignored.
pub open spec fn spec_parse_sums(raw: Seq<char>) -> Result<Seq<(Seq<char>, Seq<char>)>, ChecksumsError> {
    let ls = pieces(raw, '\n');
    if exists|i: int| 0 <= i < ls.len() && lone_word(#[trigger] ls[i]) {
        Err(ChecksumsError::MissingPath)
    } else {
        Ok(concat_map(ls, |l: Seq<char>| sum_entry(l)))
    }
}

/// Entries as character sequences.
pub open spec fn pairs(v: Seq<(String, String)>) -> Seq<(Seq<char>, Seq<char>)> {
    v.map_values(|p: (String, String)| (p.0@, p.1@))
}

/// Add the entry of the line `cs[from..to]` to `out`, and note in `lone`
/// whether it holds a single word.
fn take_line(cs: &Vec<char>, from: usize, to: usize, out: &mut Vec<(String, String)>, lone: &mut bool)
    requires
        from <= to <= cs.len(),
    ensures
        pairs(final(out)@) == pairs(old(out)@) + sum_entry(cs@.subrange(from as int, to as int)),
        *final(lone) == (*old(lone) || lone_word(cs@.subrange(from as int, to as int))),
{
    let w = words_in(cs, from, to);
    let ghost line = cs@.subrange(from as int, to as int);
    if w.len() == 1 {
        *lone = true;
        assert(pairs(out@) + sum_entry(line) =~= pairs(out@));
    } else if w.len() >= 2 {
        let entry = (w[1].clone(), w[0].clone());
        proof {
            assert(strs(w@)[1] == w@[1]@);
            assert(strs(w@)[0] == w@[0]@);
            assert(pairs(out@.push(entry)) =~= pairs(out@) + sum_entry(line));
        }
        out.push(entry);
    } else {
        assert(pairs(out@) + sum_entry(line) =~= pairs(out@));
    }
}

/// Parse a `SHA256SUMS` manifest into its `(file, checksum)` entries.
pub fn parse_sha256sums(raw: &str) -> (r: Result<Vec<(String, String)>, ChecksumsError>)
    ensures
        match r {
            Ok(v) => spec_parse_sums(raw@) == Ok::<_, ChecksumsError>(pairs(v@)),
            Err(e) => spec_parse_sums(raw@) == Err::<Seq<(Seq<char>, Seq<char>)>, _>(e),
        },
{
    let cs = chars_of(raw);
    let ghost f = |l: Seq<char>| sum_entry(l);
    let ghost mut done: Seq<Seq<char>> = Seq::empty();
    let mut out: Vec<(String, String)> = Vec::new();
    let mut lone = false;
    let mut start: usize = 0;
    let mut i: usize = 0;
    proof {
        assert(cs@.take(0) =~= Seq::<char>::empty());
        assert(pieces(cs@.take(0), '\n') =~= done.push(cs@.subrange(0, 0)));
        assert(pairs(out@) =~= concat_map(done, f));
    }
    while i < cs.len()
        invariant
            start <= i <= cs@.len(),
            pieces(cs@.take(i as int), '\n') == done.push(cs@.subrange(start as int, i as int)),
            f == (|l: Seq<char>| sum_entry(l)),
            pairs(out@) == concat_map(done, f),
            lone == exists|k: int| 0 <= k < done.len() && lone_word(#[trigger] done[k]),
        decreases cs@.len() - i,
    {
        let t1 = Ghost(cs@.take(i + 1));
        assert(t1@.drop_last() =~= cs@.take(i as int));
        if cs[i] == '\n' {
            let ghost line = cs@.subrange(start as int, i as int);
            take_line(&cs, start, i, &mut out, &mut lone);
            proof {
                lemma_concat_map_push(done, line, f);
                let d2 = done.push(line);
                assert(lone == exists|k: int| 0 <= k < d2.len() && lone_word(#[trigger] d2[k])) by {
                    if lone_word(line) {
                        assert(d2[done.len() as int] == line);
                    }
                    assert forall|k: int| 0 <= k < done.len() implies d2[k] == done[k] by {}
                }
                assert(cs@.subrange(i + 1, i + 1) =~= Seq::<char>::empty());
                done = d2;
            }
            start = i + 1;
        } else {
            proof {
                lemma_pieces_nonempty(cs@.take(i as int), '\n');
                assert(cs@.subrange(start as int, i + 1) =~= cs@.subrange(start as int, i as int).push(cs@[i as int]));
                assert(done.push(cs@.subrange(start as int, i as int)).update(done.len() as int,
                    cs@.subrange(start as int, i + 1)) =~= done.push(cs@.subrange(start as int, i + 1)));
            }
        }
        i += 1;
    }
    let ghost line = cs@.subrange(start as int, i as int);
    take_line(&cs, start, i, &mut out, &mut lone);
    proof {
        lemma_take_full(cs@);
        lemma_concat_map_push(done, line, f);
        let d2 = done.push(line);
        assert(lone == exists|k: int| 0 <= k < d2.len() && lone_word(#[trigger] d2[k])) by {
            if lone_word(line) {
                assert(d2[done.len() as int] == line);
            }
            assert forall|k: int| 0 <= k < done.len() implies d2[k] == done[k] by {}
        }
        done = d2;
    }
    if lone {
        Err(ChecksumsError::MissingPath)
    } else {
        Ok(out)
    }
}

/// The checksum the manifest gives for `path`: that of its last entry for
/// the path (a later line overrides an earlier one).
pub open spec fn spec_sum_for(es: Seq<(Seq<char>, Seq<char>)>, path: Seq<char>) -> Option<Seq<char>>
    decreases es.len(),
{
    if es.len() == 0 {
        None
    } else if es.last().0 == path {
        Some(es.last().1)
    } else {
        spec_sum_for(es.drop_last(), path)
    }
}

/// Look up the checksum the manifest gives for `path`.
pub fn sum_for(sums: &Vec<(String, String)>, path: &str) -> (r: Option<String>)
    ensures
        match r {
            Some(v) => spec_sum_for(pairs(sums@), path@) == Some(v@),
            None => spec_sum_for(pairs(sums@), path@) is None,
        },
{
    let p = path.to_owned();
    let mut i = sums.len();
    assert(pairs(sums@).take(sums@.len() as int) =~= pairs(sums@));
    while i > 0
        invariant
            i <= sums@.len(),
            p@ == path@,
            spec_sum_for(pairs(sums@), path@) == spec_sum_for(pairs(sums@).take(i as int), path@),
        decreases i,
    {
        let ghost t = pairs(sums@).take(i as int);
        assert(t.drop_last() =~= pairs(sums@).take(i - 1));
        assert(pairs(sums@)[i - 1] == (sums@[i - 1].0@, sums@[i - 1].1@));
        assert(t.last() == pairs(sums@)[i - 1]);
        if sums[i - 1].0 == p {
            return Some(sums[i - 1].1.clone());
        }
        i -= 1;
    }
    None
}

/// Every listed file was found.
pub open spec fn spec_files_ok(got: Seq<Option<Seq<char>>>) -> bool {
    forall|i: int| 0 <= i < got.len() ==> (#[trigger] got[i]) is Some
}

/// Every file found has the digest that `bundle.json` lists and that the
/// manifest gives for its name.
pub open spec fn spec_checksums_ok(
    files: Seq<BundleFile>,
    got: Seq<Option<Seq<char>>>,
    sums: Seq<(Seq<char>, Seq<char>)>,
) -> bool {
    forall|i: int|
        0 <= i < got.len() ==> match #[trigger] got[i] {
            Some(g) => files[i].sha256@ == g && spec_sum_for(sums, files[i].path@) == Some(g),
            None => true,
        }
}

/// Hex digests as character sequences.
pub open spec fn opt_strs(v: Seq<Option<String>>) -> Seq<Option<Seq<char>>> {
    v.map_values(|o: Option<String>| match o {
        Some(s) => Some(s@),
        None => None,
    })
}

/// Judge a bundle from the hex digests of its files as found on disk
/// (`None` for a missing file): `(files_ok, checksums_ok)`.
pub fn judge_files(files: &Vec<BundleFile>, got: &Vec<Option<String>>, sums: &Vec<(String, String)>) -> (r: (bool, bool))
    requires
        got@.len() == files@.len(),
    ensures
        r.0 == spec_files_ok(opt_strs(got@)),
        r.1 == spec_checksums_ok(files@, opt_strs(got@), pairs(sums@)),
{
    let ghost g = opt_strs(got@);
    let mut files_ok = true;
    let mut checksums_ok = true;
    let mut i: usize = 0;
    while i < got.len()
        invariant
            i <= got@.len(),
            got@.len() == files@.len(),
            g == opt_strs(got@),
            files_ok == spec_files_ok(g.take(i as int)),
            checksums_ok == spec_checksums_ok(files@, g.take(i as int), pairs(sums@)),
        decreases got@.len() - i,
    {
        let ghost gi = g.take(i + 1);
        assert(gi[i as int] == g[i as int]);
        assert forall|k: int| 0 <= k < i implies gi[k] == g.take(i as int)[k] by {}
        match &got[i] {
            None => {
                files_ok = false;
            },
            Some(h) => {
                let digest_ok = *h == files[i].sha256;
                let listed = sum_for(sums, files[i].path.as_str());
                let sum_ok = match &listed {
                    Some(v) => *v == *h,
                    None => false,
                };
                if !digest_ok || !sum_ok {
                    checksums_ok = false;
                }
            },
        }
        i += 1;
    }
    assert(g.take(got@.len() as int) =~= g);
    (files_ok, checksums_ok)
}

/// The hex digests of the files' contents as found on disk.
pub open spec fn found_digests(contents: Seq<Option<Vec<u8>>>) -> Seq<Option<Seq<char>>> {
    contents.map_values(|o: Option<Vec<u8>>| match o {
        Some(b) => Some(digest_hex(b@)),
        None => None,
    })
}

/// Hash the contents of the files found on disk and judge the bundle.
pub fn check_files(
    files: &Vec<BundleFile>,
    contents: &Vec<Option<Vec<u8>>>,
    sums: &Vec<(String, String)>,
) -> (r: (bool, bool))
    requires
        contents@.len() == files@.len(),
    ensures
        r.0 == spec_files_ok(found_digests(contents@)),
        r.1 == spec_checksums_ok(files@, found_digests(contents@), pairs(sums@)),
{
    let mut got: Vec<Option<String>> = Vec::new();
    let mut i: usize = 0;
    while i < contents.len()
        invariant
            i <= contents@.len(),
            got@.len() == i,
            opt_strs(got@) == found_digests(contents@).take(i as int),
        decreases contents@.len() - i,
    {
        let ghost want = found_digests(contents@)[i as int];
        let h = match &contents[i] {
            Some(b) => {
                let e = crate::bundle::file_entry("", b.as_slice());
                assert(want == Some(digest_hex(b@)));
                Some(e.sha256)
            },
            None => None,
        };
        proof {
            let g2 = got@.push(h);
            assert(g2[i as int] == h);
            assert(opt_strs(g2)[i as int] == match h { Some(x) => Some(x@), None => None::<Seq<char>> });
            assert(opt_strs(got@.push(h))[i as int] == want);
            assert(opt_strs(got@.push(h)) =~= found_digests(contents@).take(i + 1));
        }
        got.push(h);
        i += 1;
    }
    assert(found_digests(contents@).take(contents@.len() as int) =~= found_digests(contents@));
    judge_files(files, &got, sums)
}

/// The one-line summary of a bundle check.
pub open spec fn spec_summary(files_ok: bool, checksums_ok: bool, signature_ok: Option<bool>) -> Seq<char> {
    if files_ok && checksums_ok && signature_ok == Some(true) {
        "bundle, checksums, and entry signature all verify"@
    } else if files_ok && checksums_ok && signature_ok is None {
        "bundle and checksums verify; entry signature not checked"@
    } else if files_ok && !checksums_ok {
        "bundle files exist but checksums mismatch"@
    } else if !files_ok {
        "bundle is incomplete or missing files"@
    } else {
        "bundle verification failed"@
    }
}

/// Summarise a bundle check in one line.
pub fn summary_text(files_ok: bool, checksums_ok: bool, signature_ok: Option<bool>) -> (s: String)
    ensures
        s@ == spec_summary(files_ok, checksums_ok, signature_ok),
{
    match (files_ok, checksums_ok, signature_ok) {
        (true, true, Some(true)) => "bundle, checksums, and entry signature all verify".to_owned(),
        (true, true, None) => "bundle and checksums verify; entry signature not checked".to_owned(),
        (true, false, _) => "bundle files exist but checksums mismatch".to_owned(),
        (false, _, _) => "bundle is incomplete or missing files".to_owned(),
        _ => "bundle verification failed".to_owned(),
    }
}

/// Check the bundle at `path` from its metadata, its parsed manifest, the
/// contents of its listed files as found on disk (`None` where a file is
/// missing) and the outcome of the entry signature check, if one was made.
pub fn assess_bundle(
    path: String,
    bundle: &BundleMetadata,
    sums: &Vec<(String, String)>,
    contents: &Vec<Option<Vec<u8>>>,
    entry_signature_ok: Option<bool>,
) -> (v: ArtifactVerification)
    requires
        contents@.len() == bundle.files@.len(),
    ensures
        v.path@ == path@,
        v.files_ok == spec_files_ok(found_digests(contents@)),
        v.checksums_ok == spec_checksums_ok(bundle.files@, found_digests(contents@), pairs(sums@)),
        v.entry_signature_ok == entry_signature_ok,
        v.summary@ == spec_summary(v.files_ok, v.checksums_ok, entry_signature_ok),
{
    let (files_ok, checksums_ok) = check_files(&bundle.files, contents, sums);
    let summary = summary_text(files_ok, checksums_ok, entry_signature_ok);
    ArtifactVerification { path, files_ok, checksums_ok, entry_signature_ok, summary }
}

/// Appending text without separators extends the last piece.
proof fn lemma_pieces_extend(t: Seq<char>, x: Seq<char>, sep: char)
    requires
        forall|i: int| 0 <= i < x.len() ==> #[trigger] x[i] != sep,
    ensures
        pieces(t + x, sep) == pieces(t, sep).update(pieces(t, sep).len() - 1, pieces(t, sep).last() + x),
    decreases x.len(),
{
    lemma_pieces_nonempty(t, sep);
    if x.len() == 0 {
        assert(t + x =~= t);
        assert(pieces(t, sep).last() + x =~= pieces(t, sep).last());
        assert(pieces(t, sep).update(pieces(t, sep).len() - 1, pieces(t, sep).last()) =~= pieces(t, sep));
    } else {
        let x1 = x.drop_last();
        assert(forall|i: int| 0 <= i < x1.len() ==> x1[i] == x[i]);
        lemma_pieces_extend(t, x1, sep);
        assert((t + x).drop_last() =~= t + x1);
        assert((t + x).last() == x.last());
        let p = pieces(t, sep);
        assert((p.last() + x1).push(x.last()) =~= p.last() + x);
        let q = p.update(p.len() - 1, p.last() + x1);
        assert(q.len() == p.len());
        assert(q.last() == p.last() + x1);
        assert(q.update(q.len() - 1, q.last().push(x.last())) =~= p.update(p.len() - 1, p.last() + x));
    }
}

/// A manifest line without its newline.
pub open spec fn checksum_body(f: BundleFile) -> Seq<char> {
    f.sha256@ + "  "@ + f.path@
}

/// A file whose digest and name are single words, as in every bundle this
/// library assembles.
pub open spec fn plain_entry(f: BundleFile) -> bool {
    single_word(f.sha256@) && single_word(f.path@)
}

/// A manifest line of a plain entry holds no newline before its end.
proof fn lemma_body_no_newline(f: BundleFile)
    requires
        plain_entry(f),
    ensures
        forall|i: int| 0 <= i < checksum_body(f).len() ==> #[trigger] checksum_body(f)[i] != '\n',
{
    reveal_strlit("  ");
    let body = checksum_body(f);
    assert forall|i: int| 0 <= i < body.len() implies #[trigger] body[i] != '\n' by {
        if i < f.sha256@.len() {
            assert(body[i] == f.sha256@[i]);
        } else if i < f.sha256@.len() + 2 {
            assert(body[i] == ' ');
        } else {
            assert(body[i] == f.path@[i - f.sha256@.len() - 2]);
        }
    }
}

/// The lines of a rendered manifest are its files' lines, then an empty
/// piece after the last newline.
proof fn lemma_rendered_pieces(files: Seq<BundleFile>)
    requires
        forall|i: int| 0 <= i < files.len() ==> plain_entry(#[trigger] files[i]),
    ensures
        pieces(spec_render_checksums(files), '\n') == files.map_values(|f: BundleFile| checksum_body(f)).push(
            Seq::empty(),
        ),
    decreases files.len(),
{
    reveal_strlit("  ");
    reveal_strlit("\n");
    let g = |f: BundleFile| checksum_line(f);
    if files.len() == 0 {
        assert(spec_render_checksums(files) =~= Seq::<char>::empty());
        assert(files.map_values(|f: BundleFile| checksum_body(f)) =~= Seq::<Seq<char>>::empty());
    } else {
        let fs = files.drop_last();
        let f = files.last();
        assert(forall|i: int| 0 <= i < fs.len() ==> fs[i] == files[i]);
        lemma_rendered_pieces(fs);
        let r = spec_render_checksums(fs);
        let body = checksum_body(f);
        assert(spec_render_checksums(files) == concat_map(fs, g) + g(f));
        assert(g(f) =~= body.push('\n'));
        assert(r + body.push('\n') =~= (r + body).push('\n'));
        lemma_body_no_newline(f);
        lemma_pieces_extend(r, body, '\n');
        assert(((r + body).push('\n')).drop_last() =~= r + body);
        let bs = fs.map_values(|f: BundleFile| checksum_body(f));
        assert(bs.push(Seq::<char>::empty()).update(bs.len() as int, Seq::<char>::empty() + body) =~= bs.push(body));
        assert(files.map_values(|f: BundleFile| checksum_body(f)) =~= bs.push(body));
    }
}

/// Reading back a rendered manifest gives each file's name and digest, in
/// order, whenever every digest and name is a single word.
pub proof fn law_checksums_round_trip(files: Seq<BundleFile>)
    requires
        forall|i: int| 0 <= i < files.len() ==> plain_entry(#[trigger] files[i]),
    ensures
        spec_parse_sums(spec_render_checksums(files)) == Ok::<_, ChecksumsError>(
            files.map_values(|f: BundleFile| (f.path@, f.sha256@)),
        ),
{
    reveal_strlit("  ");
    lemma_rendered_pieces(files);
    let ls = pieces(spec_render_checksums(files), '\n');
    let bs = files.map_values(|f: BundleFile| checksum_body(f));
    let sp = "  "@;
    assert(forall|i: int| 0 <= i < sp.len() ==> is_white_space(#[trigger] sp[i]));
    assert forall|i: int| 0 <= i < bs.len() implies words(#[trigger] bs[i]) == seq![files[i].sha256@, files[i].path@] by {
        assert(plain_entry(files[i]));
        lemma_words_two(files[i].sha256@, sp, files[i].path@);
    }
    assert(words(Seq::<char>::empty()) =~= Seq::<Seq<char>>::empty());
    assert forall|i: int| 0 <= i < ls.len() implies !lone_word(#[trigger] ls[i]) by {
        if i < bs.len() {
            assert(ls[i] == bs[i]);
        } else {
            assert(ls[i] =~= Seq::<char>::empty());
        }
    }
    let f = |l: Seq<char>| sum_entry(l);
    lemma_concat_map_push(bs, Seq::<char>::empty(), f);
    assert(f(Seq::<char>::empty()) =~= Seq::<(Seq<char>, Seq<char>)>::empty());
    lemma_entries_of_bodies(files);
    assert(concat_map(bs, f) + f(Seq::<char>::empty()) =~= concat_map(bs, f));
}

/// The entries of the files' manifest lines.
proof fn lemma_entries_of_bodies(files: Seq<BundleFile>)
    requires
        forall|i: int| 0 <= i < files.len() ==> plain_entry(#[trigger] files[i]),
    ensures
        concat_map(files.map_values(|f: BundleFile| checksum_body(f)), |l: Seq<char>| sum_entry(l))
            == files.map_values(|f: BundleFile| (f.path@, f.sha256@)),
    decreases files.len(),
{
    reveal_strlit("  ");
    if files.len() == 0 {
        assert(files.map_values(|f: BundleFile| checksum_body(f)) =~= Seq::<Seq<char>>::empty());
        assert(files.map_values(|f: BundleFile| (f.path@, f.sha256@)) =~= Seq::<(Seq<char>, Seq<char>)>::empty());
    } else {
        let fs = files.drop_last();
        let fl = files.last();
        assert(forall|i: int| 0 <= i < fs.len() ==> fs[i] == files[i]);
        lemma_entries_of_bodies(fs);
        let bs = files.map_values(|f: BundleFile| checksum_body(f));
        assert(bs.drop_last() =~= fs.map_values(|f: BundleFile| checksum_body(f)));
        let sp = "  "@;
        assert(forall|i: int| 0 <= i < sp.len() ==> is_white_space(#[trigger] sp[i]));
        assert(plain_entry(fl));
        lemma_words_two(fl.sha256@, sp, fl.path@);
        assert(bs.last() == checksum_body(fl));
        assert(files.map_values(|f: BundleFile| (f.path@, f.sha256@)) =~= fs.map_values(
            |f: BundleFile| (f.path@, f.sha256@),
        ).push((fl.path@, fl.sha256@)));
    }
}

/// With one entry for a name, the manifest gives that entry's checksum.
proof fn lemma_sum_for_unique(es: Seq<(Seq<char>, Seq<char>)>, i: int)
    requires
        0 <= i < es.len(),
        forall|j: int| 0 <= j < es.len() && j != i ==> (#[trigger] es[j]).0 != es[i].0,
    ensures
        spec_sum_for(es, es[i].0) == Some(es[i].1),
    decreases es.len(),
{
    if i < es.len() - 1 {
        let e1 = es.drop_last();
        assert(es.last() == es[es.len() - 1]);
        assert forall|j: int| 0 <= j < e1.len() && j != i implies (#[trigger] e1[j]).0 != e1[i].0 by {
            assert(e1[j] == es[j]);
        }
        lemma_sum_for_unique(e1, i);
    }
}

/// A bundle whose files are all present and unchanged passes both checks
/// against its own rendered manifest, when its file names are distinct and
/// every digest and name is a single word.
pub proof fn law_untampered_bundle_verifies(files: Seq<BundleFile>, contents: Seq<Option<Vec<u8>>>)
    requires
        contents.len() == files.len(),
        forall|i: int| 0 <= i < files.len() ==> plain_entry(#[trigger] files[i]),
        forall|i: int|
            0 <= i < files.len() ==> ((#[trigger] contents[i]) matches Some(b) && files[i].sha256@ == digest_hex(b@)),
        forall|i: int, j: int|
            0 <= i < files.len() && 0 <= j < files.len() && i != j ==> (#[trigger] files[i]).path@
                != (#[trigger] files[j]).path@,
    ensures
        spec_parse_sums(spec_render_checksums(files)) is Ok,
        spec_files_ok(found_digests(contents)),
        spec_checksums_ok(files, found_digests(contents), spec_parse_sums(spec_render_checksums(files))->Ok_0),
{
    law_checksums_round_trip(files);
    let es = files.map_values(|f: BundleFile| (f.path@, f.sha256@));
    let got = found_digests(contents);
    assert forall|i: int| 0 <= i < got.len() implies (#[trigger] got[i]) is Some by {
        assert(contents[i] is Some);
    }
    assert forall|i: int| 0 <= i < got.len() implies match #[trigger] got[i] {
        Some(g) => files[i].sha256@ == g && spec_sum_for(es, files[i].path@) == Some(g),
        None => true,
    } by {
        assert(contents[i] is Some);
        assert forall|j: int| 0 <= j < es.len() && j != i implies (#[trigger] es[j]).0 != es[i].0 by {
            assert(files[j].path@ != files[i].path@);
        }
        lemma_sum_for_unique(es, i);
    }
}

/// A present file whose contents no longer hash to the digest listed for
/// it fails the checksum check, whatever the manifest says.
pub proof fn law_tampered_file_is_caught(
    files: Seq<BundleFile>,
    contents: Seq<Option<Vec<u8>>>,
    sums: Seq<(Seq<char>, Seq<char>)>,
    i: int,
)
    requires
        contents.len() == files.len(),
        0 <= i < files.len(),
        contents[i] matches Some(b) && digest_hex(b@) != files[i].sha256@,
    ensures
        !spec_checksums_ok(files, found_digests(contents), sums),
{
    let got = found_digests(contents);
    assert(got[i] == Some(digest_hex(contents[i]->0@)));
}

/// A missing file fails the presence check.
pub proof fn law_missing_file_is_caught(contents: Seq<Option<Vec<u8>>>, i: int)
    requires
        0 <= i < contents.len(),
        contents[i] is None,
    ensures
        !spec_files_ok(found_digests(contents)),
{
    assert(found_digests(contents)[i] is None);
}

/// The summary claims a full verification exactly when the files are all
/// present, their checksums match and the entry signature was checked and
/// holds; it claims a verification without the signature exactly when no
/// signature was checked and the rest holds.
pub proof fn law_summary_is_honest(files_ok: bool, checksums_ok: bool, signature_ok: Option<bool>)
    ensures
        (spec_summary(files_ok, checksums_ok, signature_ok) == "bundle, checksums, and entry signature all verify"@)
            <==> (files_ok && checksums_ok && signature_ok == Some(true)),
        (spec_summary(files_ok, checksums_ok, signature_ok) == "bundle and checksums verify; entry signature not checked"@)
            <==> (files_ok && checksums_ok && signature_ok is None),
{
    reveal_strlit("bundle, checksums, and entry signature all verify");
    reveal_strlit("bundle and checksums verify; entry signature not checked");
    reveal_strlit("bundle files exist but checksums mismatch");
    reveal_strlit("bundle is incomplete or missing files");
    reveal_strlit("bundle verification failed");
    assert("bundle, checksums, and entry signature all verify"@.len() == 49);
    assert("bundle and checksums verify; entry signature not checked"@.len() == 56);
    assert("bundle files exist but checksums mismatch"@.len() == 41);
    assert("bundle is incomplete or missing files"@.len() == 37);
    assert("bundle verification failed"@.len() == 26);
}

/// A file name of the bundle layout is a single word.
proof fn lemma_layout_names()
    ensures
        single_word("report.md"@),
        single_word("badge.svg"@),
        single_word("entry.json"@),
        "report.md"@ != "badge.svg"@,
        "report.md"@ != "entry.json"@,
        "badge.svg"@ != "entry.json"@,
{
    reveal_strlit("report.md");
    reveal_strlit("badge.svg");
    reveal_strlit("entry.json");
    assert("report.md"@[0] != "badge.svg"@[0]);
    assert("report.md"@.len() != "entry.json"@.len());
    assert("badge.svg"@.len() != "entry.json"@.len());
}

/// A digest in hex form is a single word.
proof fn lemma_hex_digest_is_word(s: Seq<char>)
    requires
        hex_digest_form(s),
    ensures
        single_word(s),
{
    assert forall|i: int| 0 <= i < s.len() implies !is_white_space(#[trigger] s[i]) by {
        assert(is_hex_char(s[i]));
    }
}

/// A bundle laid out as `PublishBundle::assemble` lays it out (`report.md`,
/// `badge.svg`, `entry.json`, each with the 64-digit hex digest of its
/// contents) whose files are all still present and unchanged passes both
/// checks against its own rendered manifest.
pub proof fn law_written_bundle_verifies(files: Seq<BundleFile>, contents: Seq<Option<Vec<u8>>>)
    requires
        files.len() == 3,
        contents.len() == 3,
        files[0].path@ == "report.md"@,
        files[1].path@ == "badge.svg"@,
        files[2].path@ == "entry.json"@,
        forall|i: int| 0 <= i < 3 ==> hex_digest_form(#[trigger] files[i].sha256@),
        forall|i: int|
            0 <= i < 3 ==> ((#[trigger] contents[i]) matches Some(b) && files[i].sha256@ == digest_hex(b@)),
    ensures
        spec_parse_sums(spec_render_checksums(files)) is Ok,
        spec_files_ok(found_digests(contents)),
        spec_checksums_ok(files, found_digests(contents), spec_parse_sums(spec_render_checksums(files))->Ok_0),
{
    lemma_layout_names();
    assert forall|i: int| 0 <= i < files.len() implies plain_entry(#[trigger] files[i]) by {
        lemma_hex_digest_is_word(files[i].sha256@);
    }
    assert forall|i: int, j: int|
        0 <= i < files.len() && 0 <= j < files.len() && i != j implies (#[trigger] files[i]).path@
            != (#[trigger] files[j]).path@ by {}
    law_untampered_bundle_verifies(files, contents);
}

/// The manifest's last entry for a path is the one `spec_sum_for` takes;
/// a path without an entry has none.
proof fn lemma_sum_for_last(es: Seq<(Seq<char>, Seq<char>)>, path: Seq<char>)
    ensures
        (forall|j: int| 0 <= j < es.len() ==> (#[trigger] es[j]).0 != path) ==> spec_sum_for(es, path) is None,
        forall|j: int|
            0 <= j < es.len() && (#[trigger] es[j]).0 == path && (forall|q: int| j < q < es.len() ==> (#[trigger] es[q]).0 != path)
                ==> spec_sum_for(es, path) == Some(es[j].1),
    decreases es.len(),
{
    if es.len() > 0 {
        let e0 = es.drop_last();
        lemma_sum_for_last(e0, path);
        assert forall|j: int| 0 <= j < e0.len() implies #[trigger] e0[j] == es[j] by {}
        assert(es.last() == es[es.len() - 1]);
        assert forall|j: int|
            0 <= j < es.len() && (#[trigger] es[j]).0 == path && (forall|q: int| j < q < es.len() ==> (#[trigger] es[q]).0 != path)
                implies spec_sum_for(es, path) == Some(es[j].1) by {
            if j < es.len() - 1 {
                assert(es[es.len() - 1].0 != path);
                assert(e0[j] == es[j]);
                assert forall|q: int| j < q < e0.len() implies (#[trigger] e0[q]).0 != path by {
                    assert(e0[q] == es[q]);
                }
            }
        }
    }
}

/// A listed file that is present fails the checksum check when the manifest
/// gives no checksum for its name, or when the checksum of the manifest's
/// last line for its name is not the hex SHA-256 of its contents.
pub proof fn law_manifest_mismatch_is_caught(
    files: Seq<BundleFile>,
    contents: Seq<Option<Vec<u8>>>,
    sums: Seq<(Seq<char>, Seq<char>)>,
    i: int,
)
    requires
        contents.len() == files.len(),
        0 <= i < files.len(),
        contents[i] is Some,
        (forall|j: int| 0 <= j < sums.len() ==> (#[trigger] sums[j]).0 != files[i].path@) || exists|j: int|
            0 <= j < sums.len() && (#[trigger] sums[j]).0 == files[i].path@ && sums[j].1 != digest_hex(contents[i]->0@)
                && (forall|q: int| j < q < sums.len() ==> (#[trigger] sums[q]).0 != files[i].path@),
    ensures
        !spec_checksums_ok(files, found_digests(contents), sums),
{
    lemma_sum_for_last(sums, files[i].path@);
    let got = found_digests(contents);
    assert(got[i] == Some(digest_hex(contents[i]->0@)));
}

} // verus!

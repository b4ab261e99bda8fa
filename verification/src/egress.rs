//! Egress control — outbound content inspection.
//!
//! Catches exfiltration that bypasses the blocklist by going to "unknown"
//! endpoints. Three signals:
//!
//!   1. Per-domain allowlist with wildcard support. A POST to a domain not
//!      in the allowlist is blocked (or routed to Ask).
//!   2. Shannon entropy of the outbound content; high entropy suggests key
//!      material or encrypted blobs. The entropy itself is a floating-point
//!      measure computed by the caller, which hands in whether it reached
//!      the threshold.
//!   3. Sensitive-path sniff: a body that mentions `~/.ssh/id_rsa`, `.env`
//!      style paths or secret environment variables is exfiltration
//!      wherever it goes.
//!
//! Combined with the known-bad blocklist this gives a deny-unknown /
//! allow-known / block-known-bad triple.
use vstd::prelude::*;
use vstd::utf8::{decode_utf8, valid_utf8};

use crate::seq_util::{concat_map, lemma_concat_map_contains, lemma_concat_map_take};
use crate::text::{
    chars_of, contains_chars, distinct, ends_with_chars, has_prefix, has_sub, has_suffix, lowercase, starts_with_chars,
    string_of_range, strs, to_lower,
};

verus! {

#[derive(Debug, Clone, Copy, PartialEq, Eq, Structural)]
pub enum EgressDecision {
    Allow,
    Ask,
    Block,
}

impl EgressDecision {
    /// Lower-case name of the decision.
    pub fn label(&self) -> (s: &'static str)
        ensures
            s@ == match *self {
                EgressDecision::Allow => "allow"@,
                EgressDecision::Ask => "ask"@,
                EgressDecision::Block => "block"@,
            },
    {
        match self {
            EgressDecision::Allow => "allow",
            EgressDecision::Ask => "ask",
            EgressDecision::Block => "block",
        }
    }

    /// True only for `Block`.
    pub fn is_blocking(&self) -> (b: bool)
        ensures
            b == (*self == EgressDecision::Block),
    {
        matches!(self, EgressDecision::Block)
    }
}

/// The built-in allowlist of 35 entries: LLM providers, package
/// registries, source control (GitHub content hosts such as
/// `raw.githubusercontent.com` through `*.githubusercontent.com`),
/// documentation and localhost.
pub open spec fn spec_default_allowlist() -> Seq<Seq<char>> {
    seq![
        "api.anthropic.com"@, "api.openai.com"@, "api.deepseek.com"@, "generativelanguage.googleapis.com"@,
        "api.groq.com"@, "api.mistral.ai"@, "api.cohere.ai"@, "api.together.xyz"@, "api.fireworks.ai"@,
        "api.perplexity.ai"@, "oapi.tencent.com"@,
        "registry.npmjs.org"@, "pypi.org"@, "crates.io"@, "static.crates.io"@, "registry.yarnpkg.com"@,
        "rubygems.org"@, "go.dev"@, "sum.golang.org"@, "repo1.maven.org"@, "plugins.gradle.org"@,
        "github.com"@, "codeload.github.com"@, "gitlab.com"@, "bitbucket.org"@,
        "*.githubusercontent.com"@, "*.github.io"@,
        "developer.mozilla.org"@, "docs.rs"@, "rust-lang.org"@, "stackoverflow.com"@, "duckduckgo.com"@,
        "localhost"@, "127.0.0.1"@, "::1"@,
    ]
}

/// The built-in allowlist.
pub fn default_allowlist() -> (v: Vec<String>)
    ensures
        strs(v@) == spec_default_allowlist(),
{
    let v: Vec<String> = vec![
        "api.anthropic.com".to_owned(), "api.openai.com".to_owned(), "api.deepseek.com".to_owned(),
        "generativelanguage.googleapis.com".to_owned(), "api.groq.com".to_owned(), "api.mistral.ai".to_owned(),
        "api.cohere.ai".to_owned(), "api.together.xyz".to_owned(), "api.fireworks.ai".to_owned(),
        "api.perplexity.ai".to_owned(), "oapi.tencent.com".to_owned(),
        "registry.npmjs.org".to_owned(), "pypi.org".to_owned(), "crates.io".to_owned(), "static.crates.io".to_owned(),
        "registry.yarnpkg.com".to_owned(), "rubygems.org".to_owned(), "go.dev".to_owned(), "sum.golang.org".to_owned(),
        "repo1.maven.org".to_owned(), "plugins.gradle.org".to_owned(),
        "github.com".to_owned(), "codeload.github.com".to_owned(),
        "gitlab.com".to_owned(), "bitbucket.org".to_owned(), "*.githubusercontent.com".to_owned(), "*.github.io".to_owned(),
        "developer.mozilla.org".to_owned(), "docs.rs".to_owned(), "rust-lang.org".to_owned(),
        "stackoverflow.com".to_owned(), "duckduckgo.com".to_owned(),
        "localhost".to_owned(), "127.0.0.1".to_owned(), "::1".to_owned(),
    ];
    assert(strs(v@) =~= spec_default_allowlist());
    v
}

/// A character that ends the host part of a URL.
pub open spec fn is_host_end(c: char) -> bool {
    c == '/' || c == '?' || c == '#' || c == ':'
}

/// Position of the first host-ending character of `r` at or after `k`, or
/// the length of `r` if there is none.
pub open spec fn host_end_from(r: Seq<char>, k: int) -> int
    decreases r.len() - k,
{
    if k < 0 || k >= r.len() {
        r.len() as int
    } else if is_host_end(r[k]) {
        k
    } else {
        host_end_from(r, k + 1)
    }
}

/// The host of a URL: lowercased, after an `https://` or `http://` scheme,
/// up to the first `/`, `?`, `#` or `:`. None without such a scheme or
/// with an empty host.
pub open spec fn spec_extract_host(url: Seq<char>) -> Option<Seq<char>> {
    host_in(lowercase(url))
}

/// The host of an already lowercased URL.
pub open spec fn host_in(u: Seq<char>) -> Option<Seq<char>> {
    let rest = if has_prefix(u, "https://"@) {
        Some(u.skip(8))
    } else if has_prefix(u, "http://"@) {
        Some(u.skip(7))
    } else {
        None
    };
    match rest {
        None => None,
        Some(r) => {
            let e = host_end_from(r, 0);
            if e == 0 { None } else { Some(r.take(e)) }
        },
    }
}

/// Extract the host part of a URL. Returns None if not parseable as a URL
/// (no scheme, no host).
pub fn extract_host(url: &str) -> (r: Option<String>)
    ensures
        r matches Some(h) ==> spec_extract_host(url@) == Some(h@),
        r is None ==> spec_extract_host(url@) is None,
{
    host_of_lowered(to_lower(url).as_str())
}

/// The host of an already lowercased URL.
pub fn host_of_lowered(url: &str) -> (r: Option<String>)
    ensures
        r matches Some(h) ==> host_in(url@) == Some(h@),
        r is None ==> host_in(url@) is None,
{
    let u = chars_of(url);
    let https = chars_of("https://");
    let http = chars_of("http://");
    proof {
        reveal_strlit("https://");
        reveal_strlit("http://");
    }
    let start: usize = if starts_with_chars(&u, &https) {
        8
    } else if starts_with_chars(&u, &http) {
        7
    } else {
        return None;
    };
    assert(start <= u@.len());
    let ghost r = u@.skip(start as int);
    let mut k = start;
    while k < u.len() && !(u[k] == '/' || u[k] == '?' || u[k] == '#' || u[k] == ':')
        invariant
            start <= k <= u@.len(),
            r == u@.skip(start as int),
            host_end_from(r, 0) == host_end_from(r, k - start),
        decreases u.len() - k,
    {
        assert(r.len() == u@.len() - start);
        assert(r[k - start] == u@[k as int]);
        k += 1;
    }
    if k == start {
        return None;
    }
    let h = string_of_range(&u, start, k);
    assert(h@ =~= r.take(k - start));
    Some(h)
}

/// File paths whose mention in an outbound body is exfiltration.
pub open spec fn sensitive_patterns() -> Seq<Seq<char>> {
    seq![
        ".ssh/id_rsa"@, ".ssh/id_ed25519"@, ".ssh/id_ecdsa"@, ".aws/credentials"@, ".aws/config"@,
        ".kube/config"@, ".docker/config.json"@, ".config/gcloud/credentials"@,
        ".config/gcloud/application_default"@, ".terraform.d/credentials"@, ".netrc"@, ".pypirc"@,
        ".npmrc"@, ".env"@, ".gnupg/secring.gpg"@, ".gnupg/private-keys"@, ".config/solana/id.json"@,
        ".ethereum/keystore"@, ".electrum/wallets"@, "wallet.dat"@, ".bitmonero"@,
        "Local Storage/leveldb"@, "Login Data"@, "Cookies"@, "logins.json"@, "key4.db"@, ".opvault"@,
        "/var/run/secrets/kubernetes.io/serviceaccount/token"@,
    ]
}

/// Secret environment variables and bearer tokens, matched case-insensitively.
pub open spec fn secret_keywords() -> Seq<Seq<char>> {
    seq![
        "$token"@, "$api_key"@, "$api_secret"@, "$openai_api_key"@, "$anthropic_api_key"@,
        "$aws_secret_access_key"@, "$github_token"@, "$database_password"@, "$stripe_secret"@, "bearer eyj"@,
    ]
}

fn pattern_list() -> (v: Vec<&'static str>)
    ensures
        v@.map_values(|p: &str| p@) == sensitive_patterns(),
{
    let v: Vec<&'static str> = vec![
        ".ssh/id_rsa", ".ssh/id_ed25519", ".ssh/id_ecdsa", ".aws/credentials", ".aws/config",
        ".kube/config", ".docker/config.json", ".config/gcloud/credentials",
        ".config/gcloud/application_default", ".terraform.d/credentials", ".netrc", ".pypirc",
        ".npmrc", ".env", ".gnupg/secring.gpg", ".gnupg/private-keys", ".config/solana/id.json",
        ".ethereum/keystore", ".electrum/wallets", "wallet.dat", ".bitmonero",
        "Local Storage/leveldb", "Login Data", "Cookies", "logins.json", "key4.db", ".opvault",
        "/var/run/secrets/kubernetes.io/serviceaccount/token",
    ];
    assert(v@.map_values(|p: &str| p@) =~= sensitive_patterns());
    v
}

fn keyword_list() -> (v: Vec<&'static str>)
    ensures
        v@.map_values(|p: &str| p@) == secret_keywords(),
{
    let v: Vec<&'static str> = vec![
        "$token", "$api_key", "$api_secret", "$openai_api_key", "$anthropic_api_key",
        "$aws_secret_access_key", "$github_token", "$database_password", "$stripe_secret", "bearer eyj",
    ];
    assert(v@.map_values(|p: &str| p@) =~= secret_keywords());
    v
}

/// The needles of `needles` that occur in `hay`, in order.
pub open spec fn found_in(hay: Seq<char>, needles: Seq<Seq<char>>) -> Seq<Seq<char>> {
    concat_map(needles, found_fn(hay))
}

/// `[n]` when `n` occurs in `hay`.
pub open spec fn found_fn(hay: Seq<char>) -> spec_fn(Seq<char>) -> Seq<Seq<char>> {
    |n: Seq<char>| if has_sub(hay, n) { seq![n] } else { Seq::empty() }
}

/// What `scan_sensitive_paths` reports for a body given as text: the
/// sensitive paths it mentions (case-sensitively), then the secret
/// keywords its lowercase form mentions.
pub open spec fn sensitive_in_text(text: Seq<char>) -> Seq<Seq<char>> {
    mentions(text, lowercase(text))
}

/// The sensitive paths that `text` mentions, then the secret keywords
/// that its lowercase form `lower` mentions.
pub open spec fn mentions(text: Seq<char>, lower: Seq<char>) -> Seq<Seq<char>> {
    found_in(text, sensitive_patterns()) + found_in(lower, secret_keywords())
}

/// What `scan_sensitive_paths` reports: nothing for a body that is not
/// UTF-8, else what its text mentions.
pub open spec fn spec_scan_sensitive_paths(body: Seq<u8>) -> Seq<Seq<char>> {
    if valid_utf8(body) { sensitive_in_text(decode_utf8(body)) } else { Seq::empty() }
}

/// Calls `std::str::from_utf8`: the text of a valid UTF-8 byte sequence.
#[verifier::external_body]
fn utf8_text(b: &[u8]) -> (r: Option<&str>)
    ensures
        r is Some <==> valid_utf8(b@),
        r matches Some(s) ==> s@ == decode_utf8(b@),
{
    std::str::from_utf8(b).ok()
}

/// The needles that occur in `hay`, as strings.
fn find_all(hay: &Vec<char>, needles: &Vec<&'static str>, out: &mut Vec<String>)
    ensures
        strs(final(out)@) == strs(old(out)@) + found_in(hay@, needles@.map_values(|p: &str| p@)),
{
    let ghost ns = needles@.map_values(|p: &str| p@);
    let ghost f = found_fn(hay@);
    let ghost start = strs(out@);
    let mut i: usize = 0;
    while i < needles.len()
        invariant
            0 <= i <= needles@.len(),
            ns == needles@.map_values(|p: &str| p@),
            f == found_fn(hay@),
            strs(out@) == start + concat_map(ns.take(i as int), f),
        decreases needles.len() - i,
    {
        let n = chars_of(needles[i]);
        proof {
            lemma_concat_map_take(ns, f, i as int);
            assert(ns[i as int] == n@);
        }
        if contains_chars(hay, &n) {
            let found = needles[i].to_owned();
            proof {
                assert(strs(out@.push(found)) =~= strs(out@).push(found@));
                assert(start + (concat_map(ns.take(i as int), f) + seq![n@]) =~= (start + concat_map(ns.take(i as int), f)).push(n@));
            }
            out.push(found);
        } else {
            assert(concat_map(ns.take(i as int), f) + Seq::<Seq<char>>::empty() =~= concat_map(ns.take(i as int), f));
        }
        i += 1;
    }
    assert(ns.take(needles@.len() as int) =~= ns);
}

/// Scan an outbound body for sensitive file paths and secret tokens that
/// shouldn't be exfiltrated.
pub fn scan_sensitive_paths(body: &[u8]) -> (r: Vec<String>)
    ensures
        strs(r@) == spec_scan_sensitive_paths(body@),
{
    let text = match utf8_text(body) {
        Some(t) => t,
        None => {
            let r: Vec<String> = Vec::new();
            assert(strs(r@) =~= Seq::<Seq<char>>::empty());
            return r;
        },
    };
    let lower = to_lower(text);
    sensitive_mentions(text, lower.as_str())
}

/// The sensitive paths that `text` mentions (case-sensitively), then the
/// secret keywords that `lower`, its lowercase form, mentions.
pub fn sensitive_mentions(text: &str, lower: &str) -> (r: Vec<String>)
    ensures
        strs(r@) == mentions(text@, lower@),
{
    let mut found: Vec<String> = Vec::new();
    let cs = chars_of(text);
    let patterns = pattern_list();
    assert(strs(found@) =~= Seq::<Seq<char>>::empty());
    find_all(&cs, &patterns, &mut found);
    let lc = chars_of(lower);
    let keywords = keyword_list();
    find_all(&lc, &keywords, &mut found);
    assert(strs(found@) =~= mentions(text@, lower@));
    found
}

/// Destination rules and the entropy gate of an egress policy. The entropy
/// threshold itself is a floating-point value held by the caller.
pub struct EgressPolicy {
    /// Domains in the allowlist. Supports leading `*.` for wildcard.
    allowlist: Vec<String>,
    /// Known-bad domains, each once.
    blocklist: Vec<String>,
    /// If true, POST to any non-allowlisted domain is blocked.
    /// If false, unknown is routed to Ask.
    block_unknown_destinations: bool,
    /// Minimum content size to bother with an entropy scan (short strings
    /// naturally have high variance).
    entropy_min_bytes: usize,
}

/// The rules of an egress policy, as plain values.
pub struct PolicyView {
    pub allowlist: Seq<Seq<char>>,
    pub blocklist: Seq<Seq<char>>,
    pub block_unknown_destinations: bool,
    pub entropy_min_bytes: usize,
}

impl View for EgressPolicy {
    type V = PolicyView;

    closed spec fn view(&self) -> PolicyView {
        PolicyView {
            allowlist: strs(self.allowlist@),
            blocklist: strs(self.blocklist@),
            block_unknown_destinations: self.block_unknown_destinations,
            entropy_min_bytes: self.entropy_min_bytes,
        }
    }
}

/// `host` (lowercased) is a blocklisted domain or a subdomain of one.
pub open spec fn spec_is_blocklisted(blocklist: Seq<Seq<char>>, host: Seq<char>) -> bool {
    let h = lowercase(host);
    ||| blocklist.contains(h)
    ||| exists|i: int| 0 <= i < blocklist.len() && has_suffix(h, "."@ + lowercase(#[trigger] blocklist[i]))
}

/// Allowlist `entry` allows the lowercased host `h`: a `*.suffix` entry
/// allows `suffix` and its subdomains, any other entry only itself
/// (case-insensitively).
pub open spec fn allow_entry_matches(entry: Seq<char>, h: Seq<char>) -> bool {
    entry_allows(lowercase(entry), h)
}

/// The lowercased allowlist entry `e` allows the lowercased host `h`.
pub open spec fn entry_allows(e: Seq<char>, h: Seq<char>) -> bool {
    if has_prefix(e, "*."@) {
        h == e.skip(2) || has_suffix(h, "."@ + e.skip(2))
    } else {
        h == e
    }
}

/// Some allowlist entry allows `host`.
pub open spec fn spec_is_allowlisted(allowlist: Seq<Seq<char>>, host: Seq<char>) -> bool {
    exists|i: int| 0 <= i < allowlist.len() && allow_entry_matches(#[trigger] allowlist[i], lowercase(host))
}

/// The outcome of evaluating an outbound request, without the entropy
/// measure itself.
pub struct EgressAssessment {
    pub decision: EgressDecision,
    /// Destination host (or "unknown" if the URL couldn't be parsed).
    pub destination_host: String,
    /// True if destination was in the allowlist.
    pub allowlisted: bool,
    /// True if destination was in the known-bad blocklist.
    pub blocklisted: bool,
    /// The caller's entropy verdict, as handed in.
    pub high_entropy: bool,
    /// Sensitive paths detected in the content.
    pub sensitive_paths: Vec<String>,
    /// Reasons about the destination, in order.
    pub destination_reasons: Vec<String>,
    /// One reason per sensitive path, in order.
    pub path_reasons: Vec<String>,
}

/// The destination host reported for `url`.
pub open spec fn spec_destination(url: Seq<char>) -> Seq<char> {
    match spec_extract_host(url) {
        Some(h) => h,
        None => "unknown"@,
    }
}

/// Block on a blocklisted destination, a sensitive path in the body, high
/// entropy to a non-allowlisted destination, or any non-allowlisted
/// destination in block-unknown mode; else ask on a non-allowlisted
/// destination or high entropy; else allow.
pub open spec fn spec_decision(blocklisted: bool, allowlisted: bool, high_entropy: bool, has_sensitive: bool, block_unknown: bool) -> EgressDecision {
    if blocklisted || has_sensitive || (high_entropy && !allowlisted) || (!allowlisted && block_unknown) {
        EgressDecision::Block
    } else if !allowlisted || high_entropy {
        EgressDecision::Ask
    } else {
        EgressDecision::Allow
    }
}

/// The destination reasons: the blocklist hit, then the allowlist miss
/// (worded for block-unknown mode when it applies; not reported for a
/// blocklisted destination).
pub open spec fn spec_destination_reasons(p: PolicyView, host: Seq<char>) -> Seq<Seq<char>> {
    let bl = spec_is_blocklisted(p.blocklist, host);
    let al = spec_is_allowlisted(p.allowlist, host);
    (if bl { seq!["destination in known-bad blocklist: "@ + host] } else { Seq::empty() })
        + (if !al && !bl {
            if p.block_unknown_destinations {
                seq!["destination not in allowlist (block-unknown mode): "@ + host]
            } else {
                seq!["destination not in allowlist: "@ + host]
            }
        } else {
            Seq::empty()
        })
}

/// One reason per sensitive path.
pub open spec fn spec_path_reasons(paths: Seq<Seq<char>>) -> Seq<Seq<char>> {
    paths.map_values(|q: Seq<char>| "sensitive path in outbound body: "@ + q)
}

/// `prefix` followed by `s`.
fn prefixed(prefix: &str, s: &str) -> (r: String)
    ensures
        r@ == prefix@ + s@,
{
    let mut r = prefix.to_owned();
    r.append(s);
    r
}

/// Is `v` (lowercased) equal to one of `items` as they are?
fn contains_exact(items: &Vec<String>, v: &Vec<char>) -> (b: bool)
    ensures
        b == strs(items@).contains(v@),
{
    let mut i: usize = 0;
    while i < items.len()
        invariant
            0 <= i <= items@.len(),
            forall|k: int| 0 <= k < i ==> strs(items@)[k] != v@,
        decreases items.len() - i,
    {
        let e = chars_of(items[i].as_str());
        if e.len() == v.len() && crate::text::matches_at(v, &e, 0) {
            proof {
                assert(v@.subrange(0, e@.len() as int) =~= v@);
                assert(strs(items@)[i as int] == v@);
            }
            return true;
        }
        proof {
            if strs(items@)[i as int] == v@ {
                assert(v@.subrange(0, e@.len() as int) =~= v@);
            }
        }
        i += 1;
    }
    false
}

/// `'.'` followed by `cs`.
fn dotted(cs: &Vec<char>) -> (r: Vec<char>)
    ensures
        r@ == "."@ + cs@,
{
    proof {
        reveal_strlit(".");
    }
    let mut r: Vec<char> = Vec::new();
    r.push('.');
    let mut i: usize = 0;
    while i < cs.len()
        invariant
            0 <= i <= cs@.len(),
            r@ == seq!['.'] + cs@.take(i as int),
        decreases cs.len() - i,
    {
        r.push(cs[i]);
        assert(cs@.take(i + 1) =~= cs@.take(i as int).push(cs@[i as int]));
        assert(r@ =~= seq!['.'] + cs@.take(i + 1));
        i += 1;
    }
    assert(cs@.take(cs@.len() as int) =~= cs@);
    r
}

/// Characters `cs[from..]`.
fn chars_from(cs: &Vec<char>, from: usize) -> (r: Vec<char>)
    requires
        from <= cs.len(),
    ensures
        r@ == cs@.skip(from as int),
{
    let mut r: Vec<char> = Vec::new();
    let mut i = from;
    while i < cs.len()
        invariant
            from <= i <= cs@.len(),
            r@ == cs@.subrange(from as int, i as int),
        decreases cs.len() - i,
    {
        r.push(cs[i]);
        assert(cs@.subrange(from as int, i + 1) =~= cs@.subrange(from as int, i as int).push(cs@[i as int]));
        i += 1;
    }
    r
}

fn same_chars(a: &Vec<char>, b: &Vec<char>) -> (r: bool)
    ensures
        r == (a@ == b@),
{
    if a.len() != b.len() {
        return false;
    }
    let r = crate::text::matches_at(a, b, 0);
    assert(a@.subrange(0, b@.len() as int) =~= a@);
    r
}

/// Is the lowercased host `h` a subdomain of the lowercased `domain`
/// (does it end with `.domain`)?
pub fn under_domain(h: &str, domain: &str) -> (b: bool)
    ensures
        b == has_suffix(h@, "."@ + domain@),
{
    let hc = chars_of(h);
    let d = dotted(&chars_of(domain));
    ends_with_chars(&hc, &d)
}

/// Does the lowercased allowlist entry `e` allow the lowercased host `h`?
/// A `*.suffix` entry allows `suffix` and its subdomains, any other entry
/// only itself.
pub fn allows_host(e: &str, h: &str) -> (b: bool)
    ensures
        b == entry_allows(e@, h@),
{
    proof {
        reveal_strlit("*.");
    }
    let ec = chars_of(e);
    let hc = chars_of(h);
    let wild = chars_of("*.");
    if starts_with_chars(&ec, &wild) {
        let suffix = chars_from(&ec, 2);
        let d = dotted(&suffix);
        same_chars(&hc, &suffix) || ends_with_chars(&hc, &d)
    } else {
        same_chars(&hc, &ec)
    }
}

impl Default for EgressPolicy {
    fn default() -> (p: Self)
        ensures
            p@.allowlist == spec_default_allowlist(),
            p@.blocklist.len() == 0,
            !p@.block_unknown_destinations,
            p@.entropy_min_bytes == 64,
    {
        Self::new()
    }
}

impl EgressPolicy {
    /// Every known-bad domain is listed once, as in a set.
    #[verifier::type_invariant]
    pub closed spec fn blocklist_once(self) -> bool {
        distinct(strs(self.blocklist@))
    }

    /// The default policy: built-in allowlist, empty blocklist, unknown
    /// destinations routed to Ask, entropy checked from 64 bytes on.
    pub fn new() -> (p: Self)
        ensures
            p@.allowlist == spec_default_allowlist(),
            p@.blocklist.len() == 0,
            !p@.block_unknown_destinations,
            p@.entropy_min_bytes == 64,
    {
        let p = EgressPolicy {
            allowlist: default_allowlist(),
            blocklist: Vec::new(),
            block_unknown_destinations: false,
            entropy_min_bytes: 64,
        };
        assert(strs(p.blocklist@) =~= Seq::<Seq<char>>::empty());
        p
    }

    /// Replace the known-bad domains, a set: each listed once.
    pub fn with_blocklist(self, blocklist: Vec<String>) -> (p: Self)
        requires
            distinct(strs(blocklist@)),
        ensures
            p@ == (PolicyView { blocklist: strs(blocklist@), ..self@ }),
            distinct(p@.blocklist),
    {
        let mut p = self;
        p.blocklist = blocklist;
        p
    }

    /// Replace the allowlist.
    pub fn with_allowlist(self, allowlist: Vec<String>) -> (p: Self)
        ensures
            p@ == (PolicyView { allowlist: strs(allowlist@), ..self@ }),
    {
        proof {
            use_type_invariant(&self);
        }
        let mut p = self;
        p.allowlist = allowlist;
        p
    }

    /// Block (instead of ask about) destinations outside the allowlist.
    pub fn block_unknown_destinations(self, v: bool) -> (p: Self)
        ensures
            p@ == (PolicyView { block_unknown_destinations: v, ..self@ }),
    {
        proof {
            use_type_invariant(&self);
        }
        let mut p = self;
        p.block_unknown_destinations = v;
        p
    }

    /// Is a body of `len` bytes long enough for the entropy scan?
    pub fn entropy_applies(&self, len: usize) -> (b: bool)
        ensures
            b == (len >= self@.entropy_min_bytes),
    {
        len >= self.entropy_min_bytes
    }

    fn is_blocklisted(&self, host: &String) -> (b: bool)
        ensures
            b == spec_is_blocklisted(self@.blocklist, host@),
    {
        let h = to_lower(host.as_str());
        let hc = chars_of(h.as_str());
        if contains_exact(&self.blocklist, &hc) {
            return true;
        }
        let mut i: usize = 0;
        while i < self.blocklist.len()
            invariant
                0 <= i <= self.blocklist@.len(),
                h@ == lowercase(host@),
                forall|k: int| 0 <= k < i ==> !has_suffix(h@, "."@ + lowercase(#[trigger] strs(self.blocklist@)[k])),
            decreases self.blocklist.len() - i,
        {
            let bad = to_lower(self.blocklist[i].as_str());
            if under_domain(h.as_str(), bad.as_str()) {
                assert(has_suffix(h@, "."@ + lowercase(strs(self.blocklist@)[i as int])));
                return true;
            }
            i += 1;
        }
        false
    }

    fn is_allowlisted(&self, host: &String) -> (b: bool)
        ensures
            b == spec_is_allowlisted(self@.allowlist, host@),
    {
        let h = to_lower(host.as_str());
        let mut i: usize = 0;
        while i < self.allowlist.len()
            invariant
                0 <= i <= self.allowlist@.len(),
                h@ == lowercase(host@),
                forall|k: int| 0 <= k < i ==> !allow_entry_matches(#[trigger] strs(self.allowlist@)[k], h@),
            decreases self.allowlist.len() - i,
        {
            let e = to_lower(self.allowlist[i].as_str());
            if allows_host(e.as_str(), h.as_str()) {
                assert(allow_entry_matches(strs(self.allowlist@)[i as int], h@));
                return true;
            }
            i += 1;
        }
        false
    }

    /// Evaluate an outbound POST/PUT to `url` carrying `body`.
    /// `high_entropy` is the caller's verdict on the body's Shannon entropy
    /// (false when the body is too short for the scan).
    pub fn evaluate(&self, url: &str, body: &[u8], high_entropy: bool) -> (r: EgressAssessment)
        ensures
            r.destination_host@ == spec_destination(url@),
            r.blocklisted == spec_is_blocklisted(self@.blocklist, r.destination_host@),
            r.allowlisted == spec_is_allowlisted(self@.allowlist, r.destination_host@),
            r.high_entropy == high_entropy,
            strs(r.sensitive_paths@) == spec_scan_sensitive_paths(body@),
            r.decision == spec_decision(r.blocklisted, r.allowlisted, high_entropy,
                spec_scan_sensitive_paths(body@).len() > 0, self@.block_unknown_destinations),
            strs(r.destination_reasons@) == spec_destination_reasons(self@, r.destination_host@),
            strs(r.path_reasons@) == spec_path_reasons(spec_scan_sensitive_paths(body@)),
    {
        let dest_host = match extract_host(url) {
            Some(h) => h,
            None => "unknown".to_owned(),
        };
        let blocklisted = self.is_blocklisted(&dest_host);
        let allowlisted = self.is_allowlisted(&dest_host);
        let mut destination_reasons: Vec<String> = Vec::new();
        if blocklisted {
            destination_reasons.push(prefixed("destination in known-bad blocklist: ", dest_host.as_str()));
        }
        if !allowlisted && !blocklisted {
            if self.block_unknown_destinations {
                destination_reasons.push(prefixed("destination not in allowlist (block-unknown mode): ", dest_host.as_str()));
            } else {
                destination_reasons.push(prefixed("destination not in allowlist: ", dest_host.as_str()));
            }
        }
        assert(strs(destination_reasons@) =~= spec_destination_reasons(self@, dest_host@));
        let sensitive_paths = scan_sensitive_paths(body);
        let mut path_reasons: Vec<String> = Vec::new();
        let mut i: usize = 0;
        while i < sensitive_paths.len()
            invariant
                0 <= i <= sensitive_paths@.len(),
                strs(path_reasons@) == spec_path_reasons(strs(sensitive_paths@).take(i as int)),
            decreases sensitive_paths.len() - i,
        {
            let reason = prefixed("sensitive path in outbound body: ", sensitive_paths[i].as_str());
            proof {
                let ps = strs(sensitive_paths@);
                assert(ps.take(i + 1) =~= ps.take(i as int).push(sensitive_paths@[i as int]@));
                assert(spec_path_reasons(ps.take(i as int).push(sensitive_paths@[i as int]@))
                    =~= spec_path_reasons(ps.take(i as int)).push(reason@));
                assert(strs(path_reasons@.push(reason)) =~= strs(path_reasons@).push(reason@));
            }
            path_reasons.push(reason);
            i += 1;
        }
        assert(strs(sensitive_paths@).take(sensitive_paths@.len() as int) =~= strs(sensitive_paths@));
        let block = blocklisted || sensitive_paths.len() > 0 || (high_entropy && !allowlisted)
            || (!allowlisted && self.block_unknown_destinations);
        let ask = !allowlisted || high_entropy;
        let decision = if block {
            EgressDecision::Block
        } else if ask {
            EgressDecision::Ask
        } else {
            EgressDecision::Allow
        };
        EgressAssessment {
            decision,
            destination_host: dest_host,
            allowlisted,
            blocklisted,
            high_entropy,
            sensitive_paths,
            destination_reasons,
            path_reasons,
        }
    }
}

// ----- laws ----------------------------------------------------------------

/// A blocklisted destination is always blocked.
pub proof fn law_blocklisted_is_blocked(allowlisted: bool, high_entropy: bool, has_sensitive: bool, block_unknown: bool)
    ensures
        spec_decision(true, allowlisted, high_entropy, has_sensitive, block_unknown) == EgressDecision::Block,
{
}

/// A body that mentions a sensitive path or secret is blocked wherever it
/// goes.
pub proof fn law_sensitive_body_is_blocked(blocklisted: bool, allowlisted: bool, high_entropy: bool, block_unknown: bool)
    ensures
        spec_decision(blocklisted, allowlisted, high_entropy, true, block_unknown) == EgressDecision::Block,
{
}

/// A destination outside the allowlist is never allowed: it is blocked in
/// block-unknown mode and at least asked about otherwise.
pub proof fn law_unknown_destination_is_not_allowed(blocklisted: bool, high_entropy: bool, has_sensitive: bool, block_unknown: bool)
    ensures
        spec_decision(blocklisted, false, high_entropy, has_sensitive, block_unknown) != EgressDecision::Allow,
        block_unknown ==> spec_decision(blocklisted, false, high_entropy, has_sensitive, block_unknown) == EgressDecision::Block,
{
}

/// High-entropy content is never allowed, and is blocked when it goes to a
/// destination outside the allowlist.
pub proof fn law_high_entropy_is_not_allowed(blocklisted: bool, allowlisted: bool, has_sensitive: bool, block_unknown: bool)
    ensures
        spec_decision(blocklisted, allowlisted, true, has_sensitive, block_unknown) != EgressDecision::Allow,
        !allowlisted ==> spec_decision(blocklisted, allowlisted, true, has_sensitive, block_unknown) == EgressDecision::Block,
{
}

/// A clean body to an allowlisted, non-blocklisted destination is allowed.
pub proof fn law_clean_known_destination_is_allowed(block_unknown: bool)
    ensures
        spec_decision(false, true, false, false, block_unknown) == EgressDecision::Allow,
{
}

/// A UTF-8 body that mentions one of the sensitive file paths has it
/// reported, and the request carrying it is blocked whatever its
/// destination and entropy.
pub proof fn law_sensitive_path_is_reported(body: Seq<u8>, k: int, p: PolicyView, host: Seq<char>, high_entropy: bool)
    requires
        valid_utf8(body),
        0 <= k < 28,
        has_sub(decode_utf8(body), seq![
            ".ssh/id_rsa"@, ".ssh/id_ed25519"@, ".ssh/id_ecdsa"@, ".aws/credentials"@, ".aws/config"@,
            ".kube/config"@, ".docker/config.json"@, ".config/gcloud/credentials"@,
            ".config/gcloud/application_default"@, ".terraform.d/credentials"@, ".netrc"@, ".pypirc"@,
            ".npmrc"@, ".env"@, ".gnupg/secring.gpg"@, ".gnupg/private-keys"@, ".config/solana/id.json"@,
            ".ethereum/keystore"@, ".electrum/wallets"@, "wallet.dat"@, ".bitmonero"@,
            "Local Storage/leveldb"@, "Login Data"@, "Cookies"@, "logins.json"@, "key4.db"@, ".opvault"@,
            "/var/run/secrets/kubernetes.io/serviceaccount/token"@,
        ][k]),
    ensures
        spec_scan_sensitive_paths(body).contains(seq![
            ".ssh/id_rsa"@, ".ssh/id_ed25519"@, ".ssh/id_ecdsa"@, ".aws/credentials"@, ".aws/config"@,
            ".kube/config"@, ".docker/config.json"@, ".config/gcloud/credentials"@,
            ".config/gcloud/application_default"@, ".terraform.d/credentials"@, ".netrc"@, ".pypirc"@,
            ".npmrc"@, ".env"@, ".gnupg/secring.gpg"@, ".gnupg/private-keys"@, ".config/solana/id.json"@,
            ".ethereum/keystore"@, ".electrum/wallets"@, "wallet.dat"@, ".bitmonero"@,
            "Local Storage/leveldb"@, "Login Data"@, "Cookies"@, "logins.json"@, "key4.db"@, ".opvault"@,
            "/var/run/secrets/kubernetes.io/serviceaccount/token"@,
        ][k]),
        spec_decision(
            spec_is_blocklisted(p.blocklist, host),
            spec_is_allowlisted(p.allowlist, host),
            high_entropy,
            spec_scan_sensitive_paths(body).len() > 0,
            p.block_unknown_destinations,
        ) == EgressDecision::Block,
{
    let paths = seq![
        ".ssh/id_rsa"@, ".ssh/id_ed25519"@, ".ssh/id_ecdsa"@, ".aws/credentials"@, ".aws/config"@,
        ".kube/config"@, ".docker/config.json"@, ".config/gcloud/credentials"@,
        ".config/gcloud/application_default"@, ".terraform.d/credentials"@, ".netrc"@, ".pypirc"@,
        ".npmrc"@, ".env"@, ".gnupg/secring.gpg"@, ".gnupg/private-keys"@, ".config/solana/id.json"@,
        ".ethereum/keystore"@, ".electrum/wallets"@, "wallet.dat"@, ".bitmonero"@,
        "Local Storage/leveldb"@, "Login Data"@, "Cookies"@, "logins.json"@, "key4.db"@, ".opvault"@,
        "/var/run/secrets/kubernetes.io/serviceaccount/token"@,
    ];
    assert(sensitive_patterns() =~= paths);
    let text = decode_utf8(body);
    let f = found_fn(text);
    assert(f(paths[k])[0] == paths[k]);
    lemma_concat_map_contains(paths, f, k, 0);
    let a = found_in(text, sensitive_patterns());
    let b = found_in(lowercase(text), secret_keywords());
    let j = choose|j: int| 0 <= j < a.len() && a[j] == paths[k];
    assert(spec_scan_sensitive_paths(body) =~= a + b);
    assert((a + b)[j] == paths[k]);
}

} // verus!

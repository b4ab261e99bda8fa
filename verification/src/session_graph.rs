//! Session graph & attack-chain detector.
//!
//! Instead of scanning each event in isolation, the graph keeps every action
//! of one session and matches the whole history against known attack-chain
//! patterns: a step that looks legitimate alone can be dangerous in
//! composition.
//!
//! Each event is a node `(capability, asset_class, source, taint, ts)`.
//! Events are linked through the artifact ids (paths, urls, hashes) that
//! they share; the graph keeps an index from each artifact id to the nodes
//! that touched it.
//!
//! Chain patterns:
//!
//!   A. fetch -> write -> execute           (download-and-execute)
//!   B. read-secret -> outbound-send        (exfiltration via context)
//!   C. browse -> extract-command -> shell  (indirect prompt injection)
//!   D. mcp-output -> shell|network         (malicious MCP chain)
//!   E. long-dwell -> new-capability        (delayed trigger, 3+ day gap)
//!   F. taint-leap                          (a tainted artifact reaches Execute)
//!
//! plus a behavioural baseline learnt during the first minutes of a session,
//! execution through build-system indirection, decode-then-execute,
//! sensitive-asset-then-send, config poisoning and archive unpacking.
use vstd::prelude::*;

use crate::asset::{AssetClass, Capability, Source};
use crate::seq_util::{concat_map, lemma_concat_map_all, lemma_concat_map_contains, lemma_concat_map_push, lemma_concat_map_take, lemma_take_full};
use crate::text::{chars_of, contains_chars, contains_str, ends_with_chars, has_sub, has_suffix, lowercase, strs, to_lower};

verus! {

/// Stable id for an action node in the session graph.
pub type NodeId = u64;

/// One event node in the session graph.
#[derive(Debug, Clone)]
pub struct SessionEvent {
    pub id: NodeId,
    pub capability: Capability,
    pub asset: AssetClass,
    pub source: Source,
    pub tainted: bool,
    /// Unix ts seconds when observed.
    pub ts: u64,
    /// Artifact ids involved in this event (path, url, sha, etc.).
    pub artifact_ids: Vec<String>,
    /// Free-form label (tool name + first chunk of input) for audit.
    pub label: String,
}

/// The artifact ids of an event, as strings.
pub open spec fn aids(e: SessionEvent) -> Seq<Seq<char>> {
    strs(e.artifact_ids@)
}

/// A known attack-chain pattern: rule id, severity and description.
#[derive(Debug, Clone, Copy)]
pub struct ChainPattern {
    pub id: &'static str,
    pub severity: u32,
    pub description: &'static str,
}

/// The attack-chain and behavioural rules the detector reports.
#[derive(Debug, Clone, Copy, PartialEq, Eq, Structural)]
pub enum ChainRule {
    FetchWriteExecute,
    ReadSecretOutbound,
    BrowseExtractShell,
    McpToShellNet,
    TaintLeapExecute,
    LongDwellNewCapability,
    BaselineAnomaly,
    CapabilityEscalation,
    ExecViaMake,
    ExecViaNpmScript,
    DecodePipeExec,
    BrowserdataOutbound,
    WalletdataOutbound,
    KeychainOutbound,
    HistoryOutbound,
    CloudmetaOutbound,
    ConfigPoisonExec,
    ArchiveUnpackExec,
}

impl ChainRule {
    pub open spec fn spec_id(self) -> Seq<char> {
        match self {
            ChainRule::FetchWriteExecute => "chain-fetch-write-execute"@,
            ChainRule::ReadSecretOutbound => "chain-read-secret-outbound"@,
            ChainRule::BrowseExtractShell => "chain-browse-extract-shell"@,
            ChainRule::McpToShellNet => "chain-mcp-to-shell-net"@,
            ChainRule::TaintLeapExecute => "chain-taint-leap-execute"@,
            ChainRule::LongDwellNewCapability => "chain-long-dwell-new-capability"@,
            ChainRule::BaselineAnomaly => "behavioral-baseline-anomaly"@,
            ChainRule::CapabilityEscalation => "behavioral-capability-escalation"@,
            ChainRule::ExecViaMake => "chain-exec-via-make"@,
            ChainRule::ExecViaNpmScript => "chain-exec-via-npm-script"@,
            ChainRule::DecodePipeExec => "chain-decode-pipe-exec"@,
            ChainRule::BrowserdataOutbound => "chain-browserdata-outbound"@,
            ChainRule::WalletdataOutbound => "chain-walletdata-outbound"@,
            ChainRule::KeychainOutbound => "chain-keychain-outbound"@,
            ChainRule::HistoryOutbound => "chain-history-outbound"@,
            ChainRule::CloudmetaOutbound => "chain-cloudmeta-outbound"@,
            ChainRule::ConfigPoisonExec => "chain-config-poison-exec"@,
            ChainRule::ArchiveUnpackExec => "chain-archive-unpack-exec"@,
        }
    }

    pub open spec fn spec_severity(self) -> u32 {
        match self {
            ChainRule::FetchWriteExecute => 95,
            ChainRule::ReadSecretOutbound => 90,
            ChainRule::BrowseExtractShell => 95,
            ChainRule::McpToShellNet => 90,
            ChainRule::TaintLeapExecute => 95,
            ChainRule::LongDwellNewCapability => 70,
            ChainRule::BaselineAnomaly => 60,
            ChainRule::CapabilityEscalation => 75,
            ChainRule::ExecViaMake => 75,
            ChainRule::ExecViaNpmScript => 75,
            ChainRule::DecodePipeExec => 85,
            ChainRule::BrowserdataOutbound => 95,
            ChainRule::WalletdataOutbound => 95,
            ChainRule::KeychainOutbound => 95,
            ChainRule::HistoryOutbound => 80,
            ChainRule::CloudmetaOutbound => 95,
            ChainRule::ConfigPoisonExec => 85,
            ChainRule::ArchiveUnpackExec => 85,
        }
    }

    pub open spec fn spec_description(self) -> Seq<char> {
        match self {
            ChainRule::FetchWriteExecute => "fetch -> write -> execute: classic download-and-execute"@,
            ChainRule::ReadSecretOutbound => "read secret asset -> outbound send: exfiltration via context"@,
            ChainRule::BrowseExtractShell => "browse -> extract command from web -> shell: indirect prompt injection"@,
            ChainRule::McpToShellNet => "mcp output -> shell or network post: malicious MCP chain"@,
            ChainRule::TaintLeapExecute => "tainted artifact reaches execute: indirect-command injection"@,
            ChainRule::LongDwellNewCapability => "long dwell (>3d) then new capability: delayed trigger"@,
            ChainRule::BaselineAnomaly => "first-time capability or asset class outside session baseline"@,
            ChainRule::CapabilityEscalation => "first-time Execute / NetworkPost / BrowserDownload outside baseline: mid-session escalation"@,
            ChainRule::ExecViaMake => "execution via make target (build system turned into launcher)"@,
            ChainRule::ExecViaNpmScript => "execution via npm/pnpm/yarn script indirection"@,
            ChainRule::DecodePipeExec => "decode/deobfuscate step immediately followed by execute"@,
            ChainRule::BrowserdataOutbound => "browser profile/cookie/token data followed by outbound send"@,
            ChainRule::WalletdataOutbound => "wallet keystore/seed data followed by outbound send"@,
            ChainRule::KeychainOutbound => "keychain / gpg / kerberos / ssh-agent data followed by outbound send"@,
            ChainRule::HistoryOutbound => "shell/REPL history data followed by outbound send"@,
            ChainRule::CloudmetaOutbound => "cloud metadata / serviceaccount token followed by outbound send"@,
            ChainRule::ConfigPoisonExec => "AI-client/system config poisoned then execute/network capability appears"@,
            ChainRule::ArchiveUnpackExec => "archive fetched or written to temp then executed/unpacked payload runs"@,
        }
    }

    /// The pattern (id, severity, description) of this rule.
    pub fn pattern(&self) -> (p: ChainPattern)
        ensures
            p.id@ == self.spec_id(),
            p.severity == self.spec_severity(),
            p.description@ == self.spec_description(),
    {
        match self {
            ChainRule::FetchWriteExecute => ChainPattern { id: "chain-fetch-write-execute", severity: 95, description: "fetch -> write -> execute: classic download-and-execute" },
            ChainRule::ReadSecretOutbound => ChainPattern { id: "chain-read-secret-outbound", severity: 90, description: "read secret asset -> outbound send: exfiltration via context" },
            ChainRule::BrowseExtractShell => ChainPattern { id: "chain-browse-extract-shell", severity: 95, description: "browse -> extract command from web -> shell: indirect prompt injection" },
            ChainRule::McpToShellNet => ChainPattern { id: "chain-mcp-to-shell-net", severity: 90, description: "mcp output -> shell or network post: malicious MCP chain" },
            ChainRule::TaintLeapExecute => ChainPattern { id: "chain-taint-leap-execute", severity: 95, description: "tainted artifact reaches execute: indirect-command injection" },
            ChainRule::LongDwellNewCapability => ChainPattern { id: "chain-long-dwell-new-capability", severity: 70, description: "long dwell (>3d) then new capability: delayed trigger" },
            ChainRule::BaselineAnomaly => ChainPattern { id: "behavioral-baseline-anomaly", severity: 60, description: "first-time capability or asset class outside session baseline" },
            ChainRule::CapabilityEscalation => ChainPattern { id: "behavioral-capability-escalation", severity: 75, description: "first-time Execute / NetworkPost / BrowserDownload outside baseline: mid-session escalation" },
            ChainRule::ExecViaMake => ChainPattern { id: "chain-exec-via-make", severity: 75, description: "execution via make target (build system turned into launcher)" },
            ChainRule::ExecViaNpmScript => ChainPattern { id: "chain-exec-via-npm-script", severity: 75, description: "execution via npm/pnpm/yarn script indirection" },
            ChainRule::DecodePipeExec => ChainPattern { id: "chain-decode-pipe-exec", severity: 85, description: "decode/deobfuscate step immediately followed by execute" },
            ChainRule::BrowserdataOutbound => ChainPattern { id: "chain-browserdata-outbound", severity: 95, description: "browser profile/cookie/token data followed by outbound send" },
            ChainRule::WalletdataOutbound => ChainPattern { id: "chain-walletdata-outbound", severity: 95, description: "wallet keystore/seed data followed by outbound send" },
            ChainRule::KeychainOutbound => ChainPattern { id: "chain-keychain-outbound", severity: 95, description: "keychain / gpg / kerberos / ssh-agent data followed by outbound send" },
            ChainRule::HistoryOutbound => ChainPattern { id: "chain-history-outbound", severity: 80, description: "shell/REPL history data followed by outbound send" },
            ChainRule::CloudmetaOutbound => ChainPattern { id: "chain-cloudmeta-outbound", severity: 95, description: "cloud metadata / serviceaccount token followed by outbound send" },
            ChainRule::ConfigPoisonExec => ChainPattern { id: "chain-config-poison-exec", severity: 85, description: "AI-client/system config poisoned then execute/network capability appears" },
            ChainRule::ArchiveUnpackExec => ChainPattern { id: "chain-archive-unpack-exec", severity: 85, description: "archive fetched or written to temp then executed/unpacked payload runs" },
        }
    }

    /// The hit this rule reports for the given events.
    pub open spec fn hit(self, events: Seq<NodeId>) -> HitView {
        HitView {
            rule_id: self.spec_id(),
            severity: self.spec_severity(),
            description: self.spec_description(),
            events,
        }
    }
}

/// What a `ChainHit` reports, as plain values.
pub struct HitView {
    pub rule_id: Seq<char>,
    pub severity: u32,
    pub description: Seq<char>,
    pub events: Seq<NodeId>,
}

/// Detected chain — reported to governor & audit log.
#[derive(Debug, Clone)]
pub struct ChainHit {
    pub rule_id: String,
    pub severity: u32,
    pub description: String,
    pub events: Vec<NodeId>,
}

impl View for ChainHit {
    type V = HitView;

    open spec fn view(&self) -> HitView {
        HitView {
            rule_id: self.rule_id@,
            severity: self.severity,
            description: self.description@,
            events: self.events@,
        }
    }
}

/// The reports of a list of hits.
pub open spec fn hits_view(v: Seq<ChainHit>) -> Seq<HitView> {
    v.map_values(|h: ChainHit| h@)
}

proof fn lemma_hits_view_push(v: Seq<ChainHit>, h: ChainHit)
    ensures
        hits_view(v.push(h)) == hits_view(v).push(h@),
{
    assert(hits_view(v.push(h)) =~= hits_view(v).push(h@));
}

proof fn lemma_hits_view_append(v: Seq<ChainHit>, w: Seq<ChainHit>)
    ensures
        hits_view(v + w) == hits_view(v) + hits_view(w),
{
    assert(hits_view(v + w) =~= hits_view(v) + hits_view(w));
}

/// Build the hit of `rule` over `events`.
fn make_hit(rule: ChainRule, events: Vec<NodeId>) -> (h: ChainHit)
    ensures
        h@ == rule.hit(events@),
{
    let p = rule.pattern();
    ChainHit { rule_id: p.id.to_owned(), severity: p.severity, description: p.description.to_owned(), events }
}

/// Append `src` to `dst`.
fn append_hits(dst: &mut Vec<ChainHit>, src: Vec<ChainHit>)
    ensures
        hits_view(final(dst)@) == hits_view(old(dst)@) + hits_view(src@),
{
    let mut src = src;
    proof {
        lemma_hits_view_append(dst@, src@);
    }
    dst.append(&mut src);
}

/// Snapshot of the learned behavioral baseline for audit / debugging.
#[derive(Debug, Clone)]
pub struct BaselineSummary {
    pub finalized: bool,
    pub capabilities: Vec<Capability>,
    pub assets: Vec<AssetClass>,
    pub period_secs: u64,
}

/// The observable state of a session graph.
pub struct GraphState {
    pub nodes: Seq<SessionEvent>,
    pub seen_capabilities: Seq<Capability>,
    pub last_ts: u64,
    pub session_start_ts: u64,
    pub baseline_capabilities: Seq<Capability>,
    pub baseline_assets: Seq<AssetClass>,
    pub baseline_period_secs: u64,
    pub baseline_finalized: bool,
    pub last_anomaly_score: u32,
}

/// One entry of the artifact index: an artifact id and the ids of the
/// nodes that touched it, in recording order.
struct ArtifactEntry {
    artifact: String,
    producers: Vec<NodeId>,
}

/// `id` once for every occurrence of `aid` in `ids`.
pub open spec fn occurrences(ids: Seq<Seq<char>>, aid: Seq<char>, id: NodeId) -> Seq<NodeId> {
    concat_map(ids, occurrence_fn(aid, id))
}

/// `[id]` for an artifact id equal to `aid`, nothing otherwise.
pub open spec fn occurrence_fn(aid: Seq<char>, id: NodeId) -> spec_fn(Seq<char>) -> Seq<NodeId> {
    |a: Seq<char>| if a == aid { seq![id] } else { Seq::<NodeId>::empty() }
}

/// The ids of the nodes that touched artifact `aid`, once per mention, in
/// recording order.
pub open spec fn producers(nodes: Seq<SessionEvent>, aid: Seq<char>) -> Seq<NodeId> {
    concat_map(nodes, producer_fn(aid))
}

/// The ids a node contributes to the producers of `aid`.
pub open spec fn producer_fn(aid: Seq<char>) -> spec_fn(SessionEvent) -> Seq<NodeId> {
    |n: SessionEvent| occurrences(aids(n), aid, n.id)
}

/// In-memory session graph. One per proxy session; chains live within a
/// session.
pub struct SessionGraph {
    nodes: Vec<SessionEvent>,
    /// artifact id -> node ids that touched it (causal producer/consumer edges).
    artifact_index: Vec<ArtifactEntry>,
    /// Capabilities observed so far, each once.
    seen_capabilities: Vec<Capability>,
    /// Last seen ts (for long-dwell detection).
    last_ts: u64,
    session_start_ts: u64,
    /// Capabilities/asset classes observed during the first
    /// `baseline_period_secs` of the session. Anything outside this set
    /// later is an anomaly.
    baseline_capabilities: Vec<Capability>,
    baseline_assets: Vec<AssetClass>,
    baseline_period_secs: u64,
    /// Whether the learning window has closed.
    pub baseline_finalized: bool,
    /// Anomaly score (0..100) for the most-recent event.
    last_anomaly_score: u32,
}

impl View for SessionGraph {
    type V = GraphState;

    closed spec fn view(&self) -> GraphState {
        GraphState {
            nodes: self.nodes@,
            seen_capabilities: self.seen_capabilities@,
            last_ts: self.last_ts,
            session_start_ts: self.session_start_ts,
            baseline_capabilities: self.baseline_capabilities@,
            baseline_assets: self.baseline_assets@,
            baseline_period_secs: self.baseline_period_secs,
            baseline_finalized: self.baseline_finalized,
            last_anomaly_score: self.last_anomaly_score,
        }
    }
}

/// `index` maps each artifact id with a non-empty `prod` to `prod` of it,
/// with every key once.
spec fn index_ok(index: Seq<ArtifactEntry>, prod: spec_fn(Seq<char>) -> Seq<NodeId>) -> bool {
    &&& forall|i: int, j: int|
        0 <= i < index.len() && 0 <= j < index.len() && i != j
            ==> #[trigger] index[i].artifact@ != #[trigger] index[j].artifact@
    &&& forall|i: int| 0 <= i < index.len() ==> #[trigger] index[i].producers@ == prod(index[i].artifact@)
    &&& forall|k: Seq<char>| #[trigger] prod(k).len() > 0 ==> exists|i: int| 0 <= i < index.len() && #[trigger] index[i].artifact@ == k
}

/// Saturating subtraction on timestamps.
pub open spec fn sat_sub(a: u64, b: u64) -> u64 {
    if a >= b { (a - b) as u64 } else { 0 }
}

/// Capabilities whose first appearance outside the baseline is an escalation.
pub open spec fn is_critical_capability(c: Capability) -> bool {
    matches!(c, Capability::Execute | Capability::NetworkPost | Capability::BrowserDownload | Capability::McpInvoke)
}

/// The state of a fresh graph whose session started at `start`.
pub open spec fn initial_state(start: u64) -> GraphState {
    GraphState {
        nodes: Seq::empty(),
        seen_capabilities: Seq::empty(),
        last_ts: 0,
        session_start_ts: start,
        baseline_capabilities: Seq::empty(),
        baseline_assets: Seq::empty(),
        baseline_period_secs: 300,
        baseline_finalized: false,
        last_anomaly_score: 0,
    }
}

/// `s` with `x` appended unless already present.
pub open spec fn add_unique<T>(s: Seq<T>, x: T) -> Seq<T> {
    if s.contains(x) { s } else { s.push(x) }
}

/// Anomaly score (0..100) of `ev` against the baseline of `g`: 0 = within
/// baseline, 100 = first-time critical capability + sensitive asset + tainted.
pub open spec fn anomaly_score(g: GraphState, ev: SessionEvent) -> u32 {
    let cap = if g.baseline_finalized && !g.baseline_capabilities.contains(ev.capability) {
        30 + if is_critical_capability(ev.capability) { 20int } else { 0int }
    } else {
        0int
    };
    let asset = if g.baseline_finalized && !g.baseline_assets.contains(ev.asset) {
        25 + if ev.asset.spec_is_hard_deny_for_auto() { 25int } else { 0int }
    } else {
        0int
    };
    let taint = if ev.tainted { 20int } else { 0int };
    let source = if g.baseline_finalized && matches!(ev.source, Source::Provider | Source::Web | Source::Mcp) {
        10int
    } else {
        0int
    };
    let total = cap + asset + taint + source;
    (if total < 100 { total } else { 100 }) as u32
}

/// The baseline after learning from `ev`: while the window is open the
/// event's capability and asset class join the baseline; the first event
/// past the window freezes it.
pub open spec fn learn_baseline(g: GraphState, ev: SessionEvent) -> GraphState {
    if g.baseline_finalized {
        g
    } else if sat_sub(ev.ts, g.session_start_ts) <= g.baseline_period_secs {
        GraphState {
            baseline_capabilities: add_unique(g.baseline_capabilities, ev.capability),
            baseline_assets: add_unique(g.baseline_assets, ev.asset),
            ..g
        }
    } else {
        GraphState { baseline_finalized: true, ..g }
    }
}

/// The state after recording `ev`.
pub open spec fn record_state(g: GraphState, ev: SessionEvent) -> GraphState {
    let g1 = learn_baseline(g, ev);
    GraphState {
        nodes: g.nodes.push(ev),
        seen_capabilities: add_unique(g.seen_capabilities, ev.capability),
        last_ts: if ev.ts > g.last_ts { ev.ts } else { g.last_ts },
        last_anomaly_score: anomaly_score(g1, ev),
        ..g1
    }
}

#[verifier::external_type_specification]
#[verifier::external_body]
pub struct ExSystemTime(std::time::SystemTime);

/// Calls `SystemTime::now`: the system clock's current reading.
#[verifier::external_body]
fn system_time_now() -> std::time::SystemTime {
    std::time::SystemTime::now()
}

/// Calls `SystemTime::duration_since(UNIX_EPOCH)`: the time elapsed since
/// the Unix epoch, nothing when `t` lies before it.
#[verifier::external_body]
fn since_unix_epoch(t: &std::time::SystemTime) -> Option<std::time::Duration> {
    t.duration_since(std::time::UNIX_EPOCH).ok()
}

/// Calls `Duration::as_secs`: the whole seconds of `d`.
#[verifier::external_body]
fn whole_secs(d: &std::time::Duration) -> u64 {
    d.as_secs()
}

/// The current time in Unix seconds (0 if the clock is before the epoch).
pub fn now_ts() -> u64 {
    match since_unix_epoch(&system_time_now()) {
        Some(d) => whole_secs(&d),
        None => 0,
    }
}

fn contains_capability(v: &Vec<Capability>, c: Capability) -> (b: bool)
    ensures
        b == v@.contains(c),
{
    let mut i: usize = 0;
    while i < v.len()
        invariant
            0 <= i <= v@.len(),
            forall|j: int| 0 <= j < i ==> v@[j] != c,
        decreases v.len() - i,
    {
        if v[i] == c {
            assert(v@[i as int] == c);
            return true;
        }
        i += 1;
    }
    false
}

fn contains_asset(v: &Vec<AssetClass>, c: AssetClass) -> (b: bool)
    ensures
        b == v@.contains(c),
{
    let mut i: usize = 0;
    while i < v.len()
        invariant
            0 <= i <= v@.len(),
            forall|j: int| 0 <= j < i ==> v@[j] != c,
        decreases v.len() - i,
    {
        if v[i] == c {
            assert(v@[i as int] == c);
            return true;
        }
        i += 1;
    }
    false
}

proof fn lemma_occurrences_step(ids: Seq<Seq<char>>, j: int, k: Seq<char>, id: NodeId)
    requires
        0 <= j < ids.len(),
    ensures
        occurrences(ids.take(j + 1), k, id) == occurrences(ids.take(j), k, id)
            + (if ids[j] == k { seq![id] } else { Seq::<NodeId>::empty() }),
{
    lemma_concat_map_take(ids, occurrence_fn(k, id), j);
}

/// Record in `index` every artifact id mentioned by `ev`.
fn index_insert(index: &mut Vec<ArtifactEntry>, Ghost(prod): Ghost<spec_fn(Seq<char>) -> Seq<NodeId>>, ev: &SessionEvent)
    requires
        index_ok(old(index)@, prod),
    ensures
        index_ok(final(index)@, |k: Seq<char>| prod(k) + occurrences(aids(*ev), k, ev.id)),
{
    let ghost ids = aids(*ev);
    let n = ev.artifact_ids.len();
    let mut j: usize = 0;
    assert forall|k: Seq<char>| prod(k) + occurrences(ids.take(0), k, ev.id) == prod(k) by {
        assert(ids.take(0) =~= Seq::<Seq<char>>::empty());
        assert(prod(k) + Seq::<NodeId>::empty() =~= prod(k));
    }
    assert((|k: Seq<char>| prod(k) + occurrences(ids.take(0), k, ev.id)) =~= prod);
    while j < n
        invariant
            n == ev.artifact_ids@.len(),
            ids == aids(*ev),
            0 <= j <= n,
            index_ok(index@, |k: Seq<char>| prod(k) + occurrences(ids.take(j as int), k, ev.id)),
        decreases n - j,
    {
        let aid = &ev.artifact_ids[j];
        let ghost fj = |k: Seq<char>| prod(k) + occurrences(ids.take(j as int), k, ev.id);
        let ghost fj1 = |k: Seq<char>| prod(k) + occurrences(ids.take(j + 1), k, ev.id);
        proof {
            assert forall|k: Seq<char>| #[trigger] fj1(k) == fj(k) + (if aid@ == k { seq![ev.id] } else { Seq::<NodeId>::empty() }) by {
                lemma_occurrences_step(ids, j as int, k, ev.id);
                assert(ids[j as int] == aid@);
            }
        }
        let mut i: usize = 0;
        let mut found = false;
        while i < index.len()
            invariant_except_break
                !found,
            invariant
                index_ok(index@, fj),
                0 <= i <= index@.len(),
                forall|m: int| 0 <= m < i ==> index@[m].artifact@ != aid@,
            ensures
                found ==> i < index@.len() && index@[i as int].artifact@ == aid@,
                !found ==> i == index@.len(),
            decreases index.len() - i,
        {
            if index[i].artifact == *aid {
                found = true;
                break;
            }
            i += 1;
        }
        if found {
            let ghost old_index = index@;
            index[i].producers.push(ev.id);
            proof {
                assert(old_index[i as int].artifact@ == aid@);
                assert forall|m: int| 0 <= m < index@.len() implies #[trigger] index@[m].producers@ == fj1(index@[m].artifact@) by {
                    if m != i {
                        assert(index@[m] == old_index[m]);
                        assert(old_index[m].artifact@ != old_index[i as int].artifact@);
                    }
                }
                assert forall|k: Seq<char>| #[trigger] fj1(k).len() > 0 implies exists|m: int| 0 <= m < index@.len() && #[trigger] index@[m].artifact@ == k by {
                    if k == aid@ {
                        assert(index@[i as int].artifact@ == k);
                    } else {
                        assert(fj(k).len() > 0);
                        let m = choose|m: int| 0 <= m < old_index.len() && #[trigger] old_index[m].artifact@ == k;
                        assert(index@[m].artifact@ == k);
                    }
                }
                assert forall|m1: int, m2: int| 0 <= m1 < index@.len() && 0 <= m2 < index@.len() && m1 != m2 implies #[trigger] index@[m1].artifact@ != #[trigger] index@[m2].artifact@ by {
                    assert(old_index[m1].artifact@ != old_index[m2].artifact@);
                }
            }
        } else {
            let ghost old_index = index@;
            proof {
                if fj(aid@).len() > 0 {
                    let m = choose|m: int| 0 <= m < old_index.len() && #[trigger] old_index[m].artifact@ == aid@;
                    assert(false);
                }
            }
            let mut ps: Vec<NodeId> = Vec::new();
            ps.push(ev.id);
            index.push(ArtifactEntry { artifact: aid.clone(), producers: ps });
            proof {
                assert(fj(aid@) =~= Seq::<NodeId>::empty());
                assert(fj1(aid@) =~= seq![ev.id]);
                assert forall|m: int| 0 <= m < index@.len() implies #[trigger] index@[m].producers@ == fj1(index@[m].artifact@) by {
                    if m < old_index.len() {
                        assert(index@[m] == old_index[m]);
                    }
                }
                assert forall|k: Seq<char>| #[trigger] fj1(k).len() > 0 implies exists|m: int| 0 <= m < index@.len() && #[trigger] index@[m].artifact@ == k by {
                    if k == aid@ {
                        assert(index@[old_index.len() as int].artifact@ == k);
                    } else {
                        assert(fj(k).len() > 0);
                        let m = choose|m: int| 0 <= m < old_index.len() && #[trigger] old_index[m].artifact@ == k;
                        assert(index@[m].artifact@ == k);
                    }
                }
                assert forall|m1: int, m2: int| 0 <= m1 < index@.len() && 0 <= m2 < index@.len() && m1 != m2 implies #[trigger] index@[m1].artifact@ != #[trigger] index@[m2].artifact@ by {
                    if m1 < old_index.len() && m2 < old_index.len() {
                        assert(old_index[m1].artifact@ != old_index[m2].artifact@);
                    } else if m1 < old_index.len() {
                        assert(index@[m1] == old_index[m1]);
                    } else if m2 < old_index.len() {
                        assert(index@[m2] == old_index[m2]);
                    }
                }
            }
        }
        j += 1;
    }
    proof {
        lemma_take_full(ids);
    }
}

impl SessionGraph {
    /// The graph's internal invariant: the artifact index is exactly the
    /// producer relation of the recorded nodes.
    pub closed spec fn wf(&self) -> bool {
        index_ok(self.artifact_index@, |k: Seq<char>| producers(self.nodes@, k))
    }

    /// A fresh graph whose session starts now. The start time is read from
    /// the system clock; everything else is as `new_at` states.
    pub fn new() -> (g: Self)
        ensures
            g.wf(),
            g@ == initial_state(g@.session_start_ts),
    {
        Self::new_at(now_ts())
    }

    /// A fresh graph whose session started at `session_start_ts` (Unix
    /// seconds), with the default five-minute baseline window.
    pub fn new_at(session_start_ts: u64) -> (g: Self)
        ensures
            g.wf(),
            g@ == initial_state(session_start_ts),
    {
        let g = SessionGraph {
            nodes: Vec::new(),
            artifact_index: Vec::new(),
            seen_capabilities: Vec::new(),
            last_ts: 0,
            session_start_ts,
            baseline_capabilities: Vec::new(),
            baseline_assets: Vec::new(),
            baseline_period_secs: 300,
            baseline_finalized: false,
            last_anomaly_score: 0,
        };
        proof {
            let f = |k: Seq<char>| producers(g.nodes@, k);
            assert forall|k: Seq<char>| #[trigger] f(k).len() == 0 by {
                assert(g.nodes@.len() == 0);
            }
        }
        g
    }

    /// Override the baseline-learning window. Default 5 minutes.
    pub fn with_baseline_window(self, secs: u64) -> (g: Self)
        requires
            self.wf(),
        ensures
            g.wf(),
            g@ == (GraphState { baseline_period_secs: secs, ..self@ }),
    {
        let mut g = self;
        g.baseline_period_secs = secs;
        g
    }

    /// Close the learning window now: the baseline stays as learnt so far
    /// and everything after is measured against it.
    pub fn finalize_baseline(&mut self)
        requires
            old(self).wf(),
        ensures
            final(self).wf(),
            final(self)@ == (GraphState { baseline_finalized: true, ..old(self)@ }),
    {
        self.baseline_finalized = true;
    }

    /// Record one event: learn the baseline while its window is open,
    /// score the event against the baseline, index its artifacts and
    /// append it.
    pub fn record(&mut self, ev: SessionEvent)
        requires
            old(self).wf(),
        ensures
            final(self).wf(),
            final(self)@ == record_state(old(self)@, ev),
    {
        let ghost g0 = self@;
        let ghost nodes0 = self.nodes@;
        if !self.baseline_finalized {
            let elapsed = if ev.ts >= self.session_start_ts { ev.ts - self.session_start_ts } else { 0 };
            if elapsed <= self.baseline_period_secs {
                if !contains_capability(&self.baseline_capabilities, ev.capability) {
                    self.baseline_capabilities.push(ev.capability);
                }
                if !contains_asset(&self.baseline_assets, ev.asset) {
                    self.baseline_assets.push(ev.asset);
                }
            } else {
                self.baseline_finalized = true;
            }
        }
        assert(self@ == learn_baseline(g0, ev));
        self.last_anomaly_score = self.compute_anomaly(&ev);
        let ghost p0 = |k: Seq<char>| producers(nodes0, k);
        index_insert(&mut self.artifact_index, Ghost(p0), &ev);
        let ghost idx1 = self.artifact_index@;
        assert(index_ok(idx1, |k: Seq<char>| p0(k) + occurrences(aids(ev), k, ev.id)));
        if !contains_capability(&self.seen_capabilities, ev.capability) {
            self.seen_capabilities.push(ev.capability);
        }
        if ev.ts > self.last_ts {
            self.last_ts = ev.ts;
        }
        self.nodes.push(ev);
        proof {
            let f_new = |k: Seq<char>| producers(self.nodes@, k);
            let f_ins = |k: Seq<char>| p0(k) + occurrences(aids(ev), k, ev.id);
            assert forall|k: Seq<char>| #[trigger] f_new(k) == f_ins(k) by {
                lemma_concat_map_push(nodes0, ev, producer_fn(k));
            }
            assert(f_new =~= f_ins);
            assert(self.artifact_index@ == idx1);
            assert(index_ok(self.artifact_index@, f_new));
        }
    }

    /// Anomaly score (0..100) of `ev` against the current baseline.
    fn compute_anomaly(&self, ev: &SessionEvent) -> (score: u32)
        ensures
            score == anomaly_score(self@, *ev),
    {
        let mut score: u32 = 0;
        if self.baseline_finalized && !contains_capability(&self.baseline_capabilities, ev.capability) {
            score += 30;
            if matches!(ev.capability, Capability::Execute | Capability::NetworkPost | Capability::BrowserDownload | Capability::McpInvoke) {
                score += 20;
            }
        }
        if self.baseline_finalized && !contains_asset(&self.baseline_assets, ev.asset) {
            score += 25;
            if ev.asset.is_hard_deny_for_auto() {
                score += 25;
            }
        }
        if ev.tainted {
            score += 20;
        }
        if self.baseline_finalized && matches!(ev.source, Source::Provider | Source::Web | Source::Mcp) {
            score += 10;
        }
        if score < 100 { score } else { 100 }
    }

    /// Anomaly score of the most recently recorded event.
    pub fn last_anomaly_score(&self) -> (s: u32)
        ensures
            s == self@.last_anomaly_score,
    {
        self.last_anomaly_score
    }

    /// Snapshot of the learned baseline.
    pub fn baseline_summary(&self) -> (b: BaselineSummary)
        ensures
            b.finalized == self@.baseline_finalized,
            b.capabilities@ == self@.baseline_capabilities,
            b.assets@ == self@.baseline_assets,
            b.period_secs == self@.baseline_period_secs,
    {
        BaselineSummary {
            finalized: self.baseline_finalized,
            capabilities: self.baseline_capabilities.clone(),
            assets: self.baseline_assets.clone(),
            period_secs: self.baseline_period_secs,
        }
    }

    /// Number of recorded events.
    pub fn len(&self) -> (n: usize)
        ensures
            n == self@.nodes.len(),
    {
        self.nodes.len()
    }

    /// True if no event was recorded.
    pub fn is_empty(&self) -> (b: bool)
        ensures
            b == (self@.nodes.len() == 0),
    {
        self.nodes.len() == 0
    }

    /// Producers of `aid` according to the artifact index.
    fn index_lookup(&self, aid: &String) -> (r: Vec<NodeId>)
        requires
            self.wf(),
        ensures
            r@ == producers(self.nodes@, aid@),
    {
        let mut i: usize = 0;
        while i < self.artifact_index.len()
            invariant
                self.wf(),
                0 <= i <= self.artifact_index@.len(),
                forall|j: int| 0 <= j < i ==> self.artifact_index@[j].artifact@ != aid@,
            decreases self.artifact_index.len() - i,
        {
            if self.artifact_index[i].artifact == *aid {
                return self.artifact_index[i].producers.clone();
            }
            i += 1;
        }
        proof {
            let f = |k: Seq<char>| producers(self.nodes@, k);
            assert(f(aid@) == producers(self.nodes@, aid@));
            if producers(self.nodes@, aid@).len() > 0 {
                assert(f(aid@).len() > 0);
            }
        }
        Vec::new()
    }
}


// ----- spec of the detectors --------------------------------------------

/// `seq![h]` when `b`, nothing otherwise.
pub open spec fn hit_if(b: bool, h: HitView) -> Seq<HitView> {
    if b { seq![h] } else { Seq::empty() }
}

/// Some node at or before `ts` satisfies `p`.
pub open spec fn any_before(nodes: Seq<SessionEvent>, ts: u64, p: spec_fn(SessionEvent) -> bool) -> bool {
    exists|j: int| 0 <= j < nodes.len() && nodes[j].ts <= ts && #[trigger] p(nodes[j])
}

/// Pattern F: every tainted Execute is a taint leap.
pub open spec fn taint_leap_fn() -> spec_fn(SessionEvent) -> Seq<HitView> {
    |n: SessionEvent| hit_if(n.capability == Capability::Execute && n.tainted, ChainRule::TaintLeapExecute.hit(seq![n.id]))
}

pub open spec fn taint_leap_hits(g: GraphState) -> Seq<HitView> {
    concat_map(g.nodes, taint_leap_fn())
}

/// A lowercased label that runs `make`.
pub open spec fn make_label(l: Seq<char>) -> bool {
    has_sub(l, "make "@) || has_sub(l, "make\t"@) || has_suffix(l, "make"@)
}

/// A lowercased label that runs a package-manager script.
pub open spec fn npm_label(l: Seq<char>) -> bool {
    has_sub(l, "npm run"@) || has_sub(l, "pnpm run"@) || has_sub(l, "yarn "@) || has_sub(l, "npx "@)
}

/// Execution through make / npm-script indirection: one hit per matching
/// family for every Execute node.
pub open spec fn exec_via_make_or_npm_fn() -> spec_fn(SessionEvent) -> Seq<HitView> {
    |n: SessionEvent|
        if n.capability == Capability::Execute {
            hit_if(make_label(lowercase(n.label@)), ChainRule::ExecViaMake.hit(seq![n.id]))
                + hit_if(npm_label(lowercase(n.label@)), ChainRule::ExecViaNpmScript.hit(seq![n.id]))
        } else {
            Seq::empty()
        }
}

pub open spec fn exec_via_make_or_npm_hits(g: GraphState) -> Seq<HitView> {
    concat_map(g.nodes, exec_via_make_or_npm_fn())
}

/// A label that decodes or deobfuscates data.
pub open spec fn decoder_label(n: SessionEvent) -> bool {
    decoder_text(lowercase(n.label@))
}

/// A lowercased label that decodes a payload.
pub open spec fn decoder_text(l: Seq<char>) -> bool {
    has_sub(l, "base64 -d"@) || has_sub(l, "--decode"@) || has_sub(l, "xxd -r"@)
        || has_sub(l, "openssl enc -d"@) || has_sub(l, "certutil -decode"@)
}

/// Every Execute preceded (by timestamp) by a decoding step.
pub open spec fn decode_then_execute_fn(nodes: Seq<SessionEvent>) -> spec_fn(SessionEvent) -> Seq<HitView> {
    |n: SessionEvent| hit_if(
        n.capability == Capability::Execute && any_before(nodes, n.ts, |m: SessionEvent| decoder_label(m)),
        ChainRule::DecodePipeExec.hit(seq![n.id]),
    )
}

pub open spec fn decode_then_execute_hits(g: GraphState) -> Seq<HitView> {
    concat_map(g.nodes, decode_then_execute_fn(g.nodes))
}

/// A write to an AI-client or system config file.
pub open spec fn config_write(m: SessionEvent) -> bool {
    m.capability == Capability::WriteFile && matches!(m.asset, AssetClass::AiClientConfig | AssetClass::Config)
}

/// Every Execute or NetworkPost preceded by a config write.
pub open spec fn config_poison_fn(nodes: Seq<SessionEvent>) -> spec_fn(SessionEvent) -> Seq<HitView> {
    |n: SessionEvent| hit_if(
        matches!(n.capability, Capability::Execute | Capability::NetworkPost)
            && any_before(nodes, n.ts, |m: SessionEvent| config_write(m)),
        ChainRule::ConfigPoisonExec.hit(seq![n.id]),
    )
}

pub open spec fn config_poison_hits(g: GraphState) -> Seq<HitView> {
    concat_map(g.nodes, config_poison_fn(g.nodes))
}

/// An archive step on a temp, executable or external asset.
pub open spec fn archive_step(m: SessionEvent) -> bool {
    &&& archive_text(lowercase(m.label@))
    &&& matches!(m.asset, AssetClass::Temp | AssetClass::Executable | AssetClass::External)
}

/// A lowercased label that names an archive or unpacks one.
pub open spec fn archive_text(l: Seq<char>) -> bool {
    has_sub(l, ".zip"@) || has_sub(l, ".tar"@) || has_sub(l, ".tgz"@) || has_sub(l, ".gz"@)
        || has_sub(l, "unzip "@) || has_sub(l, "tar -x"@)
}

/// Every Execute preceded by an archive step.
pub open spec fn archive_unpack_fn(nodes: Seq<SessionEvent>) -> spec_fn(SessionEvent) -> Seq<HitView> {
    |n: SessionEvent| hit_if(
        n.capability == Capability::Execute && any_before(nodes, n.ts, |m: SessionEvent| archive_step(m)),
        ChainRule::ArchiveUnpackExec.hit(seq![n.id]),
    )
}

pub open spec fn archive_unpack_hits(g: GraphState) -> Seq<HitView> {
    concat_map(g.nodes, archive_unpack_fn(g.nodes))
}

/// Some node at or before `ts` touched an asset of class `a`.
pub open spec fn asset_before(nodes: Seq<SessionEvent>, ts: u64, a: AssetClass) -> bool {
    any_before(nodes, ts, |m: SessionEvent| m.asset == a)
}

/// For every NetworkPost: one hit per sensitive asset class (browser data,
/// wallet data, keychain, history log, cloud metadata) touched at or
/// before it, in that order.
pub open spec fn sensitive_outbound_fn(nodes: Seq<SessionEvent>) -> spec_fn(SessionEvent) -> Seq<HitView> {
    |n: SessionEvent|
        if n.capability == Capability::NetworkPost {
            hit_if(asset_before(nodes, n.ts, AssetClass::BrowserData), ChainRule::BrowserdataOutbound.hit(seq![n.id]))
                + hit_if(asset_before(nodes, n.ts, AssetClass::WalletData), ChainRule::WalletdataOutbound.hit(seq![n.id]))
                + hit_if(asset_before(nodes, n.ts, AssetClass::Keychain), ChainRule::KeychainOutbound.hit(seq![n.id]))
                + hit_if(asset_before(nodes, n.ts, AssetClass::Log), ChainRule::HistoryOutbound.hit(seq![n.id]))
                + hit_if(asset_before(nodes, n.ts, AssetClass::CloudMetadata), ChainRule::CloudmetaOutbound.hit(seq![n.id]))
        } else {
            Seq::empty()
        }
}

pub open spec fn sensitive_outbound_hits(g: GraphState) -> Seq<HitView> {
    concat_map(g.nodes, sensitive_outbound_fn(g.nodes))
}

/// Once the baseline is frozen: every node whose capability or asset class
/// is outside it.
pub open spec fn baseline_anomaly_fn(g: GraphState) -> spec_fn(SessionEvent) -> Seq<HitView> {
    |n: SessionEvent| hit_if(
        !g.baseline_capabilities.contains(n.capability) || !g.baseline_assets.contains(n.asset),
        ChainRule::BaselineAnomaly.hit(seq![n.id]),
    )
}

pub open spec fn baseline_anomaly_hits(g: GraphState) -> Seq<HitView> {
    if g.baseline_finalized { concat_map(g.nodes, baseline_anomaly_fn(g)) } else { Seq::empty() }
}

/// Once the baseline is frozen: every critical-capability node whose
/// capability is outside it.
pub open spec fn capability_escalation_fn(g: GraphState) -> spec_fn(SessionEvent) -> Seq<HitView> {
    |n: SessionEvent| hit_if(
        is_critical_capability(n.capability) && !g.baseline_capabilities.contains(n.capability),
        ChainRule::CapabilityEscalation.hit(seq![n.id]),
    )
}

pub open spec fn capability_escalation_hits(g: GraphState) -> Seq<HitView> {
    if g.baseline_finalized { concat_map(g.nodes, capability_escalation_fn(g)) } else { Seq::empty() }
}

/// A node that touched an MCP tool or came from an MCP server.
pub open spec fn mcp_node(m: SessionEvent) -> bool {
    m.capability == Capability::McpInvoke || m.source == Source::Mcp
}

/// A node that fetched content from the network.
pub open spec fn is_fetch(m: SessionEvent) -> bool {
    matches!(m.capability, Capability::NetworkFetch | Capability::BrowserDownload)
}

/// A write to a temp or executable asset.
pub open spec fn temp_write(m: SessionEvent) -> bool {
    m.capability == Capability::WriteFile && matches!(m.asset, AssetClass::Temp | AssetClass::Executable)
}

/// Some id of `a` occurs in `b`.
pub open spec fn shares(a: Seq<Seq<char>>, b: Seq<Seq<char>>) -> bool {
    exists|i: int| 0 <= i < a.len() && b.contains(#[trigger] a[i])
}

/// `[m.id]` for the nodes at or before `ts` that satisfy `p`.
pub open spec fn select_fn(ts: u64, p: spec_fn(SessionEvent) -> bool) -> spec_fn(SessionEvent) -> Seq<NodeId> {
    |m: SessionEvent| if m.ts <= ts && p(m) { seq![m.id] } else { Seq::<NodeId>::empty() }
}

/// Ids of the nodes at or before `ts` that satisfy `p`, in order.
pub open spec fn ids_before(nodes: Seq<SessionEvent>, ts: u64, p: spec_fn(SessionEvent) -> bool) -> Seq<NodeId> {
    concat_map(nodes, select_fn(ts, p))
}

/// A read of a hard-deny secret asset.
pub open spec fn secret_read(m: SessionEvent) -> bool {
    m.capability == Capability::SecretAccess && m.asset.spec_is_hard_deny_for_auto()
}

/// Pattern B: every NetworkPost preceded by secret reads reports those
/// reads and the send.
pub open spec fn read_secret_fn(nodes: Seq<SessionEvent>) -> spec_fn(SessionEvent) -> Seq<HitView> {
    |n: SessionEvent| {
        let reads = ids_before(nodes, n.ts, |m: SessionEvent| secret_read(m));
        hit_if(n.capability == Capability::NetworkPost && reads.len() > 0, ChainRule::ReadSecretOutbound.hit(reads.push(n.id)))
    }
}

pub open spec fn read_secret_hits(g: GraphState) -> Seq<HitView> {
    concat_map(g.nodes, read_secret_fn(g.nodes))
}

/// Some artifact of `n` was also touched by an MCP node.
pub open spec fn mcp_shares(nodes: Seq<SessionEvent>, n: SessionEvent) -> bool {
    exists|j: int| 0 <= j < nodes.len() && mcp_node(nodes[j]) && shares(aids(n), aids(#[trigger] nodes[j]))
}

/// Pattern D: every Execute or NetworkPost that comes at or after some MCP
/// node and shares an artifact with an MCP node.
pub open spec fn mcp_fn(nodes: Seq<SessionEvent>) -> spec_fn(SessionEvent) -> Seq<HitView> {
    |n: SessionEvent| hit_if(
        matches!(n.capability, Capability::Execute | Capability::NetworkPost)
            && any_before(nodes, n.ts, |m: SessionEvent| mcp_node(m))
            && mcp_shares(nodes, n),
        ChainRule::McpToShellNet.hit(seq![n.id]),
    )
}

pub open spec fn mcp_hits(g: GraphState) -> Seq<HitView> {
    concat_map(g.nodes, mcp_fn(g.nodes))
}

/// Saturating addition on timestamps.
pub open spec fn sat_add(a: u64, b: u64) -> u64 {
    if a + b > u64::MAX { u64::MAX } else { (a + b) as u64 }
}

/// Pattern E: after the first day, every node whose capability (other than
/// reading or writing files) never appeared during the first day.
pub open spec fn long_dwell_fn(nodes: Seq<SessionEvent>, cutoff: u64) -> spec_fn(SessionEvent) -> Seq<HitView> {
    |n: SessionEvent| hit_if(
        n.ts > cutoff
            && !any_before(nodes, cutoff, |m: SessionEvent| m.capability == n.capability && n.capability != Capability::ReadFile)
            && !matches!(n.capability, Capability::ReadFile | Capability::WriteFile),
        ChainRule::LongDwellNewCapability.hit(seq![n.id]),
    )
}

/// Long-dwell hits at time `now`: only once the session is three days old.
pub open spec fn long_dwell_hits(g: GraphState, now: u64) -> Seq<HitView> {
    if sat_sub(now, g.session_start_ts) / 86400 >= 3 {
        concat_map(g.nodes, long_dwell_fn(g.nodes, sat_add(g.session_start_ts, 86400)))
    } else {
        Seq::empty()
    }
}

/// The first node at or after position `k` whose id is `id`.
pub open spec fn first_with_id(nodes: Seq<SessionEvent>, id: NodeId, k: int) -> Option<SessionEvent>
    decreases nodes.len() - k,
{
    if k < 0 || k >= nodes.len() {
        None
    } else if nodes[k].id == id {
        Some(nodes[k])
    } else {
        first_with_id(nodes, id, k + 1)
    }
}

/// Executes that may carry injected commands.
pub open spec fn browse_precondition(n: SessionEvent) -> bool {
    n.tainted || n.source == Source::Web || n.source == Source::Mcp || n.source == Source::Provider
}

/// A browse/fetch node from an untrusted source at or before `n`.
pub open spec fn browse_producer(p: SessionEvent, n: SessionEvent) -> bool {
    &&& matches!(p.capability, Capability::BrowserNavigate | Capability::NetworkFetch)
    &&& matches!(p.source, Source::Web | Source::Provider | Source::Mcp)
    &&& p.ts <= n.ts
}

pub open spec fn browse_pid_fn(nodes: Seq<SessionEvent>, n: SessionEvent) -> spec_fn(NodeId) -> Seq<HitView> {
    |pid: NodeId| match first_with_id(nodes, pid, 0) {
        Some(p) => hit_if(browse_producer(p, n), ChainRule::BrowseExtractShell.hit(seq![p.id, n.id])),
        None => Seq::empty(),
    }
}

pub open spec fn browse_aid_fn(nodes: Seq<SessionEvent>, n: SessionEvent) -> spec_fn(Seq<char>) -> Seq<HitView> {
    |aid: Seq<char>| concat_map(producers(nodes, aid), browse_pid_fn(nodes, n))
}

/// Pattern C: for every Execute that may carry injected commands, one hit
/// per (artifact id, producer) pair whose producer is an untrusted
/// browse/fetch at or before it.
pub open spec fn browse_fn(nodes: Seq<SessionEvent>) -> spec_fn(SessionEvent) -> Seq<HitView> {
    |n: SessionEvent|
        if n.capability == Capability::Execute && browse_precondition(n) {
            concat_map(aids(n), browse_aid_fn(nodes, n))
        } else {
            Seq::empty()
        }
}

pub open spec fn browse_hits(g: GraphState) -> Seq<HitView> {
    concat_map(g.nodes, browse_fn(g.nodes))
}

/// A fetch at or before write `w` that shares an artifact with it.
pub open spec fn fetch_for(m: SessionEvent, w: SessionEvent) -> bool {
    is_fetch(m) && m.ts <= w.ts && shares(aids(m), aids(w))
}

/// The first node at or after position `k` that is a fetch for `w`.
pub open spec fn first_fetch(nodes: Seq<SessionEvent>, w: SessionEvent, k: int) -> Option<SessionEvent>
    decreases nodes.len() - k,
{
    if k < 0 || k >= nodes.len() {
        None
    } else if fetch_for(nodes[k], w) {
        Some(nodes[k])
    } else {
        first_fetch(nodes, w, k + 1)
    }
}

/// Phase 1 of pattern A for execute `e`: every write at or before `e` that
/// shares an artifact with it, paired with the first fetch for that write.
pub open spec fn fwe_write_fn(nodes: Seq<SessionEvent>, e: SessionEvent) -> spec_fn(SessionEvent) -> Seq<HitView> {
    |w: SessionEvent|
        if w.capability == Capability::WriteFile && w.ts <= e.ts && shares(aids(w), aids(e)) {
            match first_fetch(nodes, w, 0) {
                Some(f) => seq![ChainRule::FetchWriteExecute.hit(seq![f.id, w.id, e.id])],
                None => Seq::empty(),
            }
        } else {
            Seq::empty()
        }
}

/// The lower-confidence hit of phase 2 (temporal correlation).
pub open spec fn fwe_temporal_hit(events: Seq<NodeId>) -> HitView {
    HitView {
        rule_id: ChainRule::FetchWriteExecute.spec_id(),
        severity: 90,
        description: "fetch -> write(temp) -> execute: temporal correlation (no shared artifact id)"@,
        events,
    }
}

/// A fetch or temp write at or before `ts`.
pub open spec fn fetch_or_temp_write(m: SessionEvent) -> bool {
    is_fetch(m) || temp_write(m)
}

/// Pattern A over the first `k` nodes. For every Execute, phase 1 reports
/// fetch -> write -> execute triples linked by shared artifacts; while no
/// hit has been reported for any Execute so far, phase 2 reports the
/// temporal correlation of a fetch and a temp write before the Execute.
pub open spec fn fwe_upto(nodes: Seq<SessionEvent>, k: int) -> Seq<HitView>
    decreases k,
{
    if k <= 0 {
        Seq::empty()
    } else {
        let prev = fwe_upto(nodes, k - 1);
        let e = nodes[k - 1];
        if e.capability != Capability::Execute {
            prev
        } else {
            let out1 = prev + concat_map(nodes, fwe_write_fn(nodes, e));
            if out1.len() > 0 {
                out1
            } else if any_before(nodes, e.ts, |m: SessionEvent| is_fetch(m))
                && any_before(nodes, e.ts, |m: SessionEvent| temp_write(m)) {
                out1.push(fwe_temporal_hit(ids_before(nodes, e.ts, |m: SessionEvent| fetch_or_temp_write(m)).push(e.id)))
            } else {
                out1
            }
        }
    }
}

pub open spec fn fwe_hits(g: GraphState) -> Seq<HitView> {
    fwe_upto(g.nodes, g.nodes.len() as int)
}

/// All hits at time `now`, pattern by pattern in a fixed order.
pub open spec fn chain_hits(g: GraphState, now: u64) -> Seq<HitView> {
    fwe_hits(g) + read_secret_hits(g) + browse_hits(g) + mcp_hits(g) + taint_leap_hits(g)
        + long_dwell_hits(g, now) + baseline_anomaly_hits(g) + capability_escalation_hits(g)
        + exec_via_make_or_npm_hits(g) + decode_then_execute_hits(g) + sensitive_outbound_hits(g)
        + config_poison_hits(g) + archive_unpack_hits(g)
}

/// Is some id of `a` also in `b`?
fn shares_artifact(a: &Vec<String>, b: &Vec<String>) -> (r: bool)
    ensures
        r == shares(strs(a@), strs(b@)),
{
    let mut i: usize = 0;
    while i < a.len()
        invariant
            0 <= i <= a@.len(),
            forall|k: int| 0 <= k < i ==> !strs(b@).contains(#[trigger] strs(a@)[k]),
        decreases a.len() - i,
    {
        if contains_str(b, &a[i]) {
            assert(strs(b@).contains(strs(a@)[i as int]));
            return true;
        }
        i += 1;
    }
    false
}

fn one_id(id: NodeId) -> (v: Vec<NodeId>)
    ensures
        v@ == seq![id],
{
    let mut v: Vec<NodeId> = Vec::new();
    v.push(id);
    v
}

/// Push the hit of `rule` over `[id]` when `b`.
fn push_hit_if(out: &mut Vec<ChainHit>, b: bool, rule: ChainRule, id: NodeId)
    ensures
        hits_view(final(out)@) == hits_view(old(out)@) + hit_if(b, rule.hit(seq![id])),
{
    proof {
        assert(hits_view(old(out)@) + Seq::<HitView>::empty() =~= hits_view(old(out)@));
    }
    if b {
        let h = make_hit(rule, one_id(id));
        proof {
            lemma_hits_view_push(out@, h);
            assert(hits_view(out@).push(h@) =~= hits_view(out@) + seq![h@]);
        }
        out.push(h);
    }
}

/// Does the lowercased `label` contain the literal `needle`?
fn lower_has(lower: &Vec<char>, needle: &str) -> (b: bool)
    ensures
        b == has_sub(lower@, needle@),
{
    let n = chars_of(needle);
    contains_chars(lower, &n)
}

/// Does a lowercased label run `make`?
pub fn runs_make(lower: &str) -> (b: bool)
    ensures
        b == make_label(lower@),
{
    let l = chars_of(lower);
    let suffix = chars_of("make");
    lower_has(&l, "make ") || lower_has(&l, "make\t") || ends_with_chars(&l, &suffix)
}

/// Does a lowercased label run a package-manager script?
pub fn runs_package_script(lower: &str) -> (b: bool)
    ensures
        b == npm_label(lower@),
{
    let l = chars_of(lower);
    lower_has(&l, "npm run") || lower_has(&l, "pnpm run") || lower_has(&l, "yarn ") || lower_has(&l, "npx ")
}

/// Does a lowercased label decode a payload?
pub fn decodes_payload(lower: &str) -> (b: bool)
    ensures
        b == decoder_text(lower@),
{
    let l = chars_of(lower);
    lower_has(&l, "base64 -d") || lower_has(&l, "--decode") || lower_has(&l, "xxd -r")
        || lower_has(&l, "openssl enc -d") || lower_has(&l, "certutil -decode")
}

/// Does a lowercased label name or unpack an archive?
pub fn names_archive(lower: &str) -> (b: bool)
    ensures
        b == archive_text(lower@),
{
    let l = chars_of(lower);
    lower_has(&l, ".zip") || lower_has(&l, ".tar") || lower_has(&l, ".tgz") || lower_has(&l, ".gz")
        || lower_has(&l, "unzip ") || lower_has(&l, "tar -x")
}

fn is_decoder_label(n: &SessionEvent) -> (b: bool)
    ensures
        b == decoder_label(*n),
{
    decodes_payload(to_lower(n.label.as_str()).as_str())
}

fn is_archive_step(n: &SessionEvent) -> (b: bool)
    ensures
        b == archive_step(*n),
{
    names_archive(to_lower(n.label.as_str()).as_str())
        && matches!(n.asset, AssetClass::Temp | AssetClass::Executable | AssetClass::External)
}

/// Which predicate `any_node_before` evaluates.
enum NodeTest {
    Decoder,
    ConfigWrite,
    ArchiveStep,
    Asset(AssetClass),
    Mcp,
    Fetch,
    TempWrite,
    DayOneCap(Capability),
    SecretRead,
    FetchOrTempWrite,
}

spec fn node_test_fn(t: NodeTest) -> spec_fn(SessionEvent) -> bool {
    match t {
        NodeTest::Decoder => |m: SessionEvent| decoder_label(m),
        NodeTest::ConfigWrite => |m: SessionEvent| config_write(m),
        NodeTest::ArchiveStep => |m: SessionEvent| archive_step(m),
        NodeTest::Asset(a) => |m: SessionEvent| m.asset == a,
        NodeTest::Mcp => |m: SessionEvent| mcp_node(m),
        NodeTest::Fetch => |m: SessionEvent| is_fetch(m),
        NodeTest::TempWrite => |m: SessionEvent| temp_write(m),
        NodeTest::DayOneCap(c) => |m: SessionEvent| m.capability == c && c != Capability::ReadFile,
        NodeTest::SecretRead => |m: SessionEvent| secret_read(m),
        NodeTest::FetchOrTempWrite => |m: SessionEvent| fetch_or_temp_write(m),
    }
}

fn node_test(t: &NodeTest, m: &SessionEvent) -> (b: bool)
    ensures
        b == node_test_fn(*t)(*m),
{
    match t {
        NodeTest::Decoder => is_decoder_label(m),
        NodeTest::ConfigWrite => m.capability == Capability::WriteFile
            && matches!(m.asset, AssetClass::AiClientConfig | AssetClass::Config),
        NodeTest::ArchiveStep => is_archive_step(m),
        NodeTest::Asset(a) => m.asset == *a,
        NodeTest::Mcp => m.capability == Capability::McpInvoke || m.source == Source::Mcp,
        NodeTest::Fetch => matches!(m.capability, Capability::NetworkFetch | Capability::BrowserDownload),
        NodeTest::TempWrite => m.capability == Capability::WriteFile
            && matches!(m.asset, AssetClass::Temp | AssetClass::Executable),
        NodeTest::DayOneCap(c) => m.capability == *c && *c != Capability::ReadFile,
        NodeTest::SecretRead => m.capability == Capability::SecretAccess && m.asset.is_hard_deny_for_auto(),
        NodeTest::FetchOrTempWrite => matches!(m.capability, Capability::NetworkFetch | Capability::BrowserDownload)
            || (m.capability == Capability::WriteFile && matches!(m.asset, AssetClass::Temp | AssetClass::Executable)),
    }
}

impl SessionGraph {
    /// Does some node at or before `ts` pass `t`?
    fn any_node_before(&self, ts: u64, t: NodeTest) -> (b: bool)
        ensures
            b == any_before(self@.nodes, ts, node_test_fn(t)),
    {
        let mut j: usize = 0;
        while j < self.nodes.len()
            invariant
                0 <= j <= self.nodes@.len(),
                forall|k: int| 0 <= k < j ==> !(self.nodes@[k].ts <= ts && #[trigger] node_test_fn(t)(self.nodes@[k])),
            decreases self.nodes.len() - j,
        {
            if self.nodes[j].ts <= ts && node_test(&t, &self.nodes[j]) {
                return true;
            }
            j += 1;
        }
        false
    }

    // ----- pattern F: taint-leap to execute --------------------------------

    fn detect_taint_leap(&self) -> (out: Vec<ChainHit>)
        ensures
            hits_view(out@) == taint_leap_hits(self@),
    {
        let mut out: Vec<ChainHit> = Vec::new();
        let mut i: usize = 0;
        while i < self.nodes.len()
            invariant
                0 <= i <= self.nodes@.len(),
                hits_view(out@) == concat_map(self.nodes@.take(i as int), taint_leap_fn()),
            decreases self.nodes.len() - i,
        {
            proof {
                lemma_concat_map_take(self.nodes@, taint_leap_fn(), i as int);
            }
            let n = &self.nodes[i];
            push_hit_if(&mut out, n.capability == Capability::Execute && n.tainted, ChainRule::TaintLeapExecute, n.id);
            i += 1;
        }
        proof {
            lemma_take_full(self.nodes@);
        }
        out
    }

    // ----- execution via indirection ---------------------------------------

    fn detect_exec_via_make_or_npm(&self) -> (out: Vec<ChainHit>)
        ensures
            hits_view(out@) == exec_via_make_or_npm_hits(self@),
    {
        let mut out: Vec<ChainHit> = Vec::new();
        let mut i: usize = 0;
        while i < self.nodes.len()
            invariant
                0 <= i <= self.nodes@.len(),
                hits_view(out@) == concat_map(self.nodes@.take(i as int), exec_via_make_or_npm_fn()),
            decreases self.nodes.len() - i,
        {
            proof {
                lemma_concat_map_take(self.nodes@, exec_via_make_or_npm_fn(), i as int);
            }
            let n = &self.nodes[i];
            if n.capability == Capability::Execute {
                let lower = to_lower(n.label.as_str());
                let ghost before = hits_view(out@);
                push_hit_if(&mut out, runs_make(lower.as_str()), ChainRule::ExecViaMake, n.id);
                push_hit_if(&mut out, runs_package_script(lower.as_str()), ChainRule::ExecViaNpmScript, n.id);
                proof {
                    assert(hits_view(out@) =~= before + (hit_if(make_label(lowercase(n.label@)), ChainRule::ExecViaMake.hit(seq![n.id]))
                        + hit_if(npm_label(lowercase(n.label@)), ChainRule::ExecViaNpmScript.hit(seq![n.id]))));
                }
            } else {
                assert(hits_view(out@) =~= hits_view(out@) + Seq::<HitView>::empty());
            }
            i += 1;
        }
        proof {
            lemma_take_full(self.nodes@);
        }
        out
    }

    fn detect_decode_then_execute(&self) -> (out: Vec<ChainHit>)
        ensures
            hits_view(out@) == decode_then_execute_hits(self@),
    {
        let mut out: Vec<ChainHit> = Vec::new();
        let mut i: usize = 0;
        let ghost f = decode_then_execute_fn(self@.nodes);
        while i < self.nodes.len()
            invariant
                0 <= i <= self.nodes@.len(),
                f == decode_then_execute_fn(self@.nodes),
                hits_view(out@) == concat_map(self.nodes@.take(i as int), f),
            decreases self.nodes.len() - i,
        {
            proof {
                lemma_concat_map_take(self.nodes@, f, i as int);
            }
            let n = &self.nodes[i];
            let b = n.capability == Capability::Execute && self.any_node_before(n.ts, NodeTest::Decoder);
            proof {
                assert(node_test_fn(NodeTest::Decoder) =~= (|m: SessionEvent| decoder_label(m)));
            }
            push_hit_if(&mut out, b, ChainRule::DecodePipeExec, n.id);
            i += 1;
        }
        proof {
            lemma_take_full(self.nodes@);
        }
        out
    }

    fn detect_config_poison_then_exec(&self) -> (out: Vec<ChainHit>)
        ensures
            hits_view(out@) == config_poison_hits(self@),
    {
        let mut out: Vec<ChainHit> = Vec::new();
        let mut i: usize = 0;
        let ghost f = config_poison_fn(self@.nodes);
        while i < self.nodes.len()
            invariant
                0 <= i <= self.nodes@.len(),
                f == config_poison_fn(self@.nodes),
                hits_view(out@) == concat_map(self.nodes@.take(i as int), f),
            decreases self.nodes.len() - i,
        {
            proof {
                lemma_concat_map_take(self.nodes@, f, i as int);
            }
            let n = &self.nodes[i];
            let b = matches!(n.capability, Capability::Execute | Capability::NetworkPost)
                && self.any_node_before(n.ts, NodeTest::ConfigWrite);
            proof {
                assert(node_test_fn(NodeTest::ConfigWrite) =~= (|m: SessionEvent| config_write(m)));
            }
            push_hit_if(&mut out, b, ChainRule::ConfigPoisonExec, n.id);
            i += 1;
        }
        proof {
            lemma_take_full(self.nodes@);
        }
        out
    }

    fn detect_archive_unpack_exec(&self) -> (out: Vec<ChainHit>)
        ensures
            hits_view(out@) == archive_unpack_hits(self@),
    {
        let mut out: Vec<ChainHit> = Vec::new();
        let mut i: usize = 0;
        let ghost f = archive_unpack_fn(self@.nodes);
        while i < self.nodes.len()
            invariant
                0 <= i <= self.nodes@.len(),
                f == archive_unpack_fn(self@.nodes),
                hits_view(out@) == concat_map(self.nodes@.take(i as int), f),
            decreases self.nodes.len() - i,
        {
            proof {
                lemma_concat_map_take(self.nodes@, f, i as int);
            }
            let n = &self.nodes[i];
            let b = n.capability == Capability::Execute && self.any_node_before(n.ts, NodeTest::ArchiveStep);
            proof {
                assert(node_test_fn(NodeTest::ArchiveStep) =~= (|m: SessionEvent| archive_step(m)));
            }
            push_hit_if(&mut out, b, ChainRule::ArchiveUnpackExec, n.id);
            i += 1;
        }
        proof {
            lemma_take_full(self.nodes@);
        }
        out
    }

    /// Push the hit of `rule` over `[id]` when some node at or before `ts`
    /// touched an asset of class `a`.
    fn push_asset_hit(&self, out: &mut Vec<ChainHit>, ts: u64, a: AssetClass, rule: ChainRule, id: NodeId)
        ensures
            hits_view(final(out)@) == hits_view(old(out)@) + hit_if(asset_before(self@.nodes, ts, a), rule.hit(seq![id])),
    {
        let b = self.any_node_before(ts, NodeTest::Asset(a));
        proof {
            assert(node_test_fn(NodeTest::Asset(a)) =~= (|m: SessionEvent| m.asset == a));
        }
        push_hit_if(out, b, rule, id);
    }

    /// The sensitive-asset-outbound hits of node `n`.
    fn sensitive_hits_for(&self, n: &SessionEvent) -> (out: Vec<ChainHit>)
        ensures
            hits_view(out@) == sensitive_outbound_fn(self@.nodes)(*n),
    {
        let mut out: Vec<ChainHit> = Vec::new();
        if n.capability == Capability::NetworkPost {
            let ghost nodes = self@.nodes;
            let ghost h1 = hit_if(asset_before(nodes, n.ts, AssetClass::BrowserData), ChainRule::BrowserdataOutbound.hit(seq![n.id]));
            let ghost h2 = hit_if(asset_before(nodes, n.ts, AssetClass::WalletData), ChainRule::WalletdataOutbound.hit(seq![n.id]));
            let ghost h3 = hit_if(asset_before(nodes, n.ts, AssetClass::Keychain), ChainRule::KeychainOutbound.hit(seq![n.id]));
            let ghost h4 = hit_if(asset_before(nodes, n.ts, AssetClass::Log), ChainRule::HistoryOutbound.hit(seq![n.id]));
            let ghost h5 = hit_if(asset_before(nodes, n.ts, AssetClass::CloudMetadata), ChainRule::CloudmetaOutbound.hit(seq![n.id]));
            self.push_asset_hit(&mut out, n.ts, AssetClass::BrowserData, ChainRule::BrowserdataOutbound, n.id);
            assert(hits_view(out@) =~= h1);
            self.push_asset_hit(&mut out, n.ts, AssetClass::WalletData, ChainRule::WalletdataOutbound, n.id);
            assert(hits_view(out@) =~= h1 + h2);
            self.push_asset_hit(&mut out, n.ts, AssetClass::Keychain, ChainRule::KeychainOutbound, n.id);
            assert(hits_view(out@) =~= h1 + h2 + h3);
            self.push_asset_hit(&mut out, n.ts, AssetClass::Log, ChainRule::HistoryOutbound, n.id);
            assert(hits_view(out@) =~= h1 + h2 + h3 + h4);
            self.push_asset_hit(&mut out, n.ts, AssetClass::CloudMetadata, ChainRule::CloudmetaOutbound, n.id);
            assert(hits_view(out@) =~= h1 + h2 + h3 + h4 + h5);
        } else {
            assert(hits_view(out@) =~= Seq::<HitView>::empty());
        }
        out
    }

    fn detect_sensitive_asset_outbound_by_class(&self) -> (out: Vec<ChainHit>)
        ensures
            hits_view(out@) == sensitive_outbound_hits(self@),
    {
        let mut out: Vec<ChainHit> = Vec::new();
        let mut i: usize = 0;
        let ghost f = sensitive_outbound_fn(self@.nodes);
        while i < self.nodes.len()
            invariant
                0 <= i <= self.nodes@.len(),
                f == sensitive_outbound_fn(self@.nodes),
                hits_view(out@) == concat_map(self.nodes@.take(i as int), f),
            decreases self.nodes.len() - i,
        {
            proof {
                lemma_concat_map_take(self.nodes@, f, i as int);
            }
            let n = &self.nodes[i];
            let local = self.sensitive_hits_for(n);
            append_hits(&mut out, local);
            i += 1;
        }
        proof {
            lemma_take_full(self.nodes@);
        }
        out
    }

    // ----- behavioural baseline anomaly ------------------------------------

    fn detect_baseline_anomaly(&self) -> (out: Vec<ChainHit>)
        ensures
            hits_view(out@) == baseline_anomaly_hits(self@),
    {
        let mut out: Vec<ChainHit> = Vec::new();
        if !self.baseline_finalized {
            assert(hits_view(out@) =~= Seq::<HitView>::empty());
            return out;
        }
        let mut i: usize = 0;
        let ghost f = baseline_anomaly_fn(self@);
        while i < self.nodes.len()
            invariant
                0 <= i <= self.nodes@.len(),
                f == baseline_anomaly_fn(self@),
                hits_view(out@) == concat_map(self.nodes@.take(i as int), f),
            decreases self.nodes.len() - i,
        {
            proof {
                lemma_concat_map_take(self.nodes@, f, i as int);
            }
            let n = &self.nodes[i];
            let cap_new = !contains_capability(&self.baseline_capabilities, n.capability);
            let asset_new = !contains_asset(&self.baseline_assets, n.asset);
            push_hit_if(&mut out, cap_new || asset_new, ChainRule::BaselineAnomaly, n.id);
            i += 1;
        }
        proof {
            lemma_take_full(self.nodes@);
        }
        out
    }

    // ----- capability escalation mid-session --------------------------------

    fn detect_capability_escalation(&self) -> (out: Vec<ChainHit>)
        ensures
            hits_view(out@) == capability_escalation_hits(self@),
    {
        let mut out: Vec<ChainHit> = Vec::new();
        if !self.baseline_finalized {
            assert(hits_view(out@) =~= Seq::<HitView>::empty());
            return out;
        }
        let mut i: usize = 0;
        let ghost f = capability_escalation_fn(self@);
        while i < self.nodes.len()
            invariant
                0 <= i <= self.nodes@.len(),
                f == capability_escalation_fn(self@),
                hits_view(out@) == concat_map(self.nodes@.take(i as int), f),
            decreases self.nodes.len() - i,
        {
            proof {
                lemma_concat_map_take(self.nodes@, f, i as int);
            }
            let n = &self.nodes[i];
            let critical = matches!(n.capability, Capability::Execute | Capability::NetworkPost | Capability::BrowserDownload | Capability::McpInvoke);
            let b = critical && !contains_capability(&self.baseline_capabilities, n.capability);
            push_hit_if(&mut out, b, ChainRule::CapabilityEscalation, n.id);
            i += 1;
        }
        proof {
            lemma_take_full(self.nodes@);
        }
        out
    }

    /// Ids of the nodes at or before `ts` that pass `t`, in order.
    fn ids_before_test(&self, ts: u64, t: NodeTest) -> (out: Vec<NodeId>)
        ensures
            out@ == ids_before(self@.nodes, ts, node_test_fn(t)),
    {
        let mut out: Vec<NodeId> = Vec::new();
        let mut j: usize = 0;
        let ghost f = select_fn(ts, node_test_fn(t));
        while j < self.nodes.len()
            invariant
                0 <= j <= self.nodes@.len(),
                f == select_fn(ts, node_test_fn(t)),
                out@ == concat_map(self.nodes@.take(j as int), f),
            decreases self.nodes.len() - j,
        {
            proof {
                lemma_concat_map_take(self.nodes@, f, j as int);
            }
            let m = &self.nodes[j];
            if m.ts <= ts && node_test(&t, m) {
                out.push(m.id);
                assert(out@ =~= concat_map(self.nodes@.take(j as int), f) + seq![m.id]);
            } else {
                assert(out@ =~= concat_map(self.nodes@.take(j as int), f) + Seq::<NodeId>::empty());
            }
            j += 1;
        }
        proof {
            lemma_take_full(self.nodes@);
        }
        out
    }

    // ----- pattern B: read secret -> outbound send ------------------------

    fn detect_read_secret_outbound(&self) -> (out: Vec<ChainHit>)
        ensures
            hits_view(out@) == read_secret_hits(self@),
    {
        let mut out: Vec<ChainHit> = Vec::new();
        let mut i: usize = 0;
        let ghost f = read_secret_fn(self@.nodes);
        while i < self.nodes.len()
            invariant
                0 <= i <= self.nodes@.len(),
                f == read_secret_fn(self@.nodes),
                hits_view(out@) == concat_map(self.nodes@.take(i as int), f),
            decreases self.nodes.len() - i,
        {
            proof {
                lemma_concat_map_take(self.nodes@, f, i as int);
            }
            let n = &self.nodes[i];
            if n.capability == Capability::NetworkPost {
                let mut events = self.ids_before_test(n.ts, NodeTest::SecretRead);
                proof {
                    assert(node_test_fn(NodeTest::SecretRead) =~= (|m: SessionEvent| secret_read(m)));
                }
                if events.len() > 0 {
                    events.push(n.id);
                    let h = make_hit(ChainRule::ReadSecretOutbound, events);
                    proof {
                        lemma_hits_view_push(out@, h);
                        assert(hits_view(out@).push(h@) =~= hits_view(out@) + seq![h@]);
                    }
                    out.push(h);
                } else {
                    assert(hits_view(out@) =~= hits_view(out@) + Seq::<HitView>::empty());
                }
            } else {
                assert(hits_view(out@) =~= hits_view(out@) + Seq::<HitView>::empty());
            }
            i += 1;
        }
        proof {
            lemma_take_full(self.nodes@);
        }
        out
    }

    /// Does some artifact of `n` also belong to an MCP node?
    fn shares_with_mcp(&self, n: &SessionEvent) -> (b: bool)
        ensures
            b == mcp_shares(self@.nodes, *n),
    {
        let mut j: usize = 0;
        while j < self.nodes.len()
            invariant
                0 <= j <= self.nodes@.len(),
                forall|k: int| 0 <= k < j ==> !(mcp_node(self.nodes@[k]) && shares(aids(*n), aids(#[trigger] self.nodes@[k]))),
            decreases self.nodes.len() - j,
        {
            let m = &self.nodes[j];
            if (m.capability == Capability::McpInvoke || m.source == Source::Mcp) && shares_artifact(&n.artifact_ids, &m.artifact_ids) {
                return true;
            }
            j += 1;
        }
        false
    }

    // ----- pattern D: mcp output -> shell or network post -----------------

    fn detect_mcp_to_shell_or_net(&self) -> (out: Vec<ChainHit>)
        ensures
            hits_view(out@) == mcp_hits(self@),
    {
        let mut out: Vec<ChainHit> = Vec::new();
        let mut i: usize = 0;
        let ghost f = mcp_fn(self@.nodes);
        while i < self.nodes.len()
            invariant
                0 <= i <= self.nodes@.len(),
                f == mcp_fn(self@.nodes),
                hits_view(out@) == concat_map(self.nodes@.take(i as int), f),
            decreases self.nodes.len() - i,
        {
            proof {
                lemma_concat_map_take(self.nodes@, f, i as int);
            }
            let n = &self.nodes[i];
            let b = matches!(n.capability, Capability::Execute | Capability::NetworkPost)
                && self.any_node_before(n.ts, NodeTest::Mcp)
                && self.shares_with_mcp(n);
            proof {
                assert(node_test_fn(NodeTest::Mcp) =~= (|m: SessionEvent| mcp_node(m)));
            }
            push_hit_if(&mut out, b, ChainRule::McpToShellNet, n.id);
            i += 1;
        }
        proof {
            lemma_take_full(self.nodes@);
        }
        out
    }

    // ----- pattern E: long-dwell -> new capability ------------------------

    fn detect_long_dwell_new_cap(&self, now: u64) -> (out: Vec<ChainHit>)
        ensures
            hits_view(out@) == long_dwell_hits(self@, now),
    {
        let mut out: Vec<ChainHit> = Vec::new();
        let age = if now >= self.session_start_ts { now - self.session_start_ts } else { 0 };
        if age / 86_400 < 3 {
            assert(hits_view(out@) =~= Seq::<HitView>::empty());
            return out;
        }
        let cutoff = if self.session_start_ts <= u64::MAX - 86_400 { self.session_start_ts + 86_400 } else { u64::MAX };
        let mut i: usize = 0;
        let ghost f = long_dwell_fn(self@.nodes, cutoff);
        while i < self.nodes.len()
            invariant
                0 <= i <= self.nodes@.len(),
                f == long_dwell_fn(self@.nodes, cutoff),
                hits_view(out@) == concat_map(self.nodes@.take(i as int), f),
            decreases self.nodes.len() - i,
        {
            proof {
                lemma_concat_map_take(self.nodes@, f, i as int);
            }
            let n = &self.nodes[i];
            let b = n.ts > cutoff
                && !self.any_node_before(cutoff, NodeTest::DayOneCap(n.capability))
                && !matches!(n.capability, Capability::ReadFile | Capability::WriteFile);
            proof {
                let c = n.capability;
                assert(node_test_fn(NodeTest::DayOneCap(c)) =~= (|m: SessionEvent| m.capability == c && c != Capability::ReadFile));
            }
            push_hit_if(&mut out, b, ChainRule::LongDwellNewCapability, n.id);
            i += 1;
        }
        proof {
            lemma_take_full(self.nodes@);
        }
        out
    }

    /// The first node with id `id`, if any.
    fn find_node(&self, id: NodeId) -> (r: Option<usize>)
        ensures
            r matches Some(k) ==> k < self@.nodes.len() && first_with_id(self@.nodes, id, 0) == Some(self@.nodes[k as int]),
            r is None ==> first_with_id(self@.nodes, id, 0) is None,
    {
        let mut k: usize = 0;
        while k < self.nodes.len()
            invariant
                0 <= k <= self.nodes@.len(),
                first_with_id(self@.nodes, id, 0) == first_with_id(self@.nodes, id, k as int),
            decreases self.nodes.len() - k,
        {
            if self.nodes[k].id == id {
                return Some(k);
            }
            k += 1;
        }
        None
    }

    /// The hits of pattern C for one artifact id `aid` of execute `n`.
    fn browse_hits_for_aid(&self, n: &SessionEvent, aid: &String) -> (out: Vec<ChainHit>)
        requires
            self.wf(),
        ensures
            hits_view(out@) == browse_aid_fn(self@.nodes, *n)(aid@),
    {
        let ps = self.index_lookup(aid);
        let mut out: Vec<ChainHit> = Vec::new();
        let mut q: usize = 0;
        let ghost f = browse_pid_fn(self@.nodes, *n);
        while q < ps.len()
            invariant
                0 <= q <= ps@.len(),
                f == browse_pid_fn(self@.nodes, *n),
                hits_view(out@) == concat_map(ps@.take(q as int), f),
            decreases ps.len() - q,
        {
            proof {
                lemma_concat_map_take(ps@, f, q as int);
            }
            match self.find_node(ps[q]) {
                Some(k) => {
                    let p = &self.nodes[k];
                    let b = matches!(p.capability, Capability::BrowserNavigate | Capability::NetworkFetch)
                        && matches!(p.source, Source::Web | Source::Provider | Source::Mcp)
                        && p.ts <= n.ts;
                    if b {
                        let mut events: Vec<NodeId> = Vec::new();
                        events.push(p.id);
                        events.push(n.id);
                        assert(events@ =~= seq![p.id, n.id]);
                        let h = make_hit(ChainRule::BrowseExtractShell, events);
                        proof {
                            lemma_hits_view_push(out@, h);
                            assert(hits_view(out@).push(h@) =~= hits_view(out@) + seq![h@]);
                        }
                        out.push(h);
                    } else {
                        assert(hits_view(out@) =~= hits_view(out@) + Seq::<HitView>::empty());
                    }
                },
                None => {
                    assert(hits_view(out@) =~= hits_view(out@) + Seq::<HitView>::empty());
                },
            }
            q += 1;
        }
        proof {
            lemma_take_full(ps@);
        }
        out
    }

    // ----- pattern C: browse -> extract-command -> shell ------------------

    fn detect_browse_extract_shell(&self) -> (out: Vec<ChainHit>)
        requires
            self.wf(),
        ensures
            hits_view(out@) == browse_hits(self@),
    {
        let mut out: Vec<ChainHit> = Vec::new();
        let mut i: usize = 0;
        let ghost f = browse_fn(self@.nodes);
        while i < self.nodes.len()
            invariant
                self.wf(),
                0 <= i <= self.nodes@.len(),
                f == browse_fn(self@.nodes),
                hits_view(out@) == concat_map(self.nodes@.take(i as int), f),
            decreases self.nodes.len() - i,
        {
            proof {
                lemma_concat_map_take(self.nodes@, f, i as int);
            }
            let n = &self.nodes[i];
            let pre = n.tainted || n.source == Source::Web || n.source == Source::Mcp || n.source == Source::Provider;
            if n.capability == Capability::Execute && pre {
                let ghost g = browse_aid_fn(self@.nodes, *n);
                let ghost before = hits_view(out@);
                let mut a: usize = 0;
                while a < n.artifact_ids.len()
                    invariant
                        self.wf(),
                        0 <= a <= n.artifact_ids@.len(),
                        g == browse_aid_fn(self@.nodes, *n),
                        hits_view(out@) == before + concat_map(aids(*n).take(a as int), g),
                    decreases n.artifact_ids.len() - a,
                {
                    proof {
                        lemma_concat_map_take(aids(*n), g, a as int);
                    }
                    let local = self.browse_hits_for_aid(n, &n.artifact_ids[a]);
                    append_hits(&mut out, local);
                    a += 1;
                }
                proof {
                    lemma_take_full(aids(*n));
                }
            } else {
                assert(hits_view(out@) =~= hits_view(out@) + Seq::<HitView>::empty());
            }
            i += 1;
        }
        proof {
            lemma_take_full(self.nodes@);
        }
        out
    }

    /// Position of the first node that is a fetch for write `w`.
    fn first_fetch_for(&self, w: &SessionEvent) -> (r: Option<usize>)
        ensures
            r matches Some(k) ==> k < self@.nodes.len() && first_fetch(self@.nodes, *w, 0) == Some(self@.nodes[k as int]),
            r is None ==> first_fetch(self@.nodes, *w, 0) is None,
    {
        let mut k: usize = 0;
        while k < self.nodes.len()
            invariant
                0 <= k <= self.nodes@.len(),
                first_fetch(self@.nodes, *w, 0) == first_fetch(self@.nodes, *w, k as int),
            decreases self.nodes.len() - k,
        {
            let m = &self.nodes[k];
            if matches!(m.capability, Capability::NetworkFetch | Capability::BrowserDownload)
                && m.ts <= w.ts && shares_artifact(&m.artifact_ids, &w.artifact_ids) {
                return Some(k);
            }
            k += 1;
        }
        None
    }

    /// Phase 1 of pattern A for execute `e`.
    fn fwe_phase1(&self, e: &SessionEvent) -> (out: Vec<ChainHit>)
        ensures
            hits_view(out@) == concat_map(self@.nodes, fwe_write_fn(self@.nodes, *e)),
    {
        let mut out: Vec<ChainHit> = Vec::new();
        let mut j: usize = 0;
        let ghost f = fwe_write_fn(self@.nodes, *e);
        while j < self.nodes.len()
            invariant
                0 <= j <= self.nodes@.len(),
                f == fwe_write_fn(self@.nodes, *e),
                hits_view(out@) == concat_map(self.nodes@.take(j as int), f),
            decreases self.nodes.len() - j,
        {
            proof {
                lemma_concat_map_take(self.nodes@, f, j as int);
            }
            let w = &self.nodes[j];
            let mut pushed = false;
            if w.capability == Capability::WriteFile && w.ts <= e.ts && shares_artifact(&w.artifact_ids, &e.artifact_ids) {
                match self.first_fetch_for(w) {
                    Some(k) => {
                        let mut events: Vec<NodeId> = Vec::new();
                        events.push(self.nodes[k].id);
                        events.push(w.id);
                        events.push(e.id);
                        assert(events@ =~= seq![self@.nodes[k as int].id, w.id, e.id]);
                        let h = make_hit(ChainRule::FetchWriteExecute, events);
                        proof {
                            lemma_hits_view_push(out@, h);
                            assert(hits_view(out@).push(h@) =~= hits_view(out@) + seq![h@]);
                        }
                        out.push(h);
                        pushed = true;
                    },
                    None => {},
                }
            }
            if !pushed {
                assert(hits_view(out@) =~= hits_view(out@) + Seq::<HitView>::empty());
            }
            j += 1;
        }
        proof {
            lemma_take_full(self.nodes@);
        }
        out
    }

    // ----- pattern A: fetch -> write -> execute ---------------------------

    fn detect_fetch_write_execute(&self) -> (out: Vec<ChainHit>)
        ensures
            hits_view(out@) == fwe_hits(self@),
    {
        let mut out: Vec<ChainHit> = Vec::new();
        let mut i: usize = 0;
        while i < self.nodes.len()
            invariant
                0 <= i <= self.nodes@.len(),
                hits_view(out@) == fwe_upto(self@.nodes, i as int),
            decreases self.nodes.len() - i,
        {
            let e = &self.nodes[i];
            if e.capability == Capability::Execute {
                let p1 = self.fwe_phase1(e);
                append_hits(&mut out, p1);
                if out.len() == 0 {
                    let has_fetch = self.any_node_before(e.ts, NodeTest::Fetch);
                    let has_temp_write = self.any_node_before(e.ts, NodeTest::TempWrite);
                    proof {
                        assert(node_test_fn(NodeTest::Fetch) =~= (|m: SessionEvent| is_fetch(m)));
                        assert(node_test_fn(NodeTest::TempWrite) =~= (|m: SessionEvent| temp_write(m)));
                    }
                    if has_fetch && has_temp_write {
                        let mut events = self.ids_before_test(e.ts, NodeTest::FetchOrTempWrite);
                        proof {
                            assert(node_test_fn(NodeTest::FetchOrTempWrite) =~= (|m: SessionEvent| fetch_or_temp_write(m)));
                        }
                        events.push(e.id);
                        let h = ChainHit {
                            rule_id: "chain-fetch-write-execute".to_owned(),
                            severity: 90,
                            description: "fetch -> write(temp) -> execute: temporal correlation (no shared artifact id)".to_owned(),
                            events,
                        };
                        proof {
                            lemma_hits_view_push(out@, h);
                        }
                        out.push(h);
                    }
                }
            }
            i += 1;
        }
        out
    }

    /// Walk the graph at time `now` (Unix seconds) and report every
    /// chain-pattern hit, pattern by pattern. Re-runnable as the graph grows.
    pub fn detect_chains_at(&self, now: u64) -> (hits: Vec<ChainHit>)
        requires
            self.wf(),
        ensures
            hits_view(hits@) == chain_hits(self@, now),
    {
        let mut hits: Vec<ChainHit> = Vec::new();
        append_hits(&mut hits, self.detect_fetch_write_execute());
        append_hits(&mut hits, self.detect_read_secret_outbound());
        append_hits(&mut hits, self.detect_browse_extract_shell());
        append_hits(&mut hits, self.detect_mcp_to_shell_or_net());
        append_hits(&mut hits, self.detect_taint_leap());
        append_hits(&mut hits, self.detect_long_dwell_new_cap(now));
        append_hits(&mut hits, self.detect_baseline_anomaly());
        append_hits(&mut hits, self.detect_capability_escalation());
        append_hits(&mut hits, self.detect_exec_via_make_or_npm());
        append_hits(&mut hits, self.detect_decode_then_execute());
        append_hits(&mut hits, self.detect_sensitive_asset_outbound_by_class());
        append_hits(&mut hits, self.detect_config_poison_then_exec());
        append_hits(&mut hits, self.detect_archive_unpack_exec());
        assert(hits_view(hits@) =~= chain_hits(self@, now));
        hits
    }

    /// Walk the graph and report every chain-pattern hit, reading the
    /// current time from the system clock for the long-dwell pattern.
    pub fn detect_chains(&self) -> (hits: Vec<ChainHit>)
        requires
            self.wf(),
        ensures
            exists|now: u64| hits_view(hits@) == chain_hits(self@, now),
    {
        let now = now_ts();
        self.detect_chains_at(now)
    }
}

impl Default for SessionGraph {
    fn default() -> (g: Self)
        ensures
            g.wf(),
            g@ == initial_state(g@.session_start_ts),
    {
        Self::new()
    }
}

// ----- laws ----------------------------------------------------------------

/// The anomaly score of every recorded event lies in 0..=100.
pub proof fn law_anomaly_score_at_most_100(g: GraphState, ev: SessionEvent)
    ensures
        record_state(g, ev).last_anomaly_score <= 100,
{
}

/// An event inside the learning window joins the baseline: afterwards its
/// capability and asset class are both in the baseline and the window is
/// still open.
pub proof fn law_window_event_joins_baseline(g: GraphState, ev: SessionEvent)
    requires
        !g.baseline_finalized,
        sat_sub(ev.ts, g.session_start_ts) <= g.baseline_period_secs,
    ensures
        record_state(g, ev).baseline_capabilities.contains(ev.capability),
        record_state(g, ev).baseline_assets.contains(ev.asset),
        !record_state(g, ev).baseline_finalized,
{
    let caps = g.baseline_capabilities;
    if !caps.contains(ev.capability) {
        assert(caps.push(ev.capability)[caps.len() as int] == ev.capability);
    }
    let assets = g.baseline_assets;
    if !assets.contains(ev.asset) {
        assert(assets.push(ev.asset)[assets.len() as int] == ev.asset);
    }
}

/// Once the baseline is frozen, recording leaves it unchanged.
pub proof fn law_frozen_baseline_is_kept(g: GraphState, ev: SessionEvent)
    requires
        g.baseline_finalized,
    ensures
        record_state(g, ev).baseline_finalized,
        record_state(g, ev).baseline_capabilities == g.baseline_capabilities,
        record_state(g, ev).baseline_assets == g.baseline_assets,
{
}

/// The first event past the learning window freezes the baseline without
/// adding to it.
pub proof fn law_window_closes(g: GraphState, ev: SessionEvent)
    requires
        !g.baseline_finalized,
        sat_sub(ev.ts, g.session_start_ts) > g.baseline_period_secs,
    ensures
        record_state(g, ev).baseline_finalized,
        record_state(g, ev).baseline_capabilities == g.baseline_capabilities,
        record_state(g, ev).baseline_assets == g.baseline_assets,
{
}

/// An untainted event scores 0 when it stays within the baseline: either
/// the baseline is still being learnt, or its capability and asset class
/// are in the baseline and it comes from the user or the proxy itself.
pub proof fn law_baseline_event_scores_zero(g: GraphState, ev: SessionEvent)
    requires
        !ev.tainted,
        learn_baseline(g, ev).baseline_finalized ==> {
            &&& g.baseline_capabilities.contains(ev.capability)
            &&& g.baseline_assets.contains(ev.asset)
            &&& matches!(ev.source, Source::User | Source::Internal)
        },
    ensures
        record_state(g, ev).last_anomaly_score == 0,
{
}

/// A graph with no events reports no hits, at any time.
pub proof fn law_empty_graph_has_no_hits(g: GraphState, now: u64)
    requires
        g.nodes.len() == 0,
    ensures
        chain_hits(g, now).len() == 0,
{
    assert(fwe_upto(g.nodes, 0).len() == 0);
}

/// Every tainted Execute is reported as a taint leap to execute.
pub proof fn law_tainted_execute_is_reported(g: GraphState, now: u64, i: int)
    requires
        0 <= i < g.nodes.len(),
        g.nodes[i].capability == Capability::Execute,
        g.nodes[i].tainted,
    ensures
        chain_hits(g, now).contains(ChainRule::TaintLeapExecute.hit(seq![g.nodes[i].id])),
{
    let h = ChainRule::TaintLeapExecute.hit(seq![g.nodes[i].id]);
    assert(taint_leap_fn()(g.nodes[i])[0] == h);
    lemma_concat_map_contains(g.nodes, taint_leap_fn(), i, 0);
    let a = fwe_hits(g) + read_secret_hits(g) + browse_hits(g) + mcp_hits(g);
    let t = taint_leap_hits(g);
    let rest = long_dwell_hits(g, now) + baseline_anomaly_hits(g) + capability_escalation_hits(g)
        + exec_via_make_or_npm_hits(g) + decode_then_execute_hits(g) + sensitive_outbound_hits(g)
        + config_poison_hits(g) + archive_unpack_hits(g);
    let j = choose|j: int| 0 <= j < t.len() && t[j] == h;
    assert(chain_hits(g, now) =~= a + t + rest);
    assert((a + t + rest)[a.len() + j] == h);
}

/// `id` is the id of a recorded node.
pub open spec fn recorded(nodes: Seq<SessionEvent>, id: NodeId) -> bool {
    exists|j: int| 0 <= j < nodes.len() && #[trigger] nodes[j].id == id
}

/// Every event that `h` cites is a recorded node.
pub open spec fn cites_recorded(nodes: Seq<SessionEvent>, h: HitView) -> bool {
    forall|k: int| 0 <= k < h.events.len() ==> recorded(nodes, #[trigger] h.events[k])
}

/// Every hit of `hs` cites only recorded nodes.
pub open spec fn all_cite_recorded(nodes: Seq<SessionEvent>, hs: Seq<HitView>) -> bool {
    forall|i: int| 0 <= i < hs.len() ==> cites_recorded(nodes, #[trigger] hs[i])
}

proof fn lemma_all_concat(nodes: Seq<SessionEvent>, a: Seq<HitView>, b: Seq<HitView>)
    requires
        all_cite_recorded(nodes, a),
        all_cite_recorded(nodes, b),
    ensures
        all_cite_recorded(nodes, a + b),
{
    assert forall|i: int| 0 <= i < (a + b).len() implies cites_recorded(nodes, #[trigger] (a + b)[i]) by {
        if i < a.len() {
            assert((a + b)[i] == a[i]);
        } else {
            assert((a + b)[i] == b[i - a.len()]);
        }
    }
}

proof fn lemma_hit_if(nodes: Seq<SessionEvent>, c: bool, h: HitView)
    requires
        cites_recorded(nodes, h),
    ensures
        all_cite_recorded(nodes, hit_if(c, h)),
{
}

/// The hit of `rule` that cites the recorded node `nodes[i]` alone.
proof fn lemma_own_hit(nodes: Seq<SessionEvent>, i: int, rule: ChainRule)
    requires
        0 <= i < nodes.len(),
    ensures
        cites_recorded(nodes, rule.hit(seq![nodes[i].id])),
{
    assert(nodes[i].id == nodes[i].id);
}

/// A map whose every image cites recorded nodes only.
proof fn lemma_all_of_map<A>(nodes: Seq<SessionEvent>, s: Seq<A>, f: spec_fn(A) -> Seq<HitView>)
    requires
        forall|i: int| 0 <= i < s.len() ==> all_cite_recorded(nodes, #[trigger] f(s[i])),
    ensures
        all_cite_recorded(nodes, concat_map(s, f)),
{
    let p = |h: HitView| cites_recorded(nodes, h);
    assert forall|i: int, k: int| 0 <= i < s.len() && 0 <= k < f(s[i]).len() implies #[trigger] p(f(s[i])[k]) by {
        assert(all_cite_recorded(nodes, f(s[i])));
    }
    lemma_concat_map_all(s, f, p);
    assert forall|i: int| 0 <= i < concat_map(s, f).len() implies cites_recorded(nodes, #[trigger] concat_map(s, f)[i]) by {
        assert(p(concat_map(s, f)[i]));
    }
}

/// The ids that `ids_before` selects are ids of recorded nodes.
proof fn lemma_ids_before_recorded(nodes: Seq<SessionEvent>, ts: u64, p: spec_fn(SessionEvent) -> bool)
    ensures
        forall|k: int| 0 <= k < ids_before(nodes, ts, p).len() ==> recorded(nodes, #[trigger] ids_before(nodes, ts, p)[k]),
{
    let q = |id: NodeId| recorded(nodes, id);
    let f = select_fn(ts, p);
    assert forall|i: int, k: int| 0 <= i < nodes.len() && 0 <= k < f(nodes[i]).len() implies #[trigger] q(f(nodes[i])[k]) by {
        assert(f(nodes[i])[k] == nodes[i].id);
    }
    lemma_concat_map_all(nodes, f, q);
    assert forall|k: int| 0 <= k < ids_before(nodes, ts, p).len() implies recorded(nodes, #[trigger] ids_before(nodes, ts, p)[k]) by {
        assert(q(concat_map(nodes, f)[k]));
    }
}

proof fn lemma_first_with_id_recorded(nodes: Seq<SessionEvent>, id: NodeId, k: int)
    ensures
        first_with_id(nodes, id, k) matches Some(p) ==> recorded(nodes, p.id),
    decreases nodes.len() - k,
{
    if 0 <= k < nodes.len() && nodes[k].id != id {
        lemma_first_with_id_recorded(nodes, id, k + 1);
    }
}

proof fn lemma_first_fetch_recorded(nodes: Seq<SessionEvent>, w: SessionEvent, k: int)
    ensures
        first_fetch(nodes, w, k) matches Some(p) ==> recorded(nodes, p.id),
    decreases nodes.len() - k,
{
    if 0 <= k < nodes.len() && !fetch_for(nodes[k], w) {
        lemma_first_fetch_recorded(nodes, w, k + 1);
    }
}

/// Pattern A cites recorded nodes only.
proof fn lemma_fwe_recorded(nodes: Seq<SessionEvent>, k: int)
    requires
        k <= nodes.len(),
    ensures
        all_cite_recorded(nodes, fwe_upto(nodes, k)),
    decreases k,
{
    if k > 0 {
        lemma_fwe_recorded(nodes, k - 1);
        let e = nodes[k - 1];
        if e.capability == Capability::Execute {
            let f = fwe_write_fn(nodes, e);
            assert forall|i: int| 0 <= i < nodes.len() implies all_cite_recorded(nodes, #[trigger] f(nodes[i])) by {
                let w = nodes[i];
                lemma_first_fetch_recorded(nodes, w, 0);
                if let Some(ft) = first_fetch(nodes, w, 0) {
                    let h = ChainRule::FetchWriteExecute.hit(seq![ft.id, w.id, e.id]);
                    assert(nodes[k - 1].id == e.id);
                    assert(cites_recorded(nodes, h));
                }
            }
            lemma_all_of_map(nodes, nodes, f);
            let out1 = fwe_upto(nodes, k - 1) + concat_map(nodes, f);
            lemma_all_concat(nodes, fwe_upto(nodes, k - 1), concat_map(nodes, f));
            let ids = ids_before(nodes, e.ts, |m: SessionEvent| fetch_or_temp_write(m));
            lemma_ids_before_recorded(nodes, e.ts, |m: SessionEvent| fetch_or_temp_write(m));
            let h = fwe_temporal_hit(ids.push(e.id));
            assert forall|j: int| 0 <= j < h.events.len() implies recorded(nodes, #[trigger] h.events[j]) by {
                if j < ids.len() {
                    assert(h.events[j] == ids[j]);
                } else {
                    assert(nodes[k - 1].id == e.id);
                }
            }
            lemma_all_concat(nodes, out1, seq![h]);
            assert(out1.push(h) =~= out1 + seq![h]);
        }
    }
}

/// Pattern B cites recorded nodes only.
proof fn lemma_read_secret_recorded(nodes: Seq<SessionEvent>)
    ensures
        all_cite_recorded(nodes, concat_map(nodes, read_secret_fn(nodes))),
{
    let f = read_secret_fn(nodes);
    assert forall|i: int| 0 <= i < nodes.len() implies all_cite_recorded(nodes, #[trigger] f(nodes[i])) by {
        let n = nodes[i];
        let reads = ids_before(nodes, n.ts, |m: SessionEvent| secret_read(m));
        lemma_ids_before_recorded(nodes, n.ts, |m: SessionEvent| secret_read(m));
        let h = ChainRule::ReadSecretOutbound.hit(reads.push(n.id));
        assert forall|j: int| 0 <= j < h.events.len() implies recorded(nodes, #[trigger] h.events[j]) by {
            if j < reads.len() {
                assert(h.events[j] == reads[j]);
            } else {
                assert(nodes[i].id == n.id);
            }
        }
    }
    lemma_all_of_map(nodes, nodes, f);
}

/// Pattern C cites recorded nodes only.
proof fn lemma_browse_recorded(nodes: Seq<SessionEvent>)
    ensures
        all_cite_recorded(nodes, concat_map(nodes, browse_fn(nodes))),
{
    let f = browse_fn(nodes);
    assert forall|i: int| 0 <= i < nodes.len() implies all_cite_recorded(nodes, #[trigger] f(nodes[i])) by {
        let n = nodes[i];
        if n.capability == Capability::Execute && browse_precondition(n) {
            let g = browse_aid_fn(nodes, n);
            assert forall|a: int| 0 <= a < aids(n).len() implies all_cite_recorded(nodes, #[trigger] g(aids(n)[a])) by {
                let ps = producers(nodes, aids(n)[a]);
                let pf = browse_pid_fn(nodes, n);
                assert forall|b: int| 0 <= b < ps.len() implies all_cite_recorded(nodes, #[trigger] pf(ps[b])) by {
                    lemma_first_with_id_recorded(nodes, ps[b], 0);
                    if let Some(p) = first_with_id(nodes, ps[b], 0) {
                        let h = ChainRule::BrowseExtractShell.hit(seq![p.id, n.id]);
                        assert(nodes[i].id == n.id);
                        assert(cites_recorded(nodes, h));
                    }
                }
                lemma_all_of_map(nodes, ps, pf);
            }
            lemma_all_of_map(nodes, aids(n), g);
        }
    }
    lemma_all_of_map(nodes, nodes, f);
}

/// A chain hit cites only events recorded in the session, whatever the
/// time.
pub proof fn law_hits_cite_recorded_events(g: GraphState, now: u64)
    ensures
        forall|i: int, k: int|
            0 <= i < chain_hits(g, now).len() && 0 <= k < chain_hits(g, now)[i].events.len()
                ==> recorded(g.nodes, #[trigger] chain_hits(g, now)[i].events[k]),
{
    let nodes = g.nodes;
    lemma_fwe_recorded(nodes, nodes.len() as int);
    lemma_read_secret_recorded(nodes);
    lemma_browse_recorded(nodes);
    assert forall|i: int| 0 <= i < nodes.len() implies all_cite_recorded(nodes, #[trigger] mcp_fn(nodes)(nodes[i])) by {
        lemma_own_hit(nodes, i, ChainRule::McpToShellNet);
    }
    assert forall|i: int| 0 <= i < nodes.len() implies all_cite_recorded(nodes, #[trigger] taint_leap_fn()(nodes[i])) by {
        lemma_own_hit(nodes, i, ChainRule::TaintLeapExecute);
    }
    let cutoff = sat_add(g.session_start_ts, 86400);
    assert forall|i: int| 0 <= i < nodes.len() implies all_cite_recorded(nodes, #[trigger] long_dwell_fn(nodes, cutoff)(nodes[i])) by {
        lemma_own_hit(nodes, i, ChainRule::LongDwellNewCapability);
    }
    assert forall|i: int| 0 <= i < nodes.len() implies all_cite_recorded(nodes, #[trigger] baseline_anomaly_fn(g)(nodes[i])) by {
        lemma_own_hit(nodes, i, ChainRule::BaselineAnomaly);
    }
    assert forall|i: int| 0 <= i < nodes.len() implies all_cite_recorded(nodes, #[trigger] capability_escalation_fn(g)(nodes[i])) by {
        lemma_own_hit(nodes, i, ChainRule::CapabilityEscalation);
    }
    assert forall|i: int| 0 <= i < nodes.len() implies all_cite_recorded(nodes, #[trigger] exec_via_make_or_npm_fn()(nodes[i])) by {
        lemma_own_hit(nodes, i, ChainRule::ExecViaMake);
        lemma_own_hit(nodes, i, ChainRule::ExecViaNpmScript);
        let n = nodes[i];
        lemma_all_concat(nodes,
            hit_if(make_label(lowercase(n.label@)), ChainRule::ExecViaMake.hit(seq![n.id])),
            hit_if(npm_label(lowercase(n.label@)), ChainRule::ExecViaNpmScript.hit(seq![n.id])));
    }
    assert forall|i: int| 0 <= i < nodes.len() implies all_cite_recorded(nodes, #[trigger] decode_then_execute_fn(nodes)(nodes[i])) by {
        lemma_own_hit(nodes, i, ChainRule::DecodePipeExec);
    }
    assert forall|i: int| 0 <= i < nodes.len() implies all_cite_recorded(nodes, #[trigger] sensitive_outbound_fn(nodes)(nodes[i])) by {
        let n = nodes[i];
        if n.capability == Capability::NetworkPost {
            lemma_own_hit(nodes, i, ChainRule::BrowserdataOutbound);
            lemma_own_hit(nodes, i, ChainRule::WalletdataOutbound);
            lemma_own_hit(nodes, i, ChainRule::KeychainOutbound);
            lemma_own_hit(nodes, i, ChainRule::HistoryOutbound);
            lemma_own_hit(nodes, i, ChainRule::CloudmetaOutbound);
            let a = hit_if(asset_before(nodes, n.ts, AssetClass::BrowserData), ChainRule::BrowserdataOutbound.hit(seq![n.id]));
            let b = hit_if(asset_before(nodes, n.ts, AssetClass::WalletData), ChainRule::WalletdataOutbound.hit(seq![n.id]));
            let c = hit_if(asset_before(nodes, n.ts, AssetClass::Keychain), ChainRule::KeychainOutbound.hit(seq![n.id]));
            let d = hit_if(asset_before(nodes, n.ts, AssetClass::Log), ChainRule::HistoryOutbound.hit(seq![n.id]));
            let e = hit_if(asset_before(nodes, n.ts, AssetClass::CloudMetadata), ChainRule::CloudmetaOutbound.hit(seq![n.id]));
            lemma_all_concat(nodes, a, b);
            lemma_all_concat(nodes, a + b, c);
            lemma_all_concat(nodes, a + b + c, d);
            lemma_all_concat(nodes, a + b + c + d, e);
        }
    }
    assert forall|i: int| 0 <= i < nodes.len() implies all_cite_recorded(nodes, #[trigger] config_poison_fn(nodes)(nodes[i])) by {
        lemma_own_hit(nodes, i, ChainRule::ConfigPoisonExec);
    }
    assert forall|i: int| 0 <= i < nodes.len() implies all_cite_recorded(nodes, #[trigger] archive_unpack_fn(nodes)(nodes[i])) by {
        lemma_own_hit(nodes, i, ChainRule::ArchiveUnpackExec);
    }
    lemma_all_of_map(nodes, nodes, mcp_fn(nodes));
    lemma_all_of_map(nodes, nodes, taint_leap_fn());
    lemma_all_of_map(nodes, nodes, long_dwell_fn(nodes, cutoff));
    lemma_all_of_map(nodes, nodes, baseline_anomaly_fn(g));
    lemma_all_of_map(nodes, nodes, capability_escalation_fn(g));
    lemma_all_of_map(nodes, nodes, exec_via_make_or_npm_fn());
    lemma_all_of_map(nodes, nodes, decode_then_execute_fn(nodes));
    lemma_all_of_map(nodes, nodes, sensitive_outbound_fn(nodes));
    lemma_all_of_map(nodes, nodes, config_poison_fn(nodes));
    lemma_all_of_map(nodes, nodes, archive_unpack_fn(nodes));
    let parts = seq![
        fwe_hits(g), read_secret_hits(g), browse_hits(g), mcp_hits(g), taint_leap_hits(g),
        long_dwell_hits(g, now), baseline_anomaly_hits(g), capability_escalation_hits(g),
        exec_via_make_or_npm_hits(g), decode_then_execute_hits(g), sensitive_outbound_hits(g),
        config_poison_hits(g), archive_unpack_hits(g),
    ];
    let mut acc = parts[0];
    lemma_all_concat(nodes, acc, parts[1]);
    acc = acc + parts[1];
    lemma_all_concat(nodes, acc, parts[2]);
    acc = acc + parts[2];
    lemma_all_concat(nodes, acc, parts[3]);
    acc = acc + parts[3];
    lemma_all_concat(nodes, acc, parts[4]);
    acc = acc + parts[4];
    lemma_all_concat(nodes, acc, parts[5]);
    acc = acc + parts[5];
    lemma_all_concat(nodes, acc, parts[6]);
    acc = acc + parts[6];
    lemma_all_concat(nodes, acc, parts[7]);
    acc = acc + parts[7];
    lemma_all_concat(nodes, acc, parts[8]);
    acc = acc + parts[8];
    lemma_all_concat(nodes, acc, parts[9]);
    acc = acc + parts[9];
    lemma_all_concat(nodes, acc, parts[10]);
    acc = acc + parts[10];
    lemma_all_concat(nodes, acc, parts[11]);
    acc = acc + parts[11];
    lemma_all_concat(nodes, acc, parts[12]);
    acc = acc + parts[12];
    assert(acc == chain_hits(g, now));
    assert forall|i: int, k: int|
        0 <= i < chain_hits(g, now).len() && 0 <= k < chain_hits(g, now)[i].events.len()
            implies recorded(g.nodes, #[trigger] chain_hits(g, now)[i].events[k]) by {
        assert(cites_recorded(nodes, chain_hits(g, now)[i]));
    }
}

/// A fetch or a file write: a step of the fetch -> write -> execute chain.
pub open spec fn fwe_step(m: SessionEvent) -> bool {
    is_fetch(m) || m.capability == Capability::WriteFile
}

/// `id` is the id of a recorded node that satisfies `p` and comes at or
/// before `ts`.
pub open spec fn names_node(nodes: Seq<SessionEvent>, id: NodeId, p: spec_fn(SessionEvent) -> bool, ts: u64) -> bool {
    exists|j: int| 0 <= j < nodes.len() && #[trigger] nodes[j].id == id && p(nodes[j]) && nodes[j].ts <= ts
}

/// The shape of a fetch -> write -> execute hit: its rule and one of its two
/// severities; its last event names an Execute node, every other event a
/// fetch or a file write at or before it, with at least one fetch and one
/// write among them.
pub open spec fn fwe_shaped(nodes: Seq<SessionEvent>, h: HitView) -> bool {
    &&& h.rule_id == ChainRule::FetchWriteExecute.spec_id()
    &&& (h.severity == 95 || h.severity == 90)
    &&& h.events.len() >= 1
    &&& exists|x: int|
        0 <= x < nodes.len() && nodes[x].capability == Capability::Execute && #[trigger] nodes[x].id
            == h.events.last() && fwe_steps_before(nodes, h.events.drop_last(), nodes[x].ts)
}

/// Every id of `ids` names a fetch or a file write at or before `ts`; one
/// names a fetch and one a file write.
pub open spec fn fwe_steps_before(nodes: Seq<SessionEvent>, ids: Seq<NodeId>, ts: u64) -> bool {
    &&& forall|k: int| 0 <= k < ids.len() ==> names_node(nodes, #[trigger] ids[k], |m: SessionEvent| fwe_step(m), ts)
    &&& exists|k: int| 0 <= k < ids.len() && names_node(nodes, #[trigger] ids[k], |m: SessionEvent| is_fetch(m), ts)
    &&& exists|k: int|
        0 <= k < ids.len() && names_node(nodes, #[trigger] ids[k], |m: SessionEvent| m.capability == Capability::WriteFile, ts)
}

proof fn lemma_first_fetch_found(nodes: Seq<SessionEvent>, w: SessionEvent, k: int)
    ensures
        first_fetch(nodes, w, k) matches Some(p) ==> exists|j: int| 0 <= j < nodes.len() && #[trigger] nodes[j] == p && fetch_for(p, w),
    decreases nodes.len() - k,
{
    if 0 <= k < nodes.len() && !fetch_for(nodes[k], w) {
        lemma_first_fetch_found(nodes, w, k + 1);
    }
}

/// Ids selected at or before `ts` by a predicate that implies `q` name
/// nodes satisfying `q`, and a witness of the predicate is among them.
proof fn lemma_ids_before_named(nodes: Seq<SessionEvent>, ts: u64, p: spec_fn(SessionEvent) -> bool, q: spec_fn(SessionEvent) -> bool)
    requires
        forall|m: SessionEvent| #[trigger] p(m) ==> q(m),
    ensures
        forall|k: int| 0 <= k < ids_before(nodes, ts, p).len() ==> names_node(nodes, #[trigger] ids_before(nodes, ts, p)[k], q, ts),
{
    let f = select_fn(ts, p);
    let r = |id: NodeId| names_node(nodes, id, q, ts);
    assert forall|i: int, k: int| 0 <= i < nodes.len() && 0 <= k < f(nodes[i]).len() implies #[trigger] r(f(nodes[i])[k]) by {
        assert(f(nodes[i])[k] == nodes[i].id);
        assert(p(nodes[i]));
    }
    lemma_concat_map_all(nodes, f, r);
    assert forall|k: int| 0 <= k < ids_before(nodes, ts, p).len() implies names_node(nodes, #[trigger] ids_before(nodes, ts, p)[k], q, ts) by {
        assert(r(concat_map(nodes, f)[k]));
    }
}

/// A node selected by `ids_before` appears among its ids.
proof fn lemma_ids_before_has(nodes: Seq<SessionEvent>, ts: u64, p: spec_fn(SessionEvent) -> bool, j: int)
    requires
        0 <= j < nodes.len(),
        nodes[j].ts <= ts,
        p(nodes[j]),
    ensures
        exists|k: int| 0 <= k < ids_before(nodes, ts, p).len() && #[trigger] ids_before(nodes, ts, p)[k] == nodes[j].id,
{
    let f = select_fn(ts, p);
    assert(f(nodes[j])[0] == nodes[j].id);
    lemma_concat_map_contains(nodes, f, j, 0);
    let c = concat_map(nodes, f);
    assert(c.contains(nodes[j].id));
    let k = choose|k: int| 0 <= k < c.len() && c[k] == nodes[j].id;
    assert(ids_before(nodes, ts, p)[k] == nodes[j].id);
}

/// Pattern A over a prefix of the nodes yields shaped hits only.
proof fn lemma_fwe_shaped(nodes: Seq<SessionEvent>, k: int)
    requires
        k <= nodes.len(),
    ensures
        forall|i: int| 0 <= i < fwe_upto(nodes, k).len() ==> fwe_shaped(nodes, #[trigger] fwe_upto(nodes, k)[i]),
    decreases k,
{
    if k > 0 {
        lemma_fwe_shaped(nodes, k - 1);
        let prev = fwe_upto(nodes, k - 1);
        let e = nodes[k - 1];
        if e.capability == Capability::Execute {
            let f = fwe_write_fn(nodes, e);
            let sh = |h: HitView| fwe_shaped(nodes, h);
            assert forall|i: int, t: int| 0 <= i < nodes.len() && 0 <= t < f(nodes[i]).len() implies #[trigger] sh(f(nodes[i])[t]) by {
                let w = nodes[i];
                lemma_first_fetch_found(nodes, w, 0);
                let ft = first_fetch(nodes, w, 0)->Some_0;
                let h = ChainRule::FetchWriteExecute.hit(seq![ft.id, w.id, e.id]);
                assert(f(nodes[i])[t] == h);
                let ids = h.events.drop_last();
                assert(ids =~= seq![ft.id, w.id]);
                let j = choose|j: int| 0 <= j < nodes.len() && #[trigger] nodes[j] == ft && fetch_for(ft, w);
                assert(names_node(nodes, ids[0], |m: SessionEvent| is_fetch(m), e.ts)) by {
                    assert(nodes[j].id == ids[0]);
                }
                assert(names_node(nodes, ids[1], |m: SessionEvent| m.capability == Capability::WriteFile, e.ts)) by {
                    assert(nodes[i].id == ids[1]);
                }
                assert forall|q: int| 0 <= q < ids.len() implies names_node(nodes, #[trigger] ids[q], |m: SessionEvent| fwe_step(m), e.ts) by {
                    if q == 0 {
                        assert(nodes[j].id == ids[0]);
                    } else {
                        assert(nodes[i].id == ids[1]);
                    }
                }
                assert(nodes[k - 1].id == h.events.last());
                assert(fwe_shaped(nodes, h));
            }
            lemma_concat_map_all(nodes, f, sh);
            let phase1 = concat_map(nodes, f);
            let out1 = prev + phase1;
            assert forall|i: int| 0 <= i < out1.len() implies fwe_shaped(nodes, #[trigger] out1[i]) by {
                if i < prev.len() {
                    assert(out1[i] == prev[i]);
                } else {
                    assert(out1[i] == phase1[i - prev.len()]);
                    assert(sh(phase1[i - prev.len()]));
                }
            }
            if out1.len() == 0 && any_before(nodes, e.ts, |m: SessionEvent| is_fetch(m))
                && any_before(nodes, e.ts, |m: SessionEvent| temp_write(m)) {
                let p = |m: SessionEvent| fetch_or_temp_write(m);
                let ids = ids_before(nodes, e.ts, p);
                lemma_ids_before_named(nodes, e.ts, p, |m: SessionEvent| fwe_step(m));
                let j1 = choose|j: int| 0 <= j < nodes.len() && nodes[j].ts <= e.ts && #[trigger] is_fetch(nodes[j]);
                let j2 = choose|j: int| 0 <= j < nodes.len() && nodes[j].ts <= e.ts && #[trigger] temp_write(nodes[j]);
                assert((|m: SessionEvent| is_fetch(m))(nodes[j1]));
                lemma_ids_before_has(nodes, e.ts, p, j1);
                lemma_ids_before_has(nodes, e.ts, p, j2);
                let k1 = choose|q: int| 0 <= q < ids.len() && #[trigger] ids[q] == nodes[j1].id;
                let k2 = choose|q: int| 0 <= q < ids.len() && #[trigger] ids[q] == nodes[j2].id;
                assert(names_node(nodes, ids[k1], |m: SessionEvent| is_fetch(m), e.ts));
                assert(names_node(nodes, ids[k2], |m: SessionEvent| m.capability == Capability::WriteFile, e.ts));
                let h = fwe_temporal_hit(ids.push(e.id));
                assert(h.events.drop_last() =~= ids);
                assert(nodes[k - 1].id == h.events.last());
                assert(fwe_shaped(nodes, h));
                assert forall|i: int| 0 <= i < out1.push(h).len() implies fwe_shaped(nodes, #[trigger] out1.push(h)[i]) by {
                    if i < out1.len() {
                        assert(out1.push(h)[i] == out1[i]);
                    }
                }
            }
        }
    }
}

/// Every fetch -> write -> execute hit has the chain's shape: its rule id
/// is `chain-fetch-write-execute` and its severity 95 (shared artifact) or
/// 90 (temporal fallback); its last event is an Execute node, and the
/// events before it name fetches (NetworkFetch, BrowserDownload) and file
/// writes at or before that Execute, among them at least one fetch and one
/// write. These are the hits `detect_chains_at` reports first.
pub proof fn law_fetch_write_execute_hit_shape(g: GraphState, now: u64)
    ensures
        ChainRule::FetchWriteExecute.spec_id() == "chain-fetch-write-execute"@,
        fwe_hits(g) == chain_hits(g, now).take(fwe_hits(g).len() as int),
        forall|i: int|
            0 <= i < fwe_hits(g).len() ==> {
                &&& (#[trigger] fwe_hits(g)[i]).rule_id == ChainRule::FetchWriteExecute.spec_id()
                &&& fwe_hits(g)[i].severity == 95 || fwe_hits(g)[i].severity == 90
                &&& fwe_hits(g)[i].events.len() >= 1
                &&& exists|x: int|
                    0 <= x < g.nodes.len() && g.nodes[x].capability == Capability::Execute && #[trigger] g.nodes[x].id
                        == fwe_hits(g)[i].events.last() && fwe_steps_before(
                        g.nodes,
                        fwe_hits(g)[i].events.drop_last(),
                        g.nodes[x].ts,
                    )
            },
{
    lemma_fwe_shaped(g.nodes, g.nodes.len() as int);
    let a = fwe_hits(g);
    let rest = read_secret_hits(g) + browse_hits(g) + mcp_hits(g) + taint_leap_hits(g)
        + long_dwell_hits(g, now) + baseline_anomaly_hits(g) + capability_escalation_hits(g)
        + exec_via_make_or_npm_hits(g) + decode_then_execute_hits(g) + sensitive_outbound_hits(g)
        + config_poison_hits(g) + archive_unpack_hits(g);
    assert(chain_hits(g, now) =~= a + rest);
    assert((a + rest).take(a.len() as int) =~= a);
    assert forall|i: int| 0 <= i < a.len() implies fwe_shaped(g.nodes, #[trigger] a[i]) by {}
}

/// A file write to an AI-client or system config (asset class
/// `AiClientConfig` or `Config`) at or before an Execute or NetworkPost
/// makes the chain report `chain-config-poison-exec`, severity 85, citing
/// that Execute or NetworkPost.
pub proof fn law_config_write_then_exec_is_reported(g: GraphState, now: u64, i: int, j: int)
    requires
        0 <= i < g.nodes.len(),
        0 <= j < g.nodes.len(),
        g.nodes[i].capability == Capability::Execute || g.nodes[i].capability == Capability::NetworkPost,
        g.nodes[j].capability == Capability::WriteFile,
        g.nodes[j].asset == AssetClass::AiClientConfig || g.nodes[j].asset == AssetClass::Config,
        g.nodes[j].ts <= g.nodes[i].ts,
    ensures
        exists|k: int|
            0 <= k < chain_hits(g, now).len() && (#[trigger] chain_hits(g, now)[k]).rule_id == "chain-config-poison-exec"@
                && chain_hits(g, now)[k].severity == 85 && chain_hits(g, now)[k].events == seq![g.nodes[i].id],
{
    let nodes = g.nodes;
    let n = nodes[i];
    let p = |m: SessionEvent| config_write(m);
    assert(p(nodes[j]));
    assert(any_before(nodes, n.ts, p));
    let f = config_poison_fn(nodes);
    let h = ChainRule::ConfigPoisonExec.hit(seq![n.id]);
    assert(f(nodes[i])[0] == h);
    lemma_concat_map_contains(nodes, f, i, 0);
    let c = config_poison_hits(g);
    let t = choose|t: int| 0 <= t < c.len() && c[t] == h;
    let a = fwe_hits(g) + read_secret_hits(g) + browse_hits(g) + mcp_hits(g) + taint_leap_hits(g)
        + long_dwell_hits(g, now) + baseline_anomaly_hits(g) + capability_escalation_hits(g)
        + exec_via_make_or_npm_hits(g) + decode_then_execute_hits(g) + sensitive_outbound_hits(g);
    let z = archive_unpack_hits(g);
    assert(chain_hits(g, now) =~= a + c + z);
    assert((a + c + z)[a.len() + t] == h);
    assert(chain_hits(g, now)[a.len() + t] == h);
}

/// A tainted event scores at least 20 whether or not the baseline is
/// frozen; while the learning window is still open it scores exactly 20
/// (and an untainted one 0).
pub proof fn law_tainted_event_scores_twenty(g: GraphState, ev: SessionEvent)
    ensures
        ev.tainted ==> record_state(g, ev).last_anomaly_score >= 20,
        !g.baseline_finalized && sat_sub(ev.ts, g.session_start_ts) <= g.baseline_period_secs ==> record_state(
            g,
            ev,
        ).last_anomaly_score == (if ev.tainted { 20u32 } else { 0u32 }),
{
}

} // verus!

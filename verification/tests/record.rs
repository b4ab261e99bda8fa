use carapace::record::{truncate, LogEntry, SNIPPET_BYTES};

#[test]
fn short_text_is_kept_whole() {
    assert_eq!(truncate("hello", 5), "hello");
    assert_eq!(truncate("", 0), "");
}

#[test]
fn long_text_is_cut_and_marked() {
    assert_eq!(truncate("hello world", 5), "hello…");
    // "é" takes two bytes: cutting after it keeps it whole.
    assert_eq!(truncate("héllo", 3), "hé…");
}

#[test]
fn verdict_entry_keeps_a_cut_snippet() {
    let buffer = "x".repeat(600);
    let e = LogEntry::verdict(
        "2024-01-01T00:00:00Z".to_string(),
        "anthropic",
        "block",
        80,
        "injection".to_string(),
        Some("Bash".to_string()),
        true,
        &buffer,
    );
    assert_eq!(e.protocol, "anthropic");
    assert_eq!(e.mode, "block");
    assert_eq!(e.severity, 80);
    assert_eq!(e.tool_name, Some("Bash".to_string()));
    assert!(e.unsolicited_tool_use);
    assert_eq!(e.snippet.len(), SNIPPET_BYTES + '…'.len_utf8());
    assert!(e.snippet.ends_with('…'));
}

#[test]
fn note_entry_is_a_scan_record() {
    let e = LogEntry::note("t".to_string(), "openai", "probe sent");
    assert_eq!(e.ts, "t");
    assert_eq!(e.mode, "scan");
    assert_eq!(e.severity, 0);
    assert_eq!(e.categories, "probe sent");
    assert_eq!(e.tool_name, None);
    assert!(!e.unsolicited_tool_use);
    assert_eq!(e.snippet, "");
}

#[test]
fn cut_falls_back_to_the_last_character_boundary() {
    // "é" takes bytes 1..3: a cut at byte 2 keeps only "h".
    assert_eq!(truncate("héllo", 2), "h…");
    // A four-byte character that does not fit is dropped whole.
    assert_eq!(truncate("ab😀cd", 4), "ab…");
    let buffer = format!("{}é", "x".repeat(511));
    assert_eq!(truncate(&buffer, SNIPPET_BYTES), format!("{}…", "x".repeat(511)));
}

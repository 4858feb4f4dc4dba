use hume_editor::message_log::{MessageLog, ScratchView, Severity, MAX_ENTRIES};
use hume_editor::text::LineEnding;

fn make_log(entries: &[(Severity, &str)]) -> MessageLog {
    let mut log = MessageLog::new();
    for (sev, text) in entries {
        log.push(*sev, text.to_string());
    }
    log
}

#[test]
fn push_and_entries() {
    let log = make_log(&[
        (Severity::Warning, "first"),
        (Severity::Error,   "second"),
    ]);
    let entries = log.entries();
    assert_eq!(entries.len(), 2);
    assert_eq!(entries[0].text, "first");
    assert_eq!(entries[1].severity, Severity::Error);
}

#[test]
fn unseen_counts_initial() {
    let log = make_log(&[
        (Severity::Error,   "e1"),
        (Severity::Warning, "w1"),
        (Severity::Warning, "w2"),
        (Severity::Trace,   "t1"),
    ]);
    let (errors, warnings) = log.unseen_counts();
    assert_eq!(errors, 1);
    assert_eq!(warnings, 2);
    // Trace entries are not counted in the summary counts.
}

#[test]
fn has_unseen_empty_log() {
    let log = MessageLog::new();
    assert!(!log.has_unseen());
}

#[test]
fn mark_all_seen_clears_unseen() {
    let mut log = make_log(&[(Severity::Error, "e1"), (Severity::Warning, "w1")]);
    assert!(log.has_unseen());
    log.mark_all_seen();
    assert!(!log.has_unseen());
    let (e, w) = log.unseen_counts();
    assert_eq!((e, w), (0, 0));
}

#[test]
fn new_entries_after_mark_seen_become_unseen() {
    let mut log = make_log(&[(Severity::Error, "old")]);
    log.mark_all_seen();
    assert!(!log.has_unseen());

    log.push(Severity::Warning, "new".to_string());
    assert!(log.has_unseen());
    let (e, w) = log.unseen_counts();
    assert_eq!((e, w), (0, 1)); // only the new warning
}

#[test]
fn summary_text_none_when_all_seen() {
    let mut log = make_log(&[(Severity::Error, "e")]);
    log.mark_all_seen();
    assert!(log.summary_text().is_none());
}

#[test]
fn summary_text_errors_only() {
    let log = make_log(&[(Severity::Error, "e1"), (Severity::Error, "e2")]);
    assert_eq!(log.summary_text().unwrap(), "2 errors — :messages for details");
}

#[test]
fn summary_text_single_error() {
    let log = make_log(&[(Severity::Error, "e")]);
    assert_eq!(log.summary_text().unwrap(), "1 error — :messages for details");
}

#[test]
fn summary_text_warnings_only() {
    let log = make_log(&[(Severity::Warning, "w")]);
    assert_eq!(log.summary_text().unwrap(), "1 warning — :messages for details");
}

#[test]
fn summary_text_mixed() {
    let log = make_log(&[
        (Severity::Error, "e"),
        (Severity::Warning, "w1"),
        (Severity::Warning, "w2"),
    ]);
    assert_eq!(
        log.summary_text().unwrap(),
        "1 error, 2 warnings — :messages for details"
    );
}

#[test]
fn summary_text_trace_only() {
    let log = make_log(&[(Severity::Trace, "t1"), (Severity::Trace, "t2")]);
    assert!(log.summary_text().is_none());
}

#[test]
fn format_for_display_empty() {
    let log = MessageLog::new();
    assert_eq!(log.format_for_display(), "");
}

#[test]
fn format_for_display_prefixes() {
    let log = make_log(&[
        (Severity::Warning, "bad key"),
        (Severity::Error,   "crash"),
        (Severity::Trace,   "stack trace here"),
    ]);
    let out = log.format_for_display();
    let lines: Vec<&str> = out.lines().collect();
    assert_eq!(lines[0], "[warning] bad key");
    assert_eq!(lines[1], "[error] crash");
    assert_eq!(lines[2], "[trace] stack trace here");
}

#[test]
fn scratch_view_cursor_at_last_line() {
    // The scratch view should open with cursor on the last content line.
    let sv = ScratchView::from_text("line1\nline2\nline3\n", "[test]");
    // "line3" starts at char offset 12 (6 + 6).
    let head = sv.sels.primary().head;
    let text = sv.buf.to_string();
    let line_start = text[..text.char_indices()
        .nth(head)
        .map(|(i, _)| i)
        .unwrap_or(0)]
        .rfind('\n')
        .map(|i| i + 1)
        .unwrap_or(0);
    let line_content: String = text[line_start..].chars().take_while(|&c| c != '\n').collect();
    assert_eq!(line_content, "line3");
}

#[test]
fn push_respects_cap() {
    let mut log = MessageLog::new();
    // Push MAX_ENTRIES + 1 entries; the oldest should be evicted.
    for i in 0..=MAX_ENTRIES {
        log.push(Severity::Warning, format!("msg {i}"));
    }
    assert_eq!(log.entries().len(), MAX_ENTRIES);
    // The first entry should now be "msg 1" (msg 0 was evicted).
    let entries = log.entries();
    assert_eq!(entries[0].text, "msg 1");
    assert_eq!(entries[MAX_ENTRIES - 1].text, format!("msg {MAX_ENTRIES}"));
}

#[test]
fn push_cap_adjusts_seen_up_to() {
    let mut log = MessageLog::new();
    // Push MAX_ENTRIES entries and mark them all seen.
    for i in 0..MAX_ENTRIES {
        log.push(Severity::Warning, format!("msg {i}"));
    }
    log.mark_all_seen();
    assert!(!log.has_unseen());

    // Pushing one more evicts the oldest and shifts seen_up_to.
    log.push(Severity::Error, "overflow".to_string());
    // The new entry is unseen.
    assert!(log.has_unseen());
    let (e, w) = log.unseen_counts();
    assert_eq!((e, w), (1, 0));
}

#[test]
fn scratch_view_at_line_is_clamped() {
    let sv = ScratchView::from_text_at_line("a\nbb\nccc\n", "[test]", 1);
    assert_eq!(sv.sels.primary().head, 2);
    let sv = ScratchView::from_text_at_line("a\nbb\nccc\n", "[test]", 99);
    assert_eq!(sv.sels.primary().head, 5);
    assert_eq!(sv.label, "[test]");
}

#[test]
fn severity_labels() {
    assert_eq!(Severity::Info.label(), "info");
    assert_eq!(Severity::Trace.label(), "trace");
}

#[test]
fn scratch_views_know_their_line_ending() {
    let sv = ScratchView::from_text("a\r\nb\r\n", "[test]");
    assert_eq!(sv.buf.line_ending(), LineEnding::CrLf);
    assert_eq!(sv.buf.to_string(), "a\nb\n");
    let sv = ScratchView::from_text_at_line("a\r\nb\r\n", "[test]", 0);
    assert_eq!(sv.buf.line_ending(), LineEnding::CrLf);
    let sv = ScratchView::from_text_at_line("a\nb\n", "[test]", 0);
    assert_eq!(sv.buf.line_ending(), LineEnding::Lf);
}

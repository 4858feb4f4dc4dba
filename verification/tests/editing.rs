use hume_editor::buffer::{Buffer, EditResult};
use hume_editor::changeset::ChangeSetBuilder;
use hume_editor::dispatch::Mode;
use hume_editor::editing::{land, Landing};
use hume_editor::execute::{begin_command, finish_command, Plan};
use hume_editor::focus::Focus;
use hume_editor::grapheme::{next_grapheme_boundary, prev_grapheme_boundary};
use hume_editor::message_log::Severity;
use hume_editor::mouse::SCROLL_LINES;
use hume_editor::navigate::{cmd_pane_focus, page_count, view_row, ViewTarget};
use hume_editor::ops::Workspace;
use hume_editor::paste::{
    is_kill_command, is_paste_command, is_ring_cycle_command, surround_pair,
};
use hume_editor::auto_pairs::Pair;
use hume_editor::registers::{BLACK_HOLE_REGISTER, CLIPBOARD_REGISTER, KILL_RING_REGISTER};
use hume_editor::registry::CommandRegistry;
use hume_editor::search::MotionMode;
use hume_editor::selection::{Selection, SelectionSet};
use hume_editor::state::{EditorState, FindChar, FindKind, RegisterPrefix, RepeatableAction};
use hume_editor::text::{LineEnding, Text};

fn workspace(text: &str) -> Workspace {
    Workspace::new(Buffer::new(Text::from(text), SelectionSet::default()), 80, 24, 10)
}

fn focus(text: &str, anchor: usize, head: usize) -> Focus {
    let mut ws = workspace(text);
    ws.set_current_selections(SelectionSet::single(Selection::new(anchor, head)));
    ws.lift_focus()
}

fn text_of(f: &Focus) -> String {
    f.doc.text().to_string()
}

fn primary(f: &Focus) -> (usize, usize) {
    let s = f.here.selections.primary();
    (s.anchor, s.head)
}

/// Replaces characters of the text, and leaves a cursor there.
fn replace(f: &Focus, from: usize, to: usize, put: &str) -> EditResult {
    let t = f.doc.text();
    let cs = ChangeSetBuilder::new(t.len_chars())
        .retain(from)
        .delete(to - from)
        .insert(put)
        .retain_rest()
        .finish();
    let after = cs.apply(t).unwrap();
    (after, SelectionSet::single(Selection::collapsed(from)), cs)
}

/// Puts each text behind its selection.
fn put_after(t: Text, s: SelectionSet, values: Vec<String>) -> EditResult {
    let at = s.primary().end() + 1;
    let n = values[0].chars().count();
    let cs = ChangeSetBuilder::new(t.len_chars())
        .retain(at)
        .insert(&values[0])
        .retain_rest()
        .finish();
    let after = cs.apply(&t).unwrap();
    (after, SelectionSet::single(Selection::new(at, at + n - 1)), cs)
}

const OK: Result<(), String> = Ok(());

fn no_clip() -> Result<String, String> {
    Err("none".to_string())
}

// ── text ──────────────────────────────────────────────────────────────────────

#[test]
fn text_counts_lines_characters_and_bytes() {
    let t = Text::from("ä\r\nb");
    assert_eq!(t.to_string(), "ä\nb\n");
    assert_eq!(t.line_ending(), LineEnding::CrLf);
    assert_eq!(t.file_content(), "ä\r\nb\r\n");
    assert_eq!((t.len_chars(), t.len_bytes(), t.len_lines()), (4, 5, 3));
    assert_eq!(t.line_to_char(1), 2);
    assert_eq!(t.char_to_line(2), 1);
    assert_eq!(t.byte_to_char(2), 1);
    assert_eq!(t.char_at(2), Some('b'));
    assert_eq!(t.char_at(9), None);
    let mut t = Text::from("ac\n");
    t.insert(1, "b");
    assert_eq!(t.to_string(), "abc\n");
    let copy = t.clone();
    t.remove(0, 2);
    assert_eq!(t.to_string(), "c\n");
    assert_eq!(copy.to_string(), "abc\n");
    assert_eq!(Text::empty().to_string(), "\n");
}

#[test]
fn boundaries_of_graphemes() {
    let t = Text::from("ae\u{301}b\n");
    assert_eq!(next_grapheme_boundary(&t, 1), 3);
    assert_eq!(prev_grapheme_boundary(&t, 3), 1);
    assert_eq!(prev_grapheme_boundary(&t, 0), 0);
    assert_eq!(Selection::collapsed(1).end_inclusive(&t), 2);
    assert_eq!(next_grapheme_boundary(&t, 2), 3);
    // From the middle of a flag its end is next, not that of a pair of halves.
    let t = Text::from("x\n\u{1F1E6}\u{1F1E7}\u{1F1E8}\u{1F1E9}\n");
    assert_eq!(next_grapheme_boundary(&t, 2), 4);
    assert_eq!(next_grapheme_boundary(&t, 3), 4);
    assert_eq!(next_grapheme_boundary(&t, 6), 7);
    assert_eq!(next_grapheme_boundary(&t, 9), 7);
}

#[test]
fn cursors_land_where_asked() {
    let t = Text::from("ab cd\n");
    let s = SelectionSet::single(Selection::new(4, 1));
    assert_eq!(land(&t, &s, Landing::Start).primary().head, 1);
    assert_eq!(land(&t, &s, Landing::Head).primary().head, 1);
    assert_eq!(land(&t, &s, Landing::EndInclusive).primary().head, 4);
    assert_eq!(land(&t, &s, Landing::Behind).primary().head, 5);
    assert_eq!(land(&t, &s, Landing::StepBack).primary().head, 0);
}

#[test]
fn overlapping_selections_are_merged() {
    let s = SelectionSet::from_vec(
        vec![Selection::new(4, 6), Selection::new(0, 2), Selection::new(2, 3)],
        0,
    );
    let m = s.merge_overlapping();
    assert_eq!(m.len(), 2);
    assert_eq!((m.get(0).start(), m.get(0).end()), (0, 3));
    assert_eq!(m.primary().start(), 4);
}

// ── editing ───────────────────────────────────────────────────────────────────

#[test]
fn edits_are_undone_and_redone() {
    let mut f = focus("hello\n", 0, 0);
    let e = replace(&f, 0, 1, "J");
    f.apply_edit(e);
    assert_eq!(text_of(&f), "Jello\n");
    f.cmd_undo();
    assert_eq!(text_of(&f), "hello\n");
    f.cmd_redo();
    assert_eq!(text_of(&f), "Jello\n");
    f.cmd_redo();
    assert_eq!(text_of(&f), "Jello\n");
}

#[test]
fn focus_is_lifted_and_put_back() {
    let mut ws = workspace("abc\n");
    let mut f = ws.lift_focus();
    let e = replace(&f, 0, 1, "x");
    f.apply_edit(e);
    ws.put_focus(f);
    assert_eq!(ws.doc().text().to_string(), "xbc\n");
}

#[test]
fn an_insert_session_is_one_step() {
    let mut f = focus("abc\n", 1, 1);
    let mut s = EditorState::new(false);
    f.cmd_insert_before(&mut s);
    assert_eq!(s.modal.keys.mode, Mode::Insert);
    for c in ["x", "y"] {
        let e = replace(&f, 1, 1, c);
        f.apply_edit_grouped(e);
    }
    assert_eq!(text_of(&f), "ayxbc\n");
    f.cmd_exit_insert(&mut s);
    assert_eq!(s.modal.keys.mode, Mode::Normal);
    f.cmd_undo();
    assert_eq!(text_of(&f), "abc\n");
}

#[test]
fn appending_steps_back_when_it_ends() {
    let mut f = focus("abc\n", 1, 1);
    let mut s = EditorState::new(false);
    let moved = SelectionSet::single(Selection::collapsed(3));
    f.cmd_insert_at_line_end(&mut s, moved);
    assert!(s.insert_session.as_ref().unwrap().step_back_on_exit);
    f.cmd_exit_insert(&mut s);
    assert_eq!(primary(&f), (2, 2));
    let moved = SelectionSet::single(Selection::collapsed(1));
    f.cmd_insert_after(&mut s, moved);
    f.cmd_exit_insert(&mut s);
    assert_eq!(primary(&f), (0, 0));
    let mut f = focus("abc\n", 0, 1);
    f.cmd_insert_at_selection_end(&mut s);
    assert_eq!(primary(&f), (2, 2));
    f.cmd_exit_insert(&mut s);
    let mut f = focus("abc\n", 2, 1);
    f.cmd_insert_at_selection_start(&mut s);
    assert_eq!(primary(&f), (1, 1));
}

#[test]
fn appending_again_returns_to_the_same_place() {
    for at in [0, 1, 3] {
        let mut f = focus("ae\u{301}b\nc\n", at, at);
        let mut s = EditorState::new(false);
        f.cmd_insert_at_selection_end(&mut s);
        let there = primary(&f);
        f.cmd_exit_insert(&mut s);
        assert_eq!(primary(&f), (at, at));
        f.cmd_insert_at_selection_end(&mut s);
        assert_eq!(primary(&f), there);
    }
}

#[test]
fn opened_lines_are_part_of_the_session() {
    let mut f = focus("abc\n", 0, 0);
    let mut s = EditorState::new(false);
    let at = SelectionSet::single(Selection::collapsed(3));
    let opened = replace(&f, 3, 3, "\n");
    f.cmd_open_line_below(&mut s, at, opened);
    assert_eq!(text_of(&f), "abc\n\n");
    assert_eq!(s.modal.keys.mode, Mode::Insert);
    f.cmd_exit_insert(&mut s);
    f.cmd_undo();
    assert_eq!(text_of(&f), "abc\n");
}

#[test]
fn typed_keys_belong_to_the_repeated_command() {
    let mut f = focus("abc\n", 0, 0);
    let mut s = EditorState::new(false);
    s.last_repeatable_action = Some(RepeatableAction {
        command: "insert-before".to_string(),
        count: 1,
        char_arg: None,
        insert_keys: vec![],
    });
    f.cmd_insert_before(&mut s);
    let key = hume_editor::keys::char_key('x');
    s.insert_session.as_mut().unwrap().keystrokes.push(key);
    f.cmd_exit_insert(&mut s);
    assert_eq!(s.last_repeatable_action.unwrap().insert_keys, vec![key]);
}

#[test]
fn extend_mode_is_switched_and_left() {
    let mut s = EditorState::new(false);
    s.cmd_toggle_extend();
    assert_eq!(s.modal.keys.mode, Mode::Extend);
    s.cmd_toggle_extend();
    assert_eq!(s.modal.keys.mode, Mode::Normal);
    let mut f = focus("abc\n", 0, 2);
    f.cmd_collapse_and_exit_extend(&mut s);
    assert_eq!(primary(&f), (2, 2));
    s.cmd_quit();
    assert!(s.should_quit);
    s.cmd_repeat(3);
    assert_eq!(s.pending_repeat, None);
    s.last_repeatable_action = Some(RepeatableAction {
        command: "delete".to_string(),
        count: 2,
        char_arg: None,
        insert_keys: vec![],
    });
    s.cmd_repeat(3);
    assert_eq!(s.pending_repeat, Some(2));
    s.modal.keys.explicit_count = true;
    s.cmd_repeat(3);
    assert_eq!(s.pending_repeat, Some(3));
}

#[test]
fn a_repeated_insertion_is_one_step() {
    let mut f = focus("abc\n", 2, 2);
    let mut s = EditorState::new(false);
    let key = hume_editor::keys::char_key('x');
    s.last_repeatable_action = Some(RepeatableAction {
        command: "insert-at-line-start".to_string(),
        count: 1,
        char_arg: Some('z'),
        insert_keys: vec![key],
    });
    assert!(f.begin_repeat(&mut s).is_none());
    s.cmd_repeat(1);
    let (action, count) = f.begin_repeat(&mut s).unwrap();
    assert_eq!((action.command.as_str(), count), ("insert-at-line-start", 1));
    assert_eq!(s.modal.keys.pending_char, Some('z'));
    let moved = SelectionSet::single(Selection::collapsed(0));
    f.cmd_insert_at_line_start(&mut s, moved);
    assert!(s.insert_session.is_none());
    for _ in &action.insert_keys {
        let e = replace(&f, 0, 0, "x");
        f.apply_edit_grouped(e);
    }
    f.end_repeat(&mut s, action);
    assert_eq!(text_of(&f), "xabc\n");
    assert_eq!(s.modal.keys.mode, Mode::Normal);
    assert_eq!(s.last_repeatable_action.as_ref().unwrap().insert_keys, vec![key]);
    f.cmd_undo();
    assert_eq!(text_of(&f), "abc\n");
    assert_eq!(primary(&f), (2, 2));
}

#[test]
fn a_repeated_edit_stands_alone() {
    let mut f = focus("abc\n", 0, 0);
    let mut s = EditorState::new(false);
    s.last_repeatable_action = Some(RepeatableAction {
        command: "delete".to_string(),
        count: 1,
        char_arg: None,
        insert_keys: vec![],
    });
    s.cmd_repeat(1);
    let (action, _) = f.begin_repeat(&mut s).unwrap();
    let e = replace(&f, 0, 1, "");
    f.cmd_delete(&mut s, &OK, e);
    f.end_repeat(&mut s, action);
    assert_eq!(text_of(&f), "bc\n");
    assert!(s.repeat_from.is_none() && s.last_repeatable_action.is_some());
    f.cmd_undo();
    assert_eq!(text_of(&f), "abc\n");
}

// ── yank, kill and paste ──────────────────────────────────────────────────────

#[test]
fn kinds_of_commands() {
    assert!(is_kill_command("delete") && is_kill_command("change"));
    assert!(is_paste_command("paste-after") && is_paste_command("paste-before"));
    assert!(is_ring_cycle_command("paste-ring-older"));
    assert!(!is_kill_command("yank") && !is_paste_command("delete"));
    let pairs = vec![Pair { open: '(', close: ')' }];
    assert_eq!(surround_pair(&pairs, '('), ('(', ')'));
    assert_eq!(surround_pair(&pairs, ')'), ('(', ')'));
    assert_eq!(surround_pair(&pairs, '*'), ('*', '*'));
}

#[test]
fn yanks_go_to_the_clipboard_or_the_named_register() {
    let f = focus("abc\n", 0, 1);
    let mut s = EditorState::new(false);
    f.cmd_yank(&mut s, &OK);
    assert_eq!(s.registers.read_text(CLIPBOARD_REGISTER), Some(&vec!["ab".to_string()]));
    s.register_prefix = Some(RegisterPrefix::Selected('3'));
    f.cmd_yank(&mut s, &OK);
    assert_eq!(s.registers.read_text('3'), Some(&vec!["ab".to_string()]));
    assert!(s.register_prefix.is_none());
    f.cmd_yank(&mut s, &Err("gone".to_string()));
    assert_eq!(
        s.messages.status_msg.as_deref(),
        Some("system clipboard unavailable (gone), using in-memory 'c'")
    );
}

#[test]
fn kills_go_to_the_ring_and_come_back() {
    let mut f = focus("abcd\n", 0, 0);
    let mut s = EditorState::new(false);
    for (from, name) in [(0, "a"), (0, "b")] {
        let e = replace(&f, from, from + 1, "");
        f.cmd_delete(&mut s, &OK, e);
        assert_eq!(s.kill_ring.head(), Some(&vec![name.to_string()]));
    }
    assert_eq!(text_of(&f), "cd\n");
    s.last_command = Some("delete".to_string());
    f.cmd_paste_after(&mut s, &Ok("sys".to_string()), put_after);
    assert_eq!(text_of(&f), "cbd\n");
    s.last_command = Some("paste-after".to_string());
    f.cmd_paste_ring_older(&mut s, put_after);
    assert_eq!(text_of(&f), "cad\n");
    f.cmd_paste_ring_newer(&mut s, put_after);
    assert_eq!(text_of(&f), "cbd\n");
    f.commit_paste_group();
    f.cmd_undo();
    assert_eq!(text_of(&f), "cd\n");
}

#[test]
fn pastes_come_from_the_clipboard_or_the_named_register() {
    let mut f = focus("ab\n", 0, 0);
    let mut s = EditorState::new(false);
    f.cmd_paste_after(&mut s, &Ok("X".to_string()), put_after);
    assert_eq!(text_of(&f), "aXb\n");
    f.commit_paste_group();
    s.registers.write_text('3', vec!["Y".to_string()]);
    s.register_prefix = Some(RegisterPrefix::Selected('3'));
    f.cmd_paste_after(&mut s, &no_clip(), put_after);
    assert_eq!(text_of(&f), "aXYb\n");
    f.commit_paste_group();
    s.register_prefix = Some(RegisterPrefix::Selected(BLACK_HOLE_REGISTER));
    f.cmd_paste_after(&mut s, &Ok("Z".to_string()), put_after);
    assert_eq!(text_of(&f), "aXYb\n");
}

#[test]
fn paste_sources() {
    let mut s = EditorState::new(false);
    assert!(s.resolve_paste_values(&no_clip()).is_none());
    assert!(s.messages.status_msg.is_some());
    s.kill_ring.push(vec!["k".to_string()]);
    let (v, origin) = s.resolve_paste_values(&no_clip()).unwrap();
    assert_eq!((v, origin), (vec!["k".to_string()], Some(0)));
    s.register_prefix = Some(RegisterPrefix::Selected(KILL_RING_REGISTER));
    let (v, origin) = s.resolve_paste_values(&Ok("c".to_string())).unwrap();
    assert_eq!((v, origin), (vec!["k".to_string()], Some(0)));
    let (v, origin) = s.resolve_paste_values(&Ok("c".to_string())).unwrap();
    assert_eq!((v, origin), (vec!["c".to_string()], None));
}

#[test]
fn read_only_buffers_refuse_insert_mode_with_a_warning() {
    let mut f = focus("ab\n", 0, 0);
    f.doc.read_only = true;
    let mut s = EditorState::new(false);
    f.begin_insert_session(&mut s);
    assert_eq!(s.modal.keys.mode, Mode::Normal);
    assert!(s.insert_session.is_none());
    assert!(f.here.edit_group.is_none());
    assert_eq!(s.messages.status_msg.as_deref(), Some("Buffer is read-only"));
    let logged = s.messages.log.entries();
    assert_eq!(logged.len(), 1);
    assert_eq!(logged[0].severity, Severity::Warning);
    assert_eq!(logged[0].text, "Buffer is read-only");
}

#[test]
fn read_only_buffers_refuse_pastes() {
    let mut f = focus("ab\n", 0, 0);
    f.doc.read_only = true;
    let mut s = EditorState::new(false);
    f.cmd_paste_after(&mut s, &Ok("X".to_string()), put_after);
    assert_eq!(text_of(&f), "ab\n");
    assert_eq!(s.messages.status_msg.as_deref(), Some("Buffer is read-only"));
}

#[test]
fn open_pastes_are_closed_in_all_panes() {
    let mut ws = workspace("ab\n");
    let mut f = ws.lift_focus();
    let mut s = EditorState::new(false);
    f.cmd_paste_after(&mut s, &Ok("X".to_string()), put_after);
    assert!(f.here.paste_group.is_some());
    ws.put_focus(f);
    ws.commit_paste_session();
    assert!(ws.pane_state().paste_group.is_none());
    let mut f = ws.lift_focus();
    f.cmd_undo();
    assert_eq!(text_of(&f), "ab\n");
}

// ── running commands ──────────────────────────────────────────────────────────

#[test]
fn jumps_are_kept_for_jump_commands() {
    let reg = CommandRegistry::with_defaults();
    let mut f = focus("a\nb\nc\nd\ne\nf\ng\nh\n", 0, 0);
    let mut s = EditorState::new(false);
    let departure = match begin_command(&f, &mut s, &reg, "goto-last-line") {
        Plan::Native { departure } => departure,
        _ => panic!("expected a native command"),
    };
    f.select(SelectionSet::single(Selection::collapsed(14)));
    let cmd = reg.get_mappable("goto-last-line").unwrap();
    finish_command(&mut f, &mut s, cmd, "goto-last-line", 1, None, departure, 5);
    let here = f.jump_entry();
    let back = f.jumps.backward(here).unwrap();
    assert_eq!(back.selections.primary().head, 0);
    assert_eq!(s.last_command.as_deref(), Some("goto-last-line"));
}

#[test]
fn unknown_commands_are_reported() {
    let reg = CommandRegistry::with_defaults();
    let f = focus("a\n", 0, 0);
    let mut s = EditorState::new(false);
    assert!(matches!(begin_command(&f, &mut s, &reg, "nope"), Plan::Unknown));
    assert_eq!(s.messages.status_msg.as_deref(), Some("unknown command: nope"));
}

/// Goes to the next character of that kind.
fn next_char(
    t: &Text,
    s: SelectionSet,
    _mode: MotionMode,
    _count: usize,
    what: FindChar,
) -> SelectionSet {
    let from = s.primary().head + 1;
    let at = (from..t.len_chars()).find(|i| t.char_at(*i) == Some(what.ch));
    match at {
        Some(i) => SelectionSet::single(Selection::collapsed(i)),
        None => s,
    }
}

#[test]
fn finding_characters_is_remembered() {
    let mut f = focus("abcb\n", 0, 0);
    let mut s = EditorState::new(false);
    f.repeat_find(&s, 1, MotionMode::Move, next_char);
    assert_eq!(primary(&f), (0, 0));
    f.find_char(&mut s, 1, MotionMode::Move, FindKind::Inclusive, next_char);
    assert_eq!(primary(&f), (0, 0));
    s.modal.keys.pending_char = Some('b');
    f.find_char(&mut s, 1, MotionMode::Move, FindKind::Inclusive, next_char);
    assert_eq!(primary(&f), (1, 1));
    assert_eq!(s.modal.keys.pending_char, None);
    assert_eq!(s.last_find, Some(FindChar { ch: 'b', kind: FindKind::Inclusive }));
    f.repeat_find(&s, 1, MotionMode::Move, next_char);
    assert_eq!(primary(&f), (3, 3));
}

/// Puts texts around the primary selection, which they replace or leave.
fn around(t: Text, s: &SelectionSet, keep: bool, open: char, close: &str) -> EditResult {
    let (from, to) = (s.primary().start(), s.primary().end() + 1);
    let b = ChangeSetBuilder::new(t.len_chars()).retain(from).insert(&open.to_string());
    let b = if keep { b.retain(to - from) } else { b.delete(to - from) };
    let cs = b.insert(close).retain_rest().finish();
    let after = cs.apply(&t).unwrap();
    (after, SelectionSet::single(Selection::collapsed(from)), cs)
}

#[test]
fn characters_replace_and_surround() {
    let mut f = focus("abc\n", 1, 1);
    let mut s = EditorState::new(false);
    let pairs = vec![Pair { open: '(', close: ')' }];
    f.cmd_replace(&mut s, |t, s, c| around(t, &s, false, c, ""));
    assert_eq!(text_of(&f), "abc\n");
    s.modal.keys.pending_char = Some('x');
    f.cmd_replace(&mut s, |t, s, c| around(t, &s, false, c, ""));
    assert_eq!(text_of(&f), "axc\n");
    assert_eq!(s.modal.keys.pending_char, None);
    s.modal.keys.pending_char = Some(')');
    f.cmd_surround_add(&mut s, &pairs, |t, s, p| around(t, &s, true, p.0, &p.1.to_string()));
    assert_eq!(text_of(&f), "a(x)c\n");
    f.doc.read_only = true;
    s.modal.keys.pending_char = Some(')');
    f.cmd_surround_add(&mut s, &pairs, |t, s, p| around(t, &s, true, p.0, &p.1.to_string()));
    assert_eq!(text_of(&f), "a(x)c\n");
}

#[test]
fn pages_and_rows() {
    assert_eq!(page_count(24, false), 24);
    assert_eq!(page_count(24, true), 12);
    assert_eq!(page_count(0, true), 1);
    assert_eq!(view_row(ViewTarget::Top, 24), 0);
    assert_eq!(view_row(ViewTarget::Center, 24), 12);
    assert_eq!(view_row(ViewTarget::Bottom, 24), 23);
    assert_eq!(SCROLL_LINES, 3);
    assert!(cmd_pane_focus().is_err());
}

#[test]
fn clicks_leave_insert_mode() {
    let mut f = focus("abc\n", 0, 2);
    let mut s = EditorState::new(false);
    let mut anchor = None;
    f.cmd_insert_before(&mut s);
    s.modal.keys.count = Some(4);
    f.mouse_left_down(&mut s, &mut anchor, Some(1));
    assert_eq!(s.modal.keys.mode, Mode::Normal);
    assert_eq!(s.modal.keys.count, None);
    assert_eq!(primary(&f), (1, 1));
    assert_eq!(anchor, Some(1));
    f.mouse_left_drag(&anchor, Some(3));
    assert_eq!(primary(&f), (1, 3));
    f.mouse_left_drag(&None, Some(0));
    assert_eq!(primary(&f), (1, 3));
    f.mouse_left_down(&mut s, &mut anchor, None);
    assert_eq!(primary(&f), (1, 3));
}

#[test]
fn changing_deletes_and_inserts_in_one_step() {
    let mut f = focus("abc\n", 0, 1);
    let mut s = EditorState::new(false);
    let e = replace(&f, 0, 2, "");
    f.cmd_change(&mut s, &OK, e);
    assert_eq!(s.modal.keys.mode, Mode::Insert);
    assert_eq!(s.kill_ring.head(), Some(&vec!["ab".to_string()]));
    let e = replace(&f, 0, 0, "X");
    f.apply_edit_grouped(e);
    f.cmd_exit_insert(&mut s);
    assert_eq!(text_of(&f), "Xc\n");
    f.cmd_undo();
    assert_eq!(text_of(&f), "abc\n");
}

#[test]
fn lines_are_opened_above() {
    let mut f = focus("abc\n", 2, 2);
    let mut s = EditorState::new(false);
    let at = SelectionSet::single(Selection::collapsed(0));
    let opened = replace(&f, 0, 0, "\n");
    let back = SelectionSet::single(Selection::collapsed(0));
    f.cmd_open_line_above(&mut s, at, opened, back);
    assert_eq!(text_of(&f), "\nabc\n");
    assert_eq!(primary(&f), (0, 0));
}

#[test]
fn pasting_before() {
    let mut f = focus("ab\n", 1, 1);
    let mut s = EditorState::new(false);
    f.cmd_paste_before(&mut s, &Ok("X".to_string()), |t, s, v| {
        let at = s.primary().start();
        let cs = ChangeSetBuilder::new(t.len_chars())
            .retain(at)
            .insert(&v[0])
            .retain_rest()
            .finish();
        let after = cs.apply(&t).unwrap();
        (after, SelectionSet::single(Selection::collapsed(at)), cs)
    });
    assert_eq!(text_of(&f), "aXb\n");
    assert!(f.here.paste_before);
}

#[test]
fn places_of_the_cursor() {
    let f = focus("ab\ncd\n", 0, 4);
    assert_eq!(f.current_line_number(), 2);
    assert_eq!(f.cursor_char_index(), 4);
}

#[test]
fn views_are_refreshed() {
    let mut b = Buffer::read_only_view(Text::from("old\n"), "[x]".to_string());
    let gen = b.text_gen();
    b.set_view_content(Text::from("new\n"));
    assert_eq!(b.text().to_string(), "new\n");
    assert_eq!(b.text_gen(), gen + 1);
    assert!(!b.is_dirty() && !b.can_undo());
    let mut f = focus("abc\n", 0, 0);
    let before = f.doc.revision_id();
    let e = replace(&f, 0, 1, "");
    f.apply_edit(e);
    assert!(f.doc.revision_id() != before);
}

use hume_editor::buffer::{Buffer, FileMeta, WrapMode};
use hume_editor::keymap::{BindMode, Keymap};
use hume_editor::keymap_names::{all_command_names, lint_keymap, sort_texts};
use hume_editor::keys::char_key;
use hume_editor::message_log::Severity;
use hume_editor::messages::Messages;
use hume_editor::ops::Workspace;
use hume_editor::pane_state::{Scroll, Viewport};
use hume_editor::paths::{FilePath, Separators};
use hume_editor::registry::CommandRegistry;
use hume_editor::selection::SelectionSet;
use hume_editor::state::EditorState;
use hume_editor::text::Text;
use hume_editor::typed_buffers::{find_buffer_by_path_arg, resolve_buffer_arg, warn_if_file_gone};
use hume_editor::typed_files::{
    check_writable, file_written, file_written_as, typed_cd, typed_quit, typed_quit_all,
    typed_toggle_soft_wrap, typed_write_quit, write_msg, written_content,
};
use hume_editor::typed_misc::{
    color_str, scope_chain, setting_effect, typed_list_buffers, typed_messages,
    typed_plugin_status, typed_pwd, typed_set, typed_split, typed_theme, typed_theme_debug,
    typed_version, warn_unregistered_language, ScopeStyle, SetRequest, SettingEffect,
    SettingScope, ThemeColor,
};

const SLASH: Separators = Separators::Slash;

fn at(path: &str) -> FilePath {
    FilePath::new(path.to_string(), SLASH)
}

fn meta(path: &str) -> FileMeta {
    FileMeta { resolved_path: at(path) }
}

fn workspace() -> Workspace {
    Workspace::new(Buffer::from_file("one\n", meta("/w/one.txt")), 80, 24, 10)
}

fn two() -> Workspace {
    let mut ws = workspace();
    ws.open_buffer(Buffer::from_file("two\n", meta("/w/two.txt")));
    ws
}

fn dirty(ws: &mut Workspace) {
    let mut f = ws.lift_focus();
    let n = f.doc.text().len_chars();
    let cs = hume_editor::changeset::ChangeSetBuilder::new(n).insert("x").retain_rest().finish();
    let t = cs.apply(f.doc.text()).unwrap();
    f.apply_edit((t, SelectionSet::default(), cs));
    ws.put_focus(f);
}

fn err<T: std::fmt::Debug>(r: Result<T, hume_editor::messages::CommandError>) -> String {
    r.unwrap_err().message().to_string()
}

fn status(m: &Messages) -> &str {
    m.status_msg.as_deref().unwrap_or("")
}

// ── buffers ───────────────────────────────────────────────────────────────────

#[test]
fn absolute_paths_are_told_by_the_separators() {
    let both = Separators::SlashAndBackslash;
    let ws = two();
    let ids = ws.buffers.ids();
    let arg = "C:\\w\\two.txt";
    assert_eq!(resolve_buffer_arg(&ws.buffers, Some(ids[1]), arg, both).unwrap(), ids[1]);
    let e = err(resolve_buffer_arg(&ws.buffers, None, arg, both));
    assert_eq!(e, "C:\\w\\two.txt: not an open buffer");
    let e = err(resolve_buffer_arg(&ws.buffers, Some(ids[1]), arg, SLASH));
    assert_eq!(e, "no buffer matching 'C:\\w\\two.txt'");
}

#[test]
fn buffers_are_found_by_number_name_and_prefix() {
    let ws = two();
    let ids = ws.buffers.ids();
    let find = |arg: &str| resolve_buffer_arg(&ws.buffers, None, arg, SLASH);
    assert_eq!(find("1").unwrap(), ids[0]);
    assert_eq!(find("2").unwrap(), ids[1]);
    assert_eq!(err(find("3")), "no buffer at index 3");
    assert_eq!(err(find("0")), "no buffer at index 0");
    assert_eq!(find("two.txt").unwrap(), ids[1]);
    assert_eq!(find("tw").unwrap(), ids[1]);
    assert_eq!(err(find("zzz")), "no buffer matching 'zzz'");
    assert_eq!(err(find("/x")), "/x: not an open buffer");
    assert_eq!(resolve_buffer_arg(&ws.buffers, Some(ids[1]), "/w/two.txt", SLASH).unwrap(), ids[1]);
    assert_eq!(find_buffer_by_path_arg(&ws.buffers, Some("/w/two.txt"), None), Some(ids[1]));
    assert_eq!(find_buffer_by_path_arg(&ws.buffers, None, Some("/w/one.txt")), Some(ids[0]));
    assert_eq!(find_buffer_by_path_arg(&ws.buffers, None, None), None);
}

#[test]
fn ambiguous_names_are_refused() {
    let mut ws = workspace();
    ws.open_buffer(Buffer::from_file("x\n", meta("/v/one.txt")));
    ws.open_buffer(Buffer::from_file("x\n", meta("/v/only.txt")));
    let e = err(resolve_buffer_arg(&ws.buffers, None, "one.txt", SLASH));
    assert!(e.starts_with("ambiguous buffer name 'one.txt': "), "{e}");
    let e = err(resolve_buffer_arg(&ws.buffers, None, "on", SLASH));
    assert!(e.starts_with("ambiguous prefix 'on': "), "{e}");
}

#[test]
fn buffers_are_cycled_through() {
    let mut ws = two();
    let ids = ws.buffers.ids();
    ws.typed_bnext();
    assert_eq!(ws.focused_buffer_id(), ids[1]);
    ws.typed_bnext();
    assert_eq!(ws.focused_buffer_id(), ids[0]);
    ws.typed_bprev();
    assert_eq!(ws.focused_buffer_id(), ids[1]);
    assert_eq!(ws.typed_buffer(Some("one"), None, SLASH).unwrap(), ids[0]);
    assert_eq!(ws.focused_buffer_id(), ids[0]);
    assert_eq!(err(ws.typed_buffer(None, None, SLASH)), "usage: :b <name|#|index>");
    ws.cmd_jump_backward();
    assert_eq!(ws.focused_buffer_id(), ids[1]);
    ws.cmd_jump_forward();
    assert_eq!(ws.focused_buffer_id(), ids[0]);
    let mut m = Messages::new();
    ws.cmd_goto_alternate_file(&mut m);
    assert_eq!(ws.focused_buffer_id(), ids[1]);
    let mut lone = workspace();
    lone.cmd_goto_alternate_file(&mut m);
    assert_eq!(status(&m), "No alternate buffer");
}

#[test]
fn the_alternate_buffer_is_the_one_used_before() {
    let mut ws = two();
    ws.open_buffer(Buffer::from_file("three\n", meta("/w/three.txt")));
    let ids = ws.buffers.ids();
    let mut m = Messages::new();
    ws.typed_buffer(Some("three.txt"), None, SLASH).unwrap();
    ws.typed_buffer(Some("one.txt"), None, SLASH).unwrap();
    ws.cmd_goto_alternate_file(&mut m);
    assert_eq!(ws.focused_buffer_id(), ids[2]);
    ws.cmd_goto_alternate_file(&mut m);
    assert_eq!(ws.focused_buffer_id(), ids[0]);
    // Closing turns to it too.
    ws.typed_buffer_delete(false).unwrap();
    assert_eq!(ws.focused_buffer_id(), ids[2]);
}

#[test]
fn files_that_are_gone_are_warned_of() {
    let ws = workspace();
    let mut m = Messages::new();
    warn_if_file_gone(ws.doc(), &mut m, false);
    assert_eq!(status(&m), "");
    warn_if_file_gone(ws.doc(), &mut m, true);
    assert!(status(&m).ends_with(": file no longer exists on disk"));
}

// ── files ─────────────────────────────────────────────────────────────────────

#[test]
fn files_are_opened_once() {
    let mut ws = workspace();
    let first = ws.focused_buffer_id();
    let mut m = Messages::new();
    let two = "/w/two.txt".to_string();
    let id = ws
        .typed_edit(
            &mut m, "two.txt", Ok(at(&two)), Some("/w/two.txt"),
            Ok(("two\n".to_string(), meta("/w/two.txt"))),
        )
        .unwrap();
    assert_eq!(ws.focused_buffer_id(), id);
    assert_eq!(status(&m), "Opened two.txt");
    let back = ws
        .typed_edit(&mut m, "one.txt", Ok(at("/w/one.txt")), None, Err("x".to_string()))
        .unwrap();
    assert_eq!(back, first);
    let e = ws.typed_edit(&mut m, "no", Err("not found".to_string()), None, Err("x".to_string()));
    assert_eq!(err(e), "no: not found");
    let e = ws.typed_edit(&mut m, "no", Ok(at("/no")), None, Err("denied".to_string()));
    assert_eq!(err(e), "no: denied");
}

#[test]
fn reloading_needs_force_over_changes() {
    let mut ws = workspace();
    let mut m = Messages::new();
    let read = || Ok(("new\n".to_string(), meta("/w/one.txt")));
    dirty(&mut ws);
    assert_eq!(
        err(ws.typed_reload(&mut m, false, read())),
        "unsaved changes (use :e! to force)"
    );
    ws.typed_reload(&mut m, true, read()).unwrap();
    assert_eq!(ws.doc().text().to_string(), "new\n");
    assert_eq!(status(&m), "Reloaded one.txt");
    let mut scratch = Workspace::new(Buffer::scratch(), 80, 24, 10);
    assert_eq!(err(scratch.typed_reload(&mut m, false, read())), "no file name");
}

#[test]
fn buffers_are_deleted() {
    let mut ws = two();
    let ids = ws.buffers.ids();
    dirty(&mut ws);
    assert_eq!(err(ws.typed_buffer_delete(false)), "unsaved changes (use :bd! to force)");
    ws.typed_buffer_delete(true).unwrap();
    assert_eq!(ws.focused_buffer_id(), ids[1]);
    assert_eq!(ws.buffers.len(), 1);
}

#[test]
fn quitting_minds_changes() {
    let mut s = EditorState::new(false);
    let mut ws = two();
    dirty(&mut ws);
    assert_eq!(
        err(typed_quit(&mut ws, &mut s, false)),
        "Unsaved changes (add ! to override)"
    );
    assert_eq!(
        err(typed_quit_all(&ws, &mut s, false)),
        "Unsaved changes in open buffers (add ! to override)"
    );
    typed_quit(&mut ws, &mut s, true).unwrap();
    assert!(!s.should_quit);
    assert_eq!(ws.buffers.len(), 1);
    typed_quit(&mut ws, &mut s, false).unwrap();
    assert!(s.should_quit);
    let mut s = EditorState::new(false);
    typed_quit_all(&ws, &mut s, false).unwrap();
    assert!(s.should_quit);
}

#[test]
fn writing_marks_the_buffer_saved() {
    let mut ws = workspace();
    dirty(&mut ws);
    let mut m = Messages::new();
    let mut f = ws.lift_focus();
    assert!(check_writable(&f.doc).is_ok());
    assert_eq!(written_content(&f.doc), ("xone\n".to_string(), 1));
    assert!(file_written(&mut f.doc, &mut m, Err("disk full".to_string())).is_err());
    assert!(f.doc.is_dirty());
    file_written(&mut f.doc, &mut m, Ok(false)).unwrap();
    assert!(!f.doc.is_dirty());
    assert_eq!(status(&m), "Written 1 lines");
    assert_eq!(write_msg(3, true), "Written 3 lines (forced)");
    file_written_as(&mut f.doc, &mut m, Ok((meta("/w/new.txt"), false))).unwrap();
    assert_eq!(f.doc.display_name(), "new.txt");
    let mut s = EditorState::new(false);
    typed_write_quit(&mut s, false, Ok(())).unwrap();
    assert!(s.should_quit);
    let view = Buffer::read_only_view(Text::from("x\n"), "*x*".to_string());
    assert_eq!(err(check_writable(&view)), "Buffer is read-only");
}

#[test]
fn soft_wrap_is_switched() {
    let mut b = Buffer::scratch();
    let mut m = Messages::new();
    let mut v = Viewport {
        scroll: Scroll { top_line: 1, top_row_offset: 2, horizontal_offset: 3 },
        width: 80,
        height: 24,
    };
    typed_toggle_soft_wrap(&mut b, &mut v, &mut m, WrapMode::Off);
    assert_eq!(status(&m), "Soft wrap on");
    typed_toggle_soft_wrap(&mut b, &mut v, &mut m, WrapMode::Off);
    assert_eq!(status(&m), "Soft wrap off");
}

#[test]
fn changing_directory() {
    let mut m = Messages::new();
    typed_cd(&mut m, Some("/x"), Ok("/x".to_string())).unwrap();
    assert_eq!(status(&m), "cwd: /x");
    assert_eq!(err(typed_cd(&mut m, None, Ok(String::new()))), "HOME not set");
    assert!(typed_cd(&mut m, Some("/x"), Err("not a directory".to_string())).is_err());
    typed_pwd(&mut m, "/y".to_string());
    assert_eq!(status(&m), "/y");
}

// ── settings, themes and lists ────────────────────────────────────────────────

#[test]
fn settings_are_taken_apart() {
    match typed_set(Some("global tab-width=4")).unwrap() {
        SetRequest::Setting { scope, key, value } => {
            assert_eq!(scope, SettingScope::Global);
            assert_eq!((key.as_str(), value.as_str()), ("tab-width", "4"));
        }
        _ => panic!("expected a setting"),
    }
    match typed_set(Some("buffer language=rust")).unwrap() {
        SetRequest::Language { name } => assert_eq!(name.as_deref(), Some("rust")),
        _ => panic!("expected a language"),
    }
    match typed_set(Some("buffer language=")).unwrap() {
        SetRequest::Language { name } => assert_eq!(name, None),
        _ => panic!("expected a language"),
    }
    assert_eq!(err(typed_set(None)), "Usage: :set global|buffer key=value");
    assert_eq!(err(typed_set(Some("global"))), "Usage: :set global|buffer key=value");
    assert_eq!(err(typed_set(Some("global x"))), "Expected key=value");
    assert_eq!(
        err(typed_set(Some("local x=1"))),
        "unknown scope 'local': expected 'global' or 'buffer'"
    );
    assert_eq!(
        err(typed_set(Some("global language=rust"))),
        "'language' is per-buffer — use ':set buffer language=<name>'"
    );
    assert!(matches!(
        setting_effect(SettingScope::Global, "history-capacity", "x"),
        SettingEffect::HistoryCapacity
    ));
    assert!(matches!(
        setting_effect(SettingScope::Global, "theme", "x"),
        SettingEffect::Theme
    ));
    assert!(matches!(
        setting_effect(SettingScope::Buffer, "theme", "x"),
        SettingEffect::Nothing
    ));
    let mut m = Messages::new();
    warn_unregistered_language(&mut m, "zig", true);
    assert_eq!(status(&m), "");
    warn_unregistered_language(&mut m, "zig", false);
    assert!(status(&m).contains("language 'zig' is not registered"));
}

#[test]
fn themes_are_named_and_debugged() {
    let mut m = Messages::new();
    assert!(typed_theme(&mut m, None, "dark").is_none());
    assert_eq!(status(&m), "Current theme: dark");
    assert_eq!(typed_theme(&mut m, Some("light"), "dark").as_deref(), Some("light"));
    let known = vec!["keyword".to_string()];
    assert_eq!(scope_chain(&known, "keyword.control"), "keyword");
    assert_eq!(scope_chain(&known, "ui.cursor"), "ui.cursor → default");
    assert_eq!(color_str(&ThemeColor::Rgb(255, 0, 16)), "#ff0010");
    assert_eq!(color_str(&ThemeColor::Unset), "-");
    let style = ScopeStyle {
        scope: "keyword".to_string(),
        fg: ThemeColor::Named("red".to_string()),
        bg: ThemeColor::Unset,
        modifiers: String::new(),
    };
    typed_theme_debug(&mut m, "dark", &known, &vec![style]);
    assert_eq!(status(&m), "Theme: dark\n  keyword: chain=keyword fg=red bg=-");
}

#[test]
fn lists_are_shown_in_views() {
    let mut m = Messages::new();
    assert!(typed_messages(&mut m).is_none());
    assert_eq!(status(&m), "No messages");
    m.report(Severity::Error, "boom".to_string());
    let v = typed_messages(&mut m).unwrap();
    assert_eq!(v.label, "[messages]");
    assert!(v.content.contains("boom"));
    let ws = two();
    let v = typed_list_buffers(&ws, &vec!["one.txt".to_string(), "two.txt".to_string()]);
    assert_eq!(v.label, "[buffers]");
    assert_eq!(v.content.lines().count(), 3);
    assert!(typed_plugin_status(&mut m, None).is_none());
    assert_eq!(status(&m), "Scripting disabled");
    assert!(typed_plugin_status(&mut m, Some(String::new())).is_none());
    assert_eq!(status(&m), "No plugins declared");
    let v = typed_plugin_status(&mut m, Some("p: loaded".to_string())).unwrap();
    assert_eq!(v.label, "[plugin-status]");
    typed_version(&mut m, "1.2");
    assert_eq!(status(&m), "hume 1.2");
    assert_eq!(err(typed_split(true)), ":vsplit not yet implemented");
    assert_eq!(err(typed_split(false)), ":split not yet implemented");
}

// ── names of bound commands ───────────────────────────────────────────────────

#[test]
fn keys_bound_to_nothing_are_warned_of_once() {
    let mut km = Keymap::default();
    let reg = CommandRegistry::with_defaults();
    let mut m = Messages::new();
    // Two names of the built-in layers have no command.
    lint_keymap(&km, &reg, &mut m);
    let before = m.log.entries().len();
    assert_eq!(before, 2);
    km.bind_user(BindMode::Normal, &vec![char_key('~')], "nope");
    km.bind_user(BindMode::Insert, &vec![char_key('~')], "nope");
    assert!(all_command_names(&km).iter().filter(|n| n.as_str() == "nope").count() == 2);
    lint_keymap(&km, &reg, &mut m);
    assert_eq!(m.log.entries().len(), 2 * before + 1);
    assert_eq!(
        status(&m),
        "key bound to unknown command 'nope' — typo, or missing from #:on-command?"
    );
}

#[test]
fn texts_are_sorted_without_duplicates() {
    let v: Vec<String> = ["b", "a", "ab", "b", ""].iter().map(|s| s.to_string()).collect();
    assert_eq!(sort_texts(&v), vec!["", "a", "ab", "b"]);
}

use hume_editor::buffer::{Buffer, FileMeta};
use hume_editor::buffer_store::BufferId;
use hume_editor::host::{
    command_is_native, grammar_error, run_command_sync, statusline_error, to_editor_bind_mode,
    NativeKind, ScriptBindMode,
};
use hume_editor::keymap::BindMode;
use hume_editor::messages::Messages;
use hume_editor::ops::Workspace;
use hume_editor::paths::{FilePath, Separators};
use hume_editor::registry::CommandRegistry;
use hume_editor::search::MotionMode;
use hume_editor::selection::SelectionSet;
use hume_editor::side_effects::SideEffects;
use hume_editor::startup::{hook_fired, tutor_copy_path, tutor_source, FileError};
use hume_editor::text::Text;

const SLASH: Separators = Separators::Slash;

fn workspace() -> Workspace {
    Workspace::new(Buffer::new(Text::empty(), SelectionSet::default()), 80, 24, 10)
}

fn read(path: &str, content: &str) -> Result<(String, FileMeta), String> {
    let resolved_path = FilePath::new(path.to_string(), SLASH);
    Ok((content.to_string(), FileMeta { resolved_path }))
}

#[test]
fn close_buffer_errs_when_id_unknown() {
    let mut ws = workspace();
    // The key that stands for no slot — not present in any live store.
    let err = ws.host_close_buffer(BufferId(0x1_ffff_ffff)).unwrap_err();
    assert!(!err.is_empty(), "expected an error message");
    assert_eq!(err, "close-buffer!: buffer BufferId(4294967295v1) does not exist");
}

#[test]
fn switch_to_buffer_noop_when_same() {
    let mut ws = workspace();
    let bid = ws.focused_buffer_id();
    // Switching to the same buffer should not fail.
    ws.host_switch_to_buffer(bid);
    assert_eq!(ws.focused_buffer_id(), bid);
}

#[test]
fn attach_grammar_errs_for_bad_path() {
    let err = grammar_error("rust", "/no/such/lib.dylib: not found");
    assert!(err.contains("register-grammar!"), "unexpected message: {err}");
}

#[test]
fn statusline_errors_name_the_section() {
    assert_eq!(statusline_error("left", "no x"), "configure-statusline! left: no x");
}

#[test]
fn opened_buffers_are_found_again() {
    let mut ws = workspace();
    let a = ws
        .host_open_buffer("a.txt", Ok("/w/a.txt".to_string()), read("/w/a.txt", "one\n"))
        .unwrap();
    let again = ws
        .host_open_buffer("a.txt", Ok("/w/a.txt".to_string()), Err("unused".to_string()))
        .unwrap();
    assert_eq!(a, again);
    assert!(ws.buffer_exists(a));
    assert_eq!(ws.buffer_path(a).unwrap().as_str(), "/w/a.txt");
    assert_eq!(ws.buffer_display_name(a).unwrap(), "a.txt");
    assert_eq!(ws.buffer_is_dirty(a), Some(false));
    assert_eq!(ws.buffer_stored_language(a), None);
    let err = ws.host_open_buffer("b", Err("no such file".to_string()), read("/b", "")).unwrap_err();
    assert_eq!(err, "open-buffer!: b: no such file");
    let err = ws
        .host_open_buffer("b", Ok("/w/b".to_string()), Err("denied".to_string()))
        .unwrap_err();
    assert_eq!(err, "open-buffer!: /w/b: denied");
    ws.host_close_buffer(a).unwrap();
    assert!(!ws.buffer_exists(a));
    assert_eq!(ws.buffer_is_dirty(a), None);
}

#[test]
fn scripts_call_native_commands_at_once() {
    let reg = CommandRegistry::with_defaults();
    assert_eq!(command_is_native(&reg, "move-left"), Ok(true));
    assert_eq!(command_is_native(&reg, "nope"), Err("unknown command: nope".to_string()));
    assert_eq!(
        run_command_sync(&reg, "move-left", true),
        Ok((NativeKind::Motion, MotionMode::Extend))
    );
    assert_eq!(
        run_command_sync(&reg, "undo", false),
        Ok((NativeKind::EditorCmd, MotionMode::Move))
    );
    assert!(run_command_sync(&reg, "nope", false).is_err());
}

#[test]
fn bind_modes_are_mapped_one_to_one() {
    assert_eq!(to_editor_bind_mode(ScriptBindMode::Normal), BindMode::Normal);
    assert_eq!(to_editor_bind_mode(ScriptBindMode::Extend), BindMode::Extend);
    assert_eq!(to_editor_bind_mode(ScriptBindMode::Insert), BindMode::Insert);
    assert_eq!(SideEffects::none(), SideEffects);
}

// ── panes ─────────────────────────────────────────────────────────────────────

#[test]
fn panes_open_focus_and_close() {
    let mut ws = workspace();
    let first = ws.focused;
    let b = ws.focused_buffer_id();
    let p = ws.open_pane(b, 40, 10, 5);
    assert_ne!(p, first);
    assert_eq!(ws.focused, first);
    assert!(ws.selections_for(p, b).is_some());
    ws.switch_focused_pane(p);
    assert_eq!(ws.focused, p);
    ws.switch_focused_pane(first);
    ws.close_pane(p);
    assert!(ws.selections_for(p, b).is_none());
    assert!(ws.selections_for(first, b).is_some());
}

// ── the tutor, extra files, hooks ─────────────────────────────────────────────

#[test]
fn tutor_says_what_is_missing() {
    assert_eq!(
        tutor_source(None, SLASH).unwrap_err().message(),
        "runtime directory not found (set HUME_RUNTIME to override)"
    );
    assert_eq!(tutor_source(Some("/rt"), SLASH).unwrap(), "/rt/tutor.txt");
    let tmp = || Ok("/tmp/h".to_string());
    assert_eq!(
        tutor_copy_path("/rt/tutor.txt", Err(FileError::NotFound), Ok(()), tmp(), SLASH)
            .unwrap_err()
            .message(),
        "tutor.txt not found at /rt/tutor.txt (set HUME_RUNTIME to override)"
    );
    let failed = FileError::Failed { message: "denied".to_string() };
    assert_eq!(
        tutor_copy_path("/rt/tutor.txt", Err(failed), Ok(()), tmp(), SLASH).unwrap_err().message(),
        "could not access tutor.txt: denied"
    );
    assert_eq!(
        tutor_copy_path("/rt/tutor.txt", Ok(()), Err("full".to_string()), tmp(), SLASH)
            .unwrap_err()
            .message(),
        "could not create tutor tmp dir: full"
    );
    assert_eq!(
        tutor_copy_path("/rt/tutor.txt", Ok(()), Ok(()), Err("gone".to_string()), SLASH)
            .unwrap_err()
            .message(),
        "could not canonicalize tutor tmp dir: gone"
    );
    assert_eq!(
        tutor_copy_path("/rt/tutor.txt", Ok(()), Ok(()), tmp(), SLASH).unwrap(),
        "/tmp/h/tutor.txt"
    );
}

#[test]
fn tutor_is_opened_once() {
    let mut ws = workspace();
    let path = "/tmp/h/tutor.txt";
    let e = ws.typed_tutor(path, Err("full".to_string()), read(path, "x\n")).unwrap_err();
    assert_eq!(e.message(), "could not copy tutor.txt to tmp: full");
    let e = ws.typed_tutor(path, Ok(()), Err("gone".to_string())).unwrap_err();
    assert_eq!(e.message(), "could not open tutor copy: gone");
    let a = ws.typed_tutor(path, Ok(()), read(path, "x\n")).unwrap();
    assert_eq!(ws.focused_buffer_id(), a);
    let b = ws.typed_tutor(path, Err("unused".to_string()), read(path, "y\n")).unwrap();
    assert_eq!(a, b);
    assert_eq!(ws.doc().text().to_string(), "x\n");
}

#[test]
fn extra_files_that_fail_are_reported() {
    let mut ws = workspace();
    let mut messages = Messages::new();
    ws.open_extra_file(&mut messages, "b", Err("no such file".to_string()), read("/b", ""));
    assert_eq!(messages.status_msg.as_deref(), Some("Failed to open b: no such file"));
    let n = ws.buffers.len();
    ws.open_extra_file(&mut messages, "a", Ok("/w/a".to_string()), read("/w/a", "a\n"));
    assert_eq!(ws.buffers.len(), n + 1);
    ws.open_extra_file(&mut messages, "a", Ok("/w/a".to_string()), read("/w/a", "a\n"));
    assert_eq!(ws.buffers.len(), n + 1);
}

#[test]
fn failing_hooks_are_reported() {
    let mut messages = Messages::new();
    let r = hook_fired::<()>(&mut messages, &vec![], Err("boom".to_string()));
    assert!(r.is_none());
    assert_eq!(messages.status_msg.as_deref(), Some("hook error: boom"));
}

use hume_editor::auto_pairs::{
    handle_insert, is_between_pair, pair_to_wrap, should_auto_pair, should_skip_close,
    InsertAction, InsertSession, Pair,
};
use hume_editor::command_line::{
    execute_command, execute_typed, finish_command_line, handle_command, parse_typed_command,
    CommandKey, LineAction,
};
use hume_editor::dispatch::{
    is_valid_macro_register, mode_name, KeyState, MacroRecording, Mode, NormalAction,
};
use hume_editor::execute::{
    closes_paste_session, finish_queue, handle_scratch_key, take_queued, KeyRoute, OverlayKey,
    QueueStep, QueuedCommand,
};
use hume_editor::keymap::{default_insert_keymap, Keymap};
use hume_editor::keys::{char_key, ctrl_key, named_key, KeyCode, KeyEvent, KeyModifiers};
use hume_editor::messages::Messages;
use hume_editor::modes::{Modal, ModeChange};
use hume_editor::paths::Separators;
use hume_editor::registers::RegisterSet;
use hume_editor::registry::CommandRegistry;
use hume_editor::selection::{Selection, SelectionSet};
use hume_editor::state::{EditorState, RegisterPrefix};
use hume_editor::text::Text;

const SLASH: Separators = Separators::Slash;

struct Board {
    keys: KeyState,
    keymap: Keymap,
    registry: CommandRegistry,
    registers: RegisterSet,
}

fn board(kitty: bool) -> Board {
    Board {
        keys: KeyState::new(kitty),
        keymap: Keymap::default(),
        registry: CommandRegistry::with_defaults(),
        registers: RegisterSet::new(),
    }
}

impl Board {
    fn press(&mut self, key: KeyEvent) -> NormalAction {
        self.keys.handle_normal(&self.keymap, &self.registry, &mut self.registers, key)
    }

    fn runs(&mut self, key: KeyEvent) -> (String, usize, bool) {
        match self.press(key) {
            NormalAction::Execute { name, count, extend } => (name, count, extend),
            other => panic!("expected a command, got {:?}", other),
        }
    }

    fn quiet(&mut self, key: KeyEvent) {
        assert!(matches!(self.press(key), NormalAction::Nothing));
    }
}

#[test]
fn counts_belong_to_the_next_command() {
    let mut b = board(false);
    b.quiet(char_key('1'));
    b.quiet(char_key('0'));
    assert_eq!(b.runs(char_key('j')), ("move-down".to_string(), 10, false));
    assert!(b.keys.explicit_count);
    assert_eq!(b.runs(char_key('j')), ("move-down".to_string(), 1, false));
    assert!(!b.keys.explicit_count);
}

#[test]
fn sequences_and_waiting_commands() {
    let mut b = board(false);
    b.quiet(char_key('m'));
    b.quiet(char_key('i'));
    assert_eq!(b.runs(char_key('w')).0, "inner-word");
    b.quiet(char_key('f'));
    assert_eq!(b.runs(char_key('x')).0, "find-forward");
    assert_eq!(b.keys.pending_char, Some('x'));
    b.quiet(char_key('f'));
    b.quiet(named_key(KeyCode::Enter));
    assert!(b.keys.wait_char.is_none());
}

#[test]
fn unbound_keys_are_named() {
    let mut b = board(false);
    b.quiet(char_key('4'));
    match b.press(char_key('~')) {
        NormalAction::Unbound { ch } => assert_eq!(ch, '~'),
        other => panic!("unexpected {:?}", other),
    }
    assert_eq!(b.keys.count, None);
}

#[test]
fn escape_starts_over_and_leaves_extend_mode() {
    let mut b = board(false);
    b.keys.mode = Mode::Extend;
    b.quiet(char_key('7'));
    b.quiet(char_key('m'));
    assert!(matches!(b.press(named_key(KeyCode::Esc)), NormalAction::ClearSearch));
    assert_eq!(b.keys.mode, Mode::Normal);
    assert_eq!(b.keys.count, None);
    assert!(b.keys.pending_keys.is_empty());
}

#[test]
fn capital_letters_need_no_shift() {
    let mut b = board(false);
    let mut shift = KeyModifiers::none();
    shift.shift = true;
    assert_eq!(
        b.runs(KeyEvent::new(KeyCode::Char('W'), shift)).0,
        b_runs_plain('W')
    );
}

fn b_runs_plain(c: char) -> String {
    board(false).runs(char_key(c)).0
}

#[test]
fn control_extends_on_kitty_terminals() {
    let mut b = board(true);
    assert_eq!(b.runs(ctrl_key('w')), ("select-next-word".to_string(), 1, true));
    let mut b = board(false);
    b.quiet(ctrl_key('w'));
}

#[test]
fn extend_mode_extends() {
    let mut b = board(false);
    b.keys.mode = Mode::Extend;
    assert_eq!(b.runs(char_key('w')), ("select-next-word".to_string(), 1, true));
}

#[test]
fn macros_are_recorded_and_replayed() {
    let mut b = board(false);
    b.quiet(char_key('Q'));
    b.quiet(char_key('3'));
    b.keys.record_key(char_key('3'));
    for c in ['j', 'l'] {
        b.press(char_key(c));
        b.keys.record_key(char_key(c));
    }
    b.quiet(char_key('Q'));
    assert_eq!(b.registers.read_macro('3'), Some(&vec![char_key('j'), char_key('l')]));
    b.quiet(char_key('2'));
    b.quiet(char_key('q'));
    b.quiet(char_key('3'));
    let queued: Vec<KeyEvent> = b.keys.replay_queue.iter().copied().collect();
    assert_eq!(queued, vec![char_key('j'), char_key('l'), char_key('j'), char_key('l')]);
}

#[test]
fn macros_do_not_nest() {
    let mut b = board(false);
    b.keys.is_replaying = true;
    b.quiet(char_key('Q'));
    assert!(b.keys.macro_pending.is_none());
    b.quiet(char_key('q'));
    assert!(b.keys.macro_pending.is_none());
}

#[test]
fn macro_registers() {
    assert!(is_valid_macro_register('q'));
    assert!(is_valid_macro_register('0'));
    assert!(!is_valid_macro_register('a'));
    assert_eq!(mode_name(Mode::Insert), "insert");
}

#[test]
fn keys_are_canonical() {
    let mut shift = KeyModifiers::none();
    shift.shift = true;
    let k = KeyEvent::new(KeyCode::Char('a'), shift);
    assert_eq!(k.to_canonical(), char_key('A').to_canonical());
    assert_ne!(k.to_canonical(), char_key('a').to_canonical());
    assert_eq!(k.to_canonical().to_canonical(), k.to_canonical());
}

// ── auto pairs and typing ─────────────────────────────────────────────────────

fn pairs() -> Vec<Pair> {
    vec![Pair { open: '(', close: ')' }, Pair { open: '"', close: '"' }]
}

fn cursor(pos: usize) -> SelectionSet {
    SelectionSet::single(Selection::collapsed(pos))
}

#[test]
fn typing_pairs() {
    let text = Text::from("()\n");
    let trie = default_insert_keymap();
    let ps = pairs();
    let mut session = Some(InsertSession { keystrokes: vec![], step_back_on_exit: false });
    let mut press = |at: usize, clear: bool, key: KeyEvent| {
        handle_insert(&mut session, &trie, Some(&ps), &text, &cursor(at), &vec![clear], key)
    };
    assert!(matches!(press(0, true, char_key('x')), InsertAction::InsertChar { ch: 'x' }));
    assert!(matches!(
        press(0, true, char_key('(')),
        InsertAction::InsertPair { open: '(', close: ')' }
    ));
    assert!(matches!(press(0, false, char_key('(')), InsertAction::InsertChar { ch: '(' }));
    assert!(matches!(press(1, true, char_key(')')), InsertAction::MoveRight));
    assert!(matches!(press(1, true, named_key(KeyCode::Backspace)), InsertAction::DeletePair));
    assert!(matches!(press(2, true, named_key(KeyCode::Backspace)), InsertAction::DeleteBackward));
    assert!(matches!(press(1, true, named_key(KeyCode::Delete)), InsertAction::DeleteForward));
    assert!(matches!(
        press(1, true, named_key(KeyCode::Enter)),
        InsertAction::InsertChar { ch: '\n' }
    ));
    match press(1, true, named_key(KeyCode::Left)) {
        InsertAction::Execute { name } => assert_eq!(name, "move-left"),
        other => panic!("unexpected {:?}", other),
    }
}

#[test]
fn pair_rules() {
    let text = Text::from("()\n");
    assert!(should_skip_close(&text, &cursor(1), ')'));
    assert!(!should_skip_close(&text, &cursor(0), ')'));
    assert!(is_between_pair(&text, &cursor(1), &pairs()));
    assert!(!is_between_pair(&text, &cursor(2), &pairs()));
    assert!(should_auto_pair(&cursor(0), &vec![true]));
    assert!(!should_auto_pair(&cursor(0), &vec![false]));
    let wide = SelectionSet::single(Selection::new(0, 1));
    assert_eq!(pair_to_wrap(Some(&pairs()), &wide, '(').unwrap().close, ')');
    assert!(pair_to_wrap(Some(&pairs()), &cursor(0), '(').is_none());
    assert!(pair_to_wrap(None, &wide, '(').is_none());
}

// ── modes and the command line ────────────────────────────────────────────────

#[test]
fn changes_of_mode_are_noted_once() {
    let mut m = Modal::new(false);
    m.set_mode(Mode::Insert);
    m.set_mode(Mode::Insert);
    m.set_mode(Mode::Normal);
    assert_eq!(
        m.changes,
        vec![
            ModeChange { from: Mode::Normal, to: Mode::Insert },
            ModeChange { from: Mode::Insert, to: Mode::Normal },
        ]
    );
}

#[test]
fn command_lines_are_taken_apart() {
    let p = parse_typed_command("e! some file.txt");
    assert_eq!((p.command.as_str(), p.force), ("e", true));
    assert_eq!(p.arg.as_deref(), Some("some file.txt"));
    let p = parse_typed_command("w");
    assert_eq!((p.command.as_str(), p.force), ("w", false));
    assert_eq!(p.arg, None);
}

#[test]
fn command_lines_reach_both_kinds_of_commands() {
    let reg = CommandRegistry::with_defaults();
    let mut m = Messages::new();
    match execute_command(&reg, &mut m, "w! x") {
        LineAction::Typed { name, force, arg } => {
            assert_eq!(name, "write");
            assert!(force);
            assert_eq!(arg.as_deref(), Some("x"));
        }
        other => panic!("unexpected {:?}", other),
    }
    match execute_command(&reg, &mut m, "undo") {
        LineAction::Mappable { name } => assert_eq!(name, "undo"),
        other => panic!("unexpected {:?}", other),
    }
    assert!(matches!(execute_command(&reg, &mut m, "nope"), LineAction::Unknown { .. }));
    assert_eq!(m.status_msg.as_deref(), Some("Unknown command: nope"));
    assert!(execute_typed(&reg, "nope", None).is_none());
    let t = execute_typed(&reg, "w", Some("y".to_string())).unwrap();
    assert_eq!(t.arg.as_deref(), Some("y"));
}

#[test]
fn the_command_line_opens_and_closes() {
    let mut s = EditorState::new(false);
    s.cmd_command_mode();
    assert_eq!(s.modal.keys.mode, Mode::Command);
    assert!(matches!(handle_command(&mut s.modal, char_key('w'), SLASH), CommandKey::Open));
    match handle_command(&mut s.modal, named_key(KeyCode::Enter), SLASH) {
        CommandKey::Run { line } => assert_eq!(line, "w"),
        _ => panic!("expected a line"),
    }
    finish_command_line(&mut s.modal);
    assert_eq!(s.modal.keys.mode, Mode::Normal);
    s.cmd_command_mode();
    assert!(matches!(
        handle_command(&mut s.modal, named_key(KeyCode::Esc), SLASH),
        CommandKey::Closed
    ));
    assert!(s.modal.minibuf.is_none());
}

// ── the editor's keys ─────────────────────────────────────────────────────────

#[test]
fn keys_go_where_the_mode_says() {
    let mut s = EditorState::new(false);
    assert!(matches!(s.begin_key(false), KeyRoute::Normal));
    assert!(matches!(s.begin_key(true), KeyRoute::Overlay));
    s.modal.keys.mode = Mode::Insert;
    assert!(matches!(s.begin_key(false), KeyRoute::Insert));
    s.modal.keys.mode = Mode::Search;
    assert!(matches!(s.begin_key(false), KeyRoute::Search));
}

#[test]
fn overlays_have_their_own_keys() {
    assert!(matches!(handle_scratch_key(char_key('q')), OverlayKey::Close));
    assert!(matches!(handle_scratch_key(char_key('j')), OverlayKey::LineDown));
    assert!(matches!(handle_scratch_key(char_key('k')), OverlayKey::LineUp));
    assert!(matches!(handle_scratch_key(char_key('x')), OverlayKey::Nothing));
}

#[test]
fn paste_sessions_stay_open_while_cycling() {
    assert!(!closes_paste_session("paste-ring-older"));
    assert!(closes_paste_session("move-left"));
}

#[test]
fn replay_keeps_the_last_repeatable_action() {
    let mut s = EditorState::new(false);
    assert!(s.begin_replay().is_none());
    s.modal.keys.replay_queue.push_back(char_key('j'));
    let saved = s.begin_replay().unwrap();
    assert!(s.modal.keys.is_replaying);
    assert_eq!(s.next_replay_key(), Some(char_key('j')));
    assert_eq!(s.next_replay_key(), None);
    s.end_replay(saved);
    assert!(!s.modal.keys.is_replaying);
    assert_eq!(s.last_command.as_deref(), Some("macro-replay"));
}

#[test]
fn queued_commands() {
    let reg = CommandRegistry::with_defaults();
    let mut s = EditorState::new(false);
    let q = |name: &str, count_extend: Result<(usize, bool), String>| QueuedCommand {
        name: name.to_string(),
        register: Some('a'),
        args: vec!["up".to_string(), "now".to_string()],
        count_extend,
    };
    match take_queued(&mut s, &reg, q("move-left", Ok((3, true))), 1, false) {
        QueueStep::Native { name, count, extend } => {
            assert_eq!((name.as_str(), count, extend), ("move-left", 3, true))
        }
        _ => panic!("expected a native command"),
    }
    assert!(matches!(s.register_prefix, Some(RegisterPrefix::Selected('a'))));
    let r = take_queued(&mut s, &reg, q("move-left", Err("bad count".to_string())), 1, false);
    assert!(matches!(r, QueueStep::Refused));
    assert_eq!(s.messages.status_msg.as_deref(), Some("move-left: bad count"));
    match take_queued(&mut s, &reg, q("other", Ok((3, true))), 5, false) {
        QueueStep::Other { name, count, extend, args } => {
            assert_eq!((name.as_str(), count, extend), ("other", 5, false));
            assert_eq!(args, vec!["up".to_string(), "now".to_string()]);
        }
        _ => panic!("expected another command"),
    }
    finish_queue(&mut s, true);
}

#[test]
fn a_key_is_ended_with_its_count() {
    let mut s = EditorState::new(false);
    s.modal.keys.explicit_count = true;
    s.end_key(KeyRoute::Overlay, char_key('j'));
    assert!(s.modal.keys.explicit_count);
    s.end_key(KeyRoute::Normal, char_key('j'));
    assert!(!s.modal.keys.explicit_count);
    s.modal.keys.macro_recording = Some(MacroRecording { register: 'q', keys: vec![] });
    s.end_key(KeyRoute::Insert, char_key('j'));
    assert_eq!(s.modal.keys.macro_recording.unwrap().keys, vec![char_key('j')]);
}

#[test]
fn scripts_wait_for_characters() {
    let mut s = EditorState::new(false);
    s.wait_for_char("replace");
    assert_eq!(s.modal.keys.wait_char.as_ref().unwrap().cmd_name, "replace");
    assert!(!s.modal.keys.wait_char.as_ref().unwrap().ctrl_extend);
}

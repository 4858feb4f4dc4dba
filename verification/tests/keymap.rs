use hume_editor::keymap::{
    default_insert_keymap, default_normal_keymap, BindMode, KeyTrie, Keymap, KeymapCommand,
    WalkResult,
};
use hume_editor::keys::{char_key, ctrl_key, named_key, KeyCode, KeyEvent};

fn k(c: char) -> KeyEvent {
    char_key(c)
}

fn leaf(trie: &KeyTrie, keys: Vec<KeyEvent>) -> String {
    match trie.walk(&keys) {
        WalkResult::Leaf(c) => c.name,
        other => panic!("expected a command, got {:?}", other),
    }
}

fn interior(trie: &KeyTrie, keys: Vec<KeyEvent>) -> &'static str {
    match trie.walk(&keys) {
        WalkResult::Interior { name } => name,
        other => panic!("expected an inner node, got {:?}", other),
    }
}

fn waits(trie: &KeyTrie, c: char) -> String {
    match trie.walk(&vec![k(c)]) {
        WalkResult::WaitChar(w) => w.cmd_name,
        other => panic!("expected WaitChar, got {:?}", other),
    }
}

fn unbound(trie: &KeyTrie, keys: Vec<KeyEvent>) -> bool {
    matches!(trie.walk(&keys), WalkResult::NoMatch)
}

// ── bind_sequence / remove_sequence / bind_user / unbind_user ─────────────────

#[test]
fn bind_sequence_single_key() {
    let mut trie = KeyTrie::new("test");
    trie.bind_sequence(&vec![k('z')], KeymapCommand::new("my-cmd"));
    assert_eq!(leaf(&trie, vec![k('z')]), "my-cmd");
}

#[test]
fn bind_sequence_multi_key() {
    let mut trie = KeyTrie::new("test");
    trie.bind_sequence(&vec![k('g'), k('g')], KeymapCommand::new("goto-first-line"));
    interior(&trie, vec![k('g')]);
    assert_eq!(leaf(&trie, vec![k('g'), k('g')]), "goto-first-line");
}

#[test]
fn bind_sequence_shadows_existing_leaf() {
    let mut trie = KeyTrie::new("test");
    // Bind `g` as a leaf first.
    trie.bind_sequence(&vec![k('g')], KeymapCommand::new("old-cmd"));
    // Now bind `gg` — should convert `g` from Leaf to Node.
    trie.bind_sequence(&vec![k('g'), k('g')], KeymapCommand::new("new-cmd"));
    interior(&trie, vec![k('g')]);
    assert_eq!(leaf(&trie, vec![k('g'), k('g')]), "new-cmd");
}

#[test]
fn remove_sequence_single_key() {
    let mut trie = KeyTrie::new("test");
    trie.bind_sequence(&vec![k('z')], KeymapCommand::new("my-cmd"));
    trie.remove_sequence(&vec![k('z')]);
    assert!(unbound(&trie, vec![k('z')]));
}

#[test]
fn remove_sequence_multi_key() {
    let mut trie = KeyTrie::new("test");
    trie.bind_sequence(&vec![k('g'), k('g')], KeymapCommand::new("goto-first-line"));
    trie.remove_sequence(&vec![k('g'), k('g')]);
    // Interior node for `g` remains; leaf `gg` is gone.
    interior(&trie, vec![k('g')]);
    assert!(unbound(&trie, vec![k('g'), k('g')]));
}

#[test]
fn remove_sequence_nonexistent_is_noop() {
    let mut trie = KeyTrie::new("test");
    trie.bind_sequence(&vec![k('z')], KeymapCommand::new("my-cmd"));
    trie.remove_sequence(&vec![k('q')]); // q not bound — no-op
    trie.remove_sequence(&vec![k('z'), k('z')]); // path doesn't exist — no-op
    // `z` leaf is untouched.
    assert_eq!(leaf(&trie, vec![k('z')]), "my-cmd");
}

#[test]
fn bind_user_normal_mode() {
    let mut km = Keymap::default();
    km.bind_user(BindMode::Normal, &vec![k('z')], "my-cmd");
    assert_eq!(leaf(&km.normal, vec![k('z')]), "my-cmd");
    // Insert mode unchanged.
    assert!(unbound(&km.insert, vec![k('z')]));
}

#[test]
fn unbind_user_normal_mode() {
    let mut km = Keymap::default();
    km.bind_user(BindMode::Normal, &vec![k('z')], "my-cmd");
    km.unbind_user(BindMode::Normal, &vec![k('z')]);
    assert!(unbound(&km.normal, vec![k('z')]));
}

// ── Walk ──────────────────────────────────────────────────────────────────────

#[test]
fn single_key_leaf() {
    let trie = default_normal_keymap();
    assert_eq!(leaf(&trie, vec![k('h')]), "move-left");
}

#[test]
fn single_key_editor_cmd() {
    let trie = default_normal_keymap();
    assert_eq!(leaf(&trie, vec![k('d')]), "delete");
    assert_eq!(leaf(&trie, vec![k('u')]), "undo");
    assert_eq!(leaf(&trie, vec![k('i')]), "insert-before");
}

#[test]
fn wait_char_bindings() {
    let trie = default_normal_keymap();
    for c in ['f', 't', 'F', 'T', 'r'] {
        assert!(matches!(trie.walk(&vec![k(c)]), WalkResult::WaitChar(_)));
    }
}

#[test]
fn wait_char_has_correct_names() {
    let trie = default_normal_keymap();
    assert_eq!(waits(&trie, 'f'), "find-forward");
    assert_eq!(waits(&trie, 't'), "till-forward");
    assert_eq!(waits(&trie, 'F'), "find-backward");
    assert_eq!(waits(&trie, 'T'), "till-backward");
    assert_eq!(waits(&trie, 'r'), "replace");
}

#[test]
fn multi_key_text_object_interior() {
    let trie = default_normal_keymap();
    // `m` alone → Interior at the match node.
    assert_eq!(interior(&trie, vec![k('m')]), "match");
    // `m`, `i` → Interior at the inner node.
    assert_eq!(interior(&trie, vec![k('m'), k('i')]), "inner");
    // `m`, `a` → Interior at the around node.
    assert_eq!(interior(&trie, vec![k('m'), k('a')]), "around");
}

#[test]
fn multi_key_text_object_leaf() {
    let trie = default_normal_keymap();
    // inner-word
    assert_eq!(leaf(&trie, vec![k('m'), k('i'), k('w')]), "inner-word");
    // around-paren (both `(` and `)` map to the same text object)
    assert_eq!(leaf(&trie, vec![k('m'), k('a'), k('(')]), "around-paren");
    assert_eq!(leaf(&trie, vec![k('m'), k('a'), k(')')]), "around-paren");
}

#[test]
fn surround_trie_interior() {
    let trie = default_normal_keymap();
    // `m`, `s` → Interior at the surround node.
    assert_eq!(interior(&trie, vec![k('m'), k('s')]), "surround");
}

#[test]
fn surround_trie_leaf() {
    let trie = default_normal_keymap();
    // surround-paren via `(`
    assert_eq!(leaf(&trie, vec![k('m'), k('s'), k('(')]), "surround-paren");
    // surround-paren via `)` (same command)
    assert_eq!(leaf(&trie, vec![k('m'), k('s'), k(')')]), "surround-paren");
    // surround-double-quote
    assert_eq!(leaf(&trie, vec![k('m'), k('s'), k('"')]), "surround-double-quote");
}

#[test]
fn no_match() {
    let trie = default_normal_keymap();
    // `~` is not bound.
    assert!(unbound(&trie, vec![k('~')]));
    // `m` + `z` is not a valid text object sequence.
    assert!(unbound(&trie, vec![k('m'), k('z')]));
    // Too many keys for a leaf binding.
    assert!(unbound(&trie, vec![k('h'), k('j')]));
}

#[test]
fn w_maps_to_select_next_word() {
    let trie = default_normal_keymap();
    assert_eq!(leaf(&trie, vec![k('w')]), "select-next-word");
}

#[test]
fn comma_maps_to_keep_primary_selection() {
    let trie = default_normal_keymap();
    assert_eq!(leaf(&trie, vec![k(',')]), "keep-primary-selection");
}

#[test]
fn o_maps_to_open_line_below() {
    let trie = default_normal_keymap();
    assert_eq!(leaf(&trie, vec![k('o')]), "open-line-below");
}

// ── Insert keymap ─────────────────────────────────────────────────────────────

#[test]
fn insert_esc_exits() {
    let trie = default_insert_keymap();
    assert_eq!(leaf(&trie, vec![named_key(KeyCode::Esc)]), "exit-insert");
}

#[test]
fn insert_arrows_are_motions() {
    let trie = default_insert_keymap();
    assert_eq!(leaf(&trie, vec![named_key(KeyCode::Left)]), "move-left");
}

#[test]
fn insert_char_is_no_match() {
    // Regular characters are NOT in the insert trie — they fall through
    // to the char-insertion handler in the dispatcher.
    let trie = default_insert_keymap();
    assert!(unbound(&trie, vec![k('a')]));
    assert!(unbound(&trie, vec![k('z')]));
}

#[test]
fn insert_ctrl_c_exits() {
    // Ctrl+c is an alternative exit key in insert mode (same as Esc).
    let trie = default_insert_keymap();
    assert_eq!(leaf(&trie, vec![ctrl_key('c')]), "exit-insert");
}

#[test]
fn ctrl_bindings_in_normal_keymap() {
    let trie = default_normal_keymap();
    assert_eq!(leaf(&trie, vec![ctrl_key('c')]), "force-quit");
    assert_eq!(leaf(&trie, vec![ctrl_key('r')]), "redo");
    assert_eq!(leaf(&trie, vec![ctrl_key('x')]), "extend-select-line");
}

#[test]
fn essential_keys_are_bound() {
    let trie = default_normal_keymap();
    // Spot-check a set of keys that would be ambiguous if duplicated.
    let mut must_be_bound: Vec<KeyEvent> = Vec::new();
    for c in [
        'h', 'j', 'k', 'l', 'w', 'W', 'b', 'B', 'd', 'c', 'y', 'u', 'i', 'a', 'o', 'O', 'x', 'X',
        'p', 'P', 'f', 't', 'F', 'T', 'r', 'e', ';', ',',
    ] {
        must_be_bound.push(k(c));
    }
    for c in ['c', 'r', 'x', 'o', 'i'] {
        must_be_bound.push(ctrl_key(c));
    }
    must_be_bound.push(named_key(KeyCode::Tab));
    for key in must_be_bound {
        assert!(
            !unbound(&trie, vec![key]),
            "key {:?} unexpectedly unbound in normal keymap",
            key
        );
    }
}

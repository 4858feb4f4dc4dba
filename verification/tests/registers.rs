use hume_editor::keys::char_key;
use hume_editor::register_ops::{
    clipboard_blob, clipboard_warn, read_register_text, write_clipboard, write_register,
};
use hume_editor::registers::{
    KillRing, RegisterSet, CLIPBOARD_REGISTER, KILL_RING_DEPTH,
};

fn v(items: &[&str]) -> Vec<String> {
    items.iter().map(|s| s.to_string()).collect()
}

#[test]
fn registers_hold_text_or_a_macro() {
    let mut r = RegisterSet::new();
    assert!(r.read_text('a').is_none());
    r.write_text('a', v(&["x", "y"]));
    assert_eq!(r.read_text('a'), Some(&v(&["x", "y"])));
    assert!(r.read_macro('a').is_none());
    r.write_macro('a', vec![char_key('j')]);
    assert!(r.read_text('a').is_none());
    assert_eq!(r.read_macro('a'), Some(&vec![char_key('j')]));
}

#[test]
fn kill_ring_keeps_the_newest() {
    let mut ring = KillRing::new();
    assert!(ring.head().is_none());
    for i in 0..KILL_RING_DEPTH + 2 {
        ring.push(vec![i.to_string()]);
    }
    assert_eq!(ring.head(), Some(&v(&["11"])));
    ring.seed_cycle(Some(0));
    for i in (2..KILL_RING_DEPTH + 1).rev() {
        assert_eq!(ring.cycle_older(), Some(vec![i.to_string()]));
    }
    // The two oldest have left.
    assert_eq!(ring.cycle_older(), None);
    assert_eq!(ring.cycle_newer(), Some(v(&["3"])));
}

#[test]
fn cycling_older_and_newer_comes_back() {
    let mut ring = KillRing::new();
    ring.push(v(&["a"]));
    ring.push(v(&["b"]));
    ring.push(v(&["c"]));
    ring.seed_cycle(Some(0));
    assert_eq!(ring.cycle_older(), Some(v(&["b"])));
    assert_eq!(ring.cycle_older(), Some(v(&["a"])));
    assert_eq!(ring.cycle_newer(), Some(v(&["b"])));
    assert_eq!(ring.cycle_newer(), Some(v(&["c"])));
    assert_eq!(ring.cycle_newer(), None);
}

#[test]
fn clipboard_register_goes_through_the_system() {
    let mut r = RegisterSet::new();
    assert_eq!(write_register(&mut r, &Ok(()), CLIPBOARD_REGISTER, v(&["x"])), None);
    let (text, warning) = read_register_text(&r, &Ok("sys".to_string()), CLIPBOARD_REGISTER);
    assert_eq!(text, Some(v(&["sys"])));
    assert_eq!(warning, None);
    let (text, warning) = read_register_text(&r, &Err("gone".to_string()), CLIPBOARD_REGISTER);
    assert_eq!(text, Some(v(&["x"])));
    assert_eq!(
        warning.as_deref(),
        Some("system clipboard unavailable (gone), using in-memory 'c'")
    );
    assert_eq!(clipboard_warn("gone"), warning.unwrap());
    let w = write_clipboard(&mut r, &Err("no".to_string()), &v(&["z"]));
    assert_eq!(w.as_deref(), Some("system clipboard unavailable (no), using in-memory 'c'"));
    assert_eq!(r.read_text(CLIPBOARD_REGISTER), Some(&v(&["z"])));
}

#[test]
fn clipboard_gets_lines() {
    assert_eq!(clipboard_blob(&v(&["a", "b", "c"])), "a\nb\nc");
    assert_eq!(clipboard_blob(&v(&[])), "");
}

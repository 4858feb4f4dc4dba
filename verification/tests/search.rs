use hume_editor::buffer::Buffer;
use hume_editor::dispatch::Mode;
use hume_editor::focus::Focus;
use hume_editor::keys::{char_key, ctrl_key, named_key, KeyCode};
use hume_editor::modes::Modal;
use hume_editor::ops::Workspace;
use hume_editor::paths::Separators;
use hume_editor::pattern_modes::{select_matches_within, HistoryOp, Recall};
use hume_editor::registers::{RegisterSet, SEARCH_REGISTER};
use hume_editor::search::{
    find_all_matches, find_match_from_cache, find_next_match, search_sel, MotionMode,
    SearchDirection, SearchState,
};
use hume_editor::search_commands::escape_regex;
use hume_editor::selection::{Selection, SelectionSet};
use hume_editor::text::Text;

const SLASH: Separators = Separators::Slash;

fn focus(text: &str, anchor: usize, head: usize) -> Focus {
    let mut ws = Workspace::new(Buffer::new(Text::from(text), SelectionSet::default()), 80, 24, 10);
    ws.set_current_selections(SelectionSet::single(Selection::new(anchor, head)));
    ws.lift_focus()
}

fn primary(f: &Focus) -> (usize, usize) {
    let s = f.here.selections.primary();
    (s.anchor, s.head)
}

#[test]
fn matches_are_positions_of_characters() {
    let t = Text::from("ä foo ä foo\n");
    assert_eq!(find_all_matches(&t, "foo"), Some(vec![(2, 4), (8, 10)]));
    assert_eq!(find_all_matches(&t, "fo+|ä"), Some(vec![(0, 0), (2, 4), (6, 6), (8, 10)]));
    assert_eq!(find_all_matches(&t, "x"), Some(vec![]));
    assert_eq!(find_all_matches(&t, "("), None);
}

#[test]
fn next_match_wraps() {
    let t = Text::from("foo foo\n");
    assert_eq!(find_next_match(&t, "foo", 1, SearchDirection::Forward), Some((4, 6, false)));
    assert_eq!(find_next_match(&t, "foo", 5, SearchDirection::Forward), Some((0, 2, true)));
    assert_eq!(find_next_match(&t, "foo", 4, SearchDirection::Backward), Some((0, 2, false)));
    assert_eq!(find_next_match(&t, "foo", 0, SearchDirection::Backward), Some((4, 6, true)));
    assert_eq!(find_next_match(&t, "bar", 0, SearchDirection::Forward), None);
    let cache = vec![(0, 2), (4, 6)];
    assert_eq!(
        find_match_from_cache(&cache, 3, SearchDirection::Forward),
        Some((4, 6, false))
    );
    assert_eq!(find_match_from_cache(&vec![], 3, SearchDirection::Forward), None);
}

#[test]
fn matches_are_selected_with_the_head_in_front() {
    let s = search_sel(2, 4, None, SearchDirection::Forward);
    assert_eq!((s.anchor, s.head), (2, 4));
    let s = search_sel(2, 4, Some(0), SearchDirection::Forward);
    assert_eq!((s.anchor, s.head), (0, 4));
    let s = search_sel(2, 4, Some(9), SearchDirection::Backward);
    assert_eq!((s.anchor, s.head), (9, 2));
}

#[test]
fn patterns_are_escaped() {
    assert_eq!(escape_regex(&"a.b*".chars().collect()), "a\\.b\\*");
    assert_eq!(escape_regex(&"abc".chars().collect()), "abc");
}

#[test]
fn search_jumps_from_match_to_match() {
    let mut f = focus("foo bar foo bar foo\n", 0, 0);
    let mut r = RegisterSet::new();
    r.write_text(SEARCH_REGISTER, vec!["foo".to_string()]);
    f.search_jump(&r, 1, SearchDirection::Forward, MotionMode::Move).unwrap();
    assert_eq!(primary(&f), (8, 10));
    f.search_jump(&r, 1, SearchDirection::Forward, MotionMode::Move).unwrap();
    assert_eq!(primary(&f), (16, 18));
    f.search_jump(&r, 1, SearchDirection::Forward, MotionMode::Move).unwrap();
    assert_eq!(primary(&f), (0, 2));
    assert!(f.here.search_cursor.wrapped);
    f.search_jump(&r, 1, SearchDirection::Forward, MotionMode::Extend).unwrap();
    assert_eq!(primary(&f), (0, 10));
    r.write_text(SEARCH_REGISTER, vec!["zzz".to_string()]);
    f.clear_search();
    let e = f.search_jump(&r, 1, SearchDirection::Forward, MotionMode::Move).unwrap_err();
    assert_eq!(e.message(), "no match");
    // Without any pattern there is nothing to look for.
    let mut f = focus("foo\n", 0, 0);
    let none = RegisterSet::new();
    assert!(f.search_jump(&none, 1, SearchDirection::Forward, MotionMode::Move).is_ok());
    assert_eq!(primary(&f), (0, 0));
}

#[test]
fn all_matches_are_selected() {
    let mut f = focus("foo bar foo\n", 0, 0);
    let mut r = RegisterSet::new();
    r.write_text(SEARCH_REGISTER, vec!["foo".to_string()]);
    f.cmd_select_all_matches(&r).unwrap();
    assert_eq!(f.here.selections.len(), 2);
    r.write_text(SEARCH_REGISTER, vec!["zzz".to_string()]);
    f.clear_search();
    assert_eq!(f.cmd_select_all_matches(&r).unwrap_err().message(), "no matches");
}

#[test]
fn a_cancelled_search_goes_back() {
    let mut f = focus("foo bar foo\n", 4, 4);
    let mut modal = Modal::new(false);
    let mut search = SearchState::default();
    let mut r = RegisterSet::new();
    f.cmd_search_forward(&mut modal, &mut search);
    assert_eq!(modal.keys.mode, Mode::Search);
    for c in "foo".chars() {
        f.handle_search(
            &mut modal, &mut r, SearchDirection::Forward, Recall::NoRing, char_key(c), SLASH,
        );
    }
    assert_eq!(primary(&f), (8, 10));
    f.handle_search(
        &mut modal, &mut r, SearchDirection::Forward, Recall::NoRing, named_key(KeyCode::Esc),
        SLASH,
    );
    assert_eq!(primary(&f), (4, 4));
    assert_eq!(modal.keys.mode, Mode::Normal);
    assert!(r.read_text(SEARCH_REGISTER).is_none());
}

#[test]
fn backspace_leaves_an_empty_search() {
    let mut f = focus("foo bar foo\n", 4, 4);
    let mut modal = Modal::new(false);
    let mut search = SearchState::default();
    let mut r = RegisterSet::new();
    f.cmd_search_forward(&mut modal, &mut search);
    f.handle_search(
        &mut modal, &mut r, SearchDirection::Forward, Recall::NoRing, char_key('f'), SLASH,
    );
    assert_eq!(primary(&f), (8, 8));
    f.handle_search(
        &mut modal, &mut r, SearchDirection::Forward, Recall::NoRing,
        named_key(KeyCode::Backspace), SLASH,
    );
    assert_eq!(primary(&f), (4, 4));
    assert_eq!(modal.keys.mode, Mode::Search);
    f.handle_search(
        &mut modal, &mut r, SearchDirection::Forward, Recall::NoRing,
        named_key(KeyCode::Backspace), SLASH,
    );
    assert_eq!(primary(&f), (4, 4));
    assert_eq!(modal.keys.mode, Mode::Normal);
    assert!(modal.minibuf.is_none());
}

#[test]
fn deleting_the_pattern_by_word_stays() {
    let mut f = focus("foo bar foo\n", 4, 4);
    let mut modal = Modal::new(false);
    let mut search = SearchState::default();
    let mut r = RegisterSet::new();
    f.cmd_search_forward(&mut modal, &mut search);
    for c in "foo".chars() {
        f.handle_search(
            &mut modal, &mut r, SearchDirection::Forward, Recall::NoRing, char_key(c), SLASH,
        );
    }
    assert_eq!(primary(&f), (8, 10));
    let op = f.handle_search(
        &mut modal, &mut r, SearchDirection::Forward, Recall::NoRing, ctrl_key('w'), SLASH,
    );
    assert!(matches!(op, HistoryOp::Demote { prompt: '/' }));
    assert_eq!(primary(&f), (8, 10));
    assert_eq!(f.doc.search_pattern.as_ref().unwrap().pattern_str, "foo");
    assert_eq!(modal.keys.mode, Mode::Search);
    assert_eq!(modal.minibuf.as_ref().unwrap().input, "");
    f.handle_search(
        &mut modal, &mut r, SearchDirection::Forward, Recall::NoRing, named_key(KeyCode::Esc),
        SLASH,
    );
    assert_eq!(primary(&f), (4, 4));
    assert!(f.doc.search_pattern.is_none());
}

#[test]
fn deleting_the_pattern_for_selecting_by_word_stays() {
    let mut f = focus("foo bar foo\n", 0, 6);
    let mut modal = Modal::new(false);
    f.cmd_select_within(&mut modal);
    f.handle_select(&mut modal, char_key('o'), SLASH);
    assert_eq!(f.here.selections.len(), 2);
    f.handle_select(&mut modal, ctrl_key('w'), SLASH);
    assert_eq!(f.here.selections.len(), 2);
    assert_eq!(modal.minibuf.as_ref().unwrap().input, "");
    f.handle_select(&mut modal, named_key(KeyCode::Backspace), SLASH);
    assert_eq!(f.here.selections.len(), 1);
    assert_eq!(primary(&f), (0, 6));
}

#[test]
fn a_jump_over_several_matches_is_several_jumps() {
    for direction in [SearchDirection::Forward, SearchDirection::Backward] {
        for n in 1..6 {
            let mut r = RegisterSet::new();
            r.write_text(SEARCH_REGISTER, vec!["fo+".to_string()]);
            let mut far = focus("foo bar fo bar fooo\n", 4, 4);
            far.search_jump(&r, n, direction, MotionMode::Move).unwrap();
            let mut near = focus("foo bar fo bar fooo\n", 4, 4);
            for _ in 0..n {
                near.search_jump(&r, 1, direction, MotionMode::Move).unwrap();
            }
            assert_eq!(primary(&far), primary(&near));
        }
    }
    let mut r = RegisterSet::new();
    r.write_text(SEARCH_REGISTER, vec!["fo+".to_string()]);
    let mut f = focus("foo bar fo bar fooo\n", 4, 4);
    f.search_jump(&r, 0, SearchDirection::Forward, MotionMode::Move).unwrap();
    assert_eq!(primary(&f), (8, 9));
    // Half a flag is matched; the next jump goes on behind the whole flag.
    let flags = "\u{1F1E6}\u{1F1E7}\u{1F1E7}\u{1F1E6} \u{1F1E6}\n";
    r.write_text(SEARCH_REGISTER, vec!["\u{1F1E6}".to_string()]);
    let mut f = focus(flags, 4, 4);
    f.search_jump(&r, 2, SearchDirection::Forward, MotionMode::Move).unwrap();
    let mut g = focus(flags, 4, 4);
    g.search_jump(&r, 1, SearchDirection::Forward, MotionMode::Move).unwrap();
    g.search_jump(&r, 1, SearchDirection::Forward, MotionMode::Move).unwrap();
    assert_eq!(primary(&f), primary(&g));
}

#[test]
fn a_confirmed_search_is_kept() {
    let mut f = focus("foo bar foo\n", 4, 4);
    let mut modal = Modal::new(false);
    let mut search = SearchState::default();
    let mut r = RegisterSet::new();
    f.cmd_search_backward(&mut modal, &mut search);
    f.handle_search(
        &mut modal,
        &mut r,
        SearchDirection::Backward,
        Recall::Entry("fo".to_string()),
        named_key(KeyCode::Up), SLASH,
    );
    assert_eq!(primary(&f), (0, 1));
    let op = f.handle_search(
        &mut modal, &mut r, SearchDirection::Backward, Recall::NoRing, named_key(KeyCode::Enter),
        SLASH,
    );
    assert!(matches!(op, HistoryOp::Push { .. }));
    assert_eq!(r.read_text(SEARCH_REGISTER), Some(&vec!["fo".to_string()]));
    assert_eq!(modal.keys.mode, Mode::Normal);
}

#[test]
fn matches_within_the_selection() {
    let mut f = focus("foo bar foo\n", 0, 6);
    let mut modal = Modal::new(false);
    f.cmd_select_within(&mut modal);
    for c in "o".chars() {
        f.handle_select(&mut modal, char_key(c), SLASH);
    }
    assert_eq!(f.here.selections.len(), 2);
    f.handle_select(&mut modal, named_key(KeyCode::Esc), SLASH);
    assert_eq!(primary(&f), (0, 6));
    let t = Text::from("foo bar foo\n");
    let whole = SelectionSet::single(Selection::new(0, 6));
    let ms = vec![(0, 2), (8, 10)];
    let r = select_matches_within(&t, &whole, &ms).unwrap();
    assert_eq!(r.len(), 1);
    assert!(select_matches_within(&t, &whole, &vec![(8, 10)]).is_none());
}

#[test]
fn the_selection_becomes_the_pattern() {
    let mut f = focus("a.b a.b axb\n", 0, 2);
    let mut r = RegisterSet::new();
    let mut search = SearchState::default();
    f.cmd_use_selection_as_search(&mut r, &mut search, None);
    assert_eq!(r.read_text(SEARCH_REGISTER), Some(&vec!["a\\.b".to_string()]));
    f.refresh_matches();
    let ms = f.doc.search_matches.clone();
    assert_eq!(ms, vec![(0, 2), (4, 6)]);
}

#[test]
fn search_state_is_cleared() {
    let mut s = SearchState::default();
    s.match_count = Some((1, 2));
    s.wrapped = true;
    s.clear();
    assert_eq!(s.match_count(), None);
    assert!(!s.wrapped());
    assert!(s.matches().is_empty());
}

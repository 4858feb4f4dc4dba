use hume_editor::keys::{char_key, ctrl_key, named_key, KeyCode};
use hume_editor::minibuf::{
    next_grapheme, prev_grapheme, word_boundary_back, MiniBuffer, MiniBufferEvent,
};
use hume_editor::paths::Separators;

const SLASH: Separators = Separators::Slash;

fn typed(text: &str) -> MiniBuffer {
    let mut m = MiniBuffer::new(':');
    m.set_input(text.to_string());
    m
}

#[test]
fn graphemes_are_stepped_over_whole() {
    // `e` with a combining accent is one cluster of three bytes.
    let s = "ae\u{301}b";
    assert_eq!(next_grapheme(s, 0), 1);
    assert_eq!(next_grapheme(s, 1), 4);
    assert_eq!(prev_grapheme(s, 4), 1);
    assert_eq!(prev_grapheme(s, 0), 0);
    assert_eq!(next_grapheme(s, 5), 5);
    // Past the end there is nothing to step over.
    assert_eq!(next_grapheme("ab", 5), 2);
}

#[test]
fn a_step_on_and_back_returns() {
    // Two flags of two characters each, a family, a consonant with its linker.
    let s = "a\u{1F1E6}\u{1F1E7}\u{1F1E8}\u{1F1E9}\u{1F469}\u{200D}\u{1F466}\u{915}\u{94D}\u{937}z";
    let mut at = 0;
    let mut steps = 0;
    while at < s.len() {
        let next = next_grapheme(s, at);
        assert!(next > at);
        assert_eq!(prev_grapheme(s, next), at);
        at = next;
        steps += 1;
    }
    assert_eq!(steps, 6);
}

#[test]
fn clusters_of_a_part_are_clusters_of_the_whole() {
    // Between the clusters of the text, a step on in what follows and a step back in what
    // comes before agree with those in the whole text.
    let parts = [
        "\u{1F1E6}\u{1F1E7}", "\r\n", "\u{301}", "e\u{301}", "\u{1F469}\u{200D}\u{1F466}",
        "\u{915}\u{94D}\u{937}", "\u{1F1E8}\u{1F1E9}", "\u{1F1E6}\u{1F1E7}", "\u{1100}\u{1161}", "x",
    ];
    let s: String = parts.concat();
    let mut at = 0;
    for p in parts {
        assert_eq!(next_grapheme(&s, at), at + p.len());
        assert_eq!(next_grapheme(&s[at..], 0), p.len());
        at += p.len();
        assert_eq!(prev_grapheme(&s[..at], at), at - p.len());
        assert_eq!(prev_grapheme(&s, at), at - p.len());
    }
}

#[test]
fn deleting_the_only_word_empties_the_input() {
    let mut m = typed("foo");
    assert!(matches!(m.handle_key(ctrl_key('w'), SLASH), MiniBufferEvent::EmptiedByWord));
    assert_eq!(m.input, "");
    assert!(matches!(m.handle_key(ctrl_key('w'), SLASH), MiniBufferEvent::Ignored));
}

#[test]
fn a_path_loses_one_component_at_a_time() {
    let both = Separators::SlashAndBackslash;
    assert_eq!(word_boundary_back("e a/b/c", 7, SLASH), 6);
    assert_eq!(word_boundary_back("e a/b/", 6, SLASH), 4);
    assert_eq!(word_boundary_back("e a\\b\\c", 7, both), 6);
    assert_eq!(word_boundary_back("e a\\b/\\", 7, both), 4);
    assert_eq!(word_boundary_back("e a\\b\\c", 7, SLASH), 2);
    let mut m = typed("e a\\b");
    assert!(matches!(m.handle_key(ctrl_key('w'), both), MiniBufferEvent::Edited));
    assert_eq!(m.input, "e a\\");
}

#[test]
fn words_are_deleted_back_to_their_start() {
    assert_eq!(word_boundary_back("foo bar", 7, SLASH), 4);
    assert_eq!(word_boundary_back("foo bar  ", 9, SLASH), 4);
    assert_eq!(word_boundary_back("foo", 0, SLASH), 0);
}

#[test]
fn typing_and_backspace() {
    let mut m = MiniBuffer::new('/');
    assert!(matches!(m.handle_key(char_key('a'), SLASH), MiniBufferEvent::Edited));
    assert!(matches!(m.handle_key(char_key('é'), SLASH), MiniBufferEvent::Edited));
    assert_eq!(m.input, "aé");
    assert_eq!(m.cursor, 3);
    assert!(matches!(m.handle_key(named_key(KeyCode::Left), SLASH), MiniBufferEvent::CursorMoved));
    assert_eq!(m.cursor, 1);
    m.handle_key(char_key('x'), SLASH);
    assert_eq!(m.input, "axé");
    assert!(matches!(m.handle_key(named_key(KeyCode::Backspace), SLASH), MiniBufferEvent::Edited));
    assert_eq!(m.input, "aé");
    m.handle_key(named_key(KeyCode::Right), SLASH);
    m.handle_key(named_key(KeyCode::Backspace), SLASH);
    assert!(matches!(
        m.handle_key(named_key(KeyCode::Backspace), SLASH),
        MiniBufferEvent::EmptiedByBackspace
    ));
    assert_eq!(m.input, "");
    assert!(matches!(
        m.handle_key(named_key(KeyCode::Backspace), SLASH),
        MiniBufferEvent::BackspaceOnEmpty
    ));
}

#[test]
fn keys_of_the_input_line() {
    let mut m = typed("foo bar");
    assert!(matches!(m.handle_key(ctrl_key('w'), SLASH), MiniBufferEvent::Edited));
    assert_eq!(m.input, "foo ");
    assert!(matches!(m.handle_key(ctrl_key('c'), SLASH), MiniBufferEvent::Cancel));
    assert!(matches!(m.handle_key(named_key(KeyCode::Esc), SLASH), MiniBufferEvent::Cancel));
    assert!(matches!(m.handle_key(named_key(KeyCode::Up), SLASH), MiniBufferEvent::HistoryPrev));
    assert!(matches!(m.handle_key(named_key(KeyCode::Down), SLASH), MiniBufferEvent::HistoryNext));
    assert!(matches!(
        m.handle_key(named_key(KeyCode::Tab), SLASH),
        MiniBufferEvent::CompleteRequested { reverse: false }
    ));
    assert!(matches!(
        m.handle_key(named_key(KeyCode::BackTab), SLASH),
        MiniBufferEvent::CompleteRequested { reverse: true }
    ));
    assert!(matches!(m.handle_key(ctrl_key('z'), SLASH), MiniBufferEvent::Ignored));
    match m.handle_key(named_key(KeyCode::Enter), SLASH) {
        MiniBufferEvent::Confirm(s) => assert_eq!(s, "foo "),
        _ => panic!("expected a confirmed line"),
    }
    let mut e = MiniBuffer::new(':');
    let event = e.handle_key(named_key(KeyCode::Enter), SLASH);
    assert!(matches!(event, MiniBufferEvent::ConfirmEmpty));
}

#[test]
fn cursor_column_counts_cells() {
    // One cell is left free, the prompt takes one, and a wide character two.
    let m = typed("a漢");
    assert_eq!(m.statusline_cursor_col(), 5);
    assert_eq!(m.checked_cursor_col(), Some(5));
    let long = typed(&"x".repeat(70_000));
    assert_eq!(long.checked_cursor_col(), None);
}

//! Typing in insert mode, and characters that come in pairs.

use crate::grapheme::{prev_boundary, prev_grapheme_boundary};
use crate::keymap::{canon, KeyTrie, Walk, WalkResult};
use crate::keys::{KeyCode, KeyEvent};
use crate::selection::{Selection, SelectionSet, Sels};
use crate::text::Text;
use vstd::prelude::*;
use vstd::string::*;

verus! {

/// Two characters that belong together. The two of a symmetric pair are equal.
#[derive(Debug, Clone, Copy, PartialEq, Eq, Structural)]
pub struct Pair {
    pub open: char,
    pub close: char,
}

impl Pair {
    pub fn is_symmetric(&self) -> (r: bool)
        ensures
            r == (self.open == self.close),
    {
        self.open == self.close
    }
}

/// Every selection is a cursor in the text.
pub open spec fn inside(sels: Sels, len: nat) -> bool {
    forall|i: int| 0 <= i < sels.sels.len() ==> (#[trigger] sels.sels[i]).head <= len
}

/// The selection is a cursor on `c`.
pub open spec fn on_char(sel: Selection, text: Seq<char>, c: char) -> bool {
    sel.anchor == sel.head && sel.head < text.len() && text[sel.head as int] == c
}

/// Every selection is a cursor on `c`.
pub open spec fn all_on_char(sels: Sels, text: Seq<char>, c: char) -> bool {
    forall|i: int| 0 <= i < sels.sels.len() ==> on_char(#[trigger] sels.sels[i], text, c)
}

/// The two characters are a pair.
pub open spec fn paired(pairs: Seq<Pair>, open: char, close: char) -> bool {
    exists|i: int|
        0 <= i < pairs.len() && (#[trigger] pairs[i]).open == open && pairs[i].close == close
}

/// The selection is a cursor between the two characters of a pair.
pub open spec fn in_pair(sel: Selection, text: Seq<char>, pairs: Seq<Pair>) -> bool {
    let before = prev_boundary(text, sel.head as int);
    sel.anchor == sel.head && 0 < sel.head && sel.head < text.len() && paired(
        pairs,
        text[before],
        text[sel.head as int],
    )
}

/// Every selection is a cursor between the two characters of a pair.
pub open spec fn all_in_pair(sels: Sels, text: Seq<char>, pairs: Seq<Pair>) -> bool {
    forall|i: int| 0 <= i < sels.sels.len() ==> in_pair(#[trigger] sels.sels[i], text, pairs)
}

/// A pair suits at a selection that is no cursor, and where the text around leaves room.
pub open spec fn suits(sels: Sels, clear: Seq<bool>, i: int) -> bool {
    sels.sels[i].anchor != sels.sels[i].head || clear[i]
}

/// A pair suits at every selection.
pub open spec fn all_suit(sels: Sels, clear: Seq<bool>) -> bool {
    forall|i: int| 0 <= i < sels.sels.len() ==> #[trigger] suits(sels, clear, i)
}

/// The first pair that opens with `c`.
pub open spec fn opened_by(pairs: Seq<Pair>, c: char) -> Option<Pair>
    decreases pairs.len(),
{
    if pairs.len() == 0 {
        None
    } else if pairs[0].open == c {
        Some(pairs[0])
    } else {
        opened_by(pairs.drop_first(), c)
    }
}

/// `c` closes a pair whose two characters differ.
pub open spec fn closes(pairs: Seq<Pair>, c: char) -> bool {
    exists|i: int|
        0 <= i < pairs.len() && (#[trigger] pairs[i]).close == c && pairs[i].open != pairs[i].close
}

/// Every selection is a cursor on `ch`, so that typing it again only moves on.
pub fn should_skip_close(text: &Text, sels: &SelectionSet, ch: char) -> (r: bool)
    ensures
        r == all_on_char(sels@, text@, ch),
{
    let n = sels.len();
    let mut i: usize = 0;
    while i < n
        invariant
            i <= n == sels@.sels.len(),
            forall|j: int| 0 <= j < i ==> on_char(#[trigger] sels@.sels[j], text@, ch),
        decreases n - i,
    {
        let sel = sels.get(i);
        let here = match text.char_at(sel.head) {
            Some(c) => c == ch,
            None => false,
        };
        if !sel.is_collapsed() || !here {
            assert(!on_char(sels@.sels[i as int], text@, ch));
            return false;
        }
        i = i + 1;
    }
    true
}

fn is_pair(pairs: &Vec<Pair>, open: char, close: char) -> (r: bool)
    ensures
        r == paired(pairs@, open, close),
{
    let n = pairs.len();
    let mut i: usize = 0;
    while i < n
        invariant
            i <= n == pairs@.len(),
            forall|j: int|
                0 <= j < i ==> (#[trigger] pairs@[j]).open != open || pairs@[j].close != close,
        decreases n - i,
    {
        if pairs[i].open == open && pairs[i].close == close {
            return true;
        }
        i = i + 1;
    }
    false
}

/// Every selection is a cursor between the two characters of a pair, so that one press of
/// backspace deletes both.
pub fn is_between_pair(text: &Text, sels: &SelectionSet, pairs: &Vec<Pair>) -> (r: bool)
    requires
        inside(sels@, text@.len()),
    ensures
        r == all_in_pair(sels@, text@, pairs@),
{
    let n = sels.len();
    let mut i: usize = 0;
    while i < n
        invariant
            i <= n == sels@.sels.len(),
            inside(sels@, text@.len()),
            forall|j: int| 0 <= j < i ==> in_pair(#[trigger] sels@.sels[j], text@, pairs@),
        decreases n - i,
    {
        let sel = sels.get(i);
        if !sel.is_collapsed() || sel.head == 0 {
            assert(!in_pair(sels@.sels[i as int], text@, pairs@));
            return false;
        }
        let prev = prev_grapheme_boundary(text, sel.head);
        let between = match text.char_at(prev) {
            Some(before) => match text.char_at(sel.head) {
                Some(at) => is_pair(pairs, before, at),
                None => false,
            },
            None => false,
        };
        if !between {
            assert(!in_pair(sels@.sels[i as int], text@, pairs@));
            return false;
        }
        i = i + 1;
    }
    true
}

/// A pair may be put in at every selection. `clear` says, for each of them, whether the
/// text around it leaves room for the pair; a selection of some text is wrapped in any
/// case.
pub fn should_auto_pair(sels: &SelectionSet, clear: &Vec<bool>) -> (r: bool)
    requires
        clear@.len() == sels@.sels.len(),
    ensures
        r == all_suit(sels@, clear@),
{
    let n = sels.len();
    let mut i: usize = 0;
    while i < n
        invariant
            i <= n == sels@.sels.len(),
            clear@.len() == n,
            forall|j: int| 0 <= j < i ==> #[trigger] suits(sels@, clear@, j),
        decreases n - i,
    {
        let sel = sels.get(i);
        if sel.is_collapsed() && !clear[i] {
            assert(!suits(sels@, clear@, i as int));
            return false;
        }
        i = i + 1;
    }
    true
}

fn find_open(pairs: &Vec<Pair>, c: char) -> (r: Option<Pair>)
    ensures
        r == opened_by(pairs@, c),
{
    let n = pairs.len();
    let mut i: usize = 0;
    assert(pairs@.skip(0) =~= pairs@);
    while i < n
        invariant
            i <= n == pairs@.len(),
            opened_by(pairs@, c) == opened_by(pairs@.skip(i as int), c),
        decreases n - i,
    {
        assert(pairs@.skip(i as int).drop_first() =~= pairs@.skip(i + 1));
        if pairs[i].open == c {
            return Some(pairs[i]);
        }
        i = i + 1;
    }
    None
}

fn is_close(pairs: &Vec<Pair>, c: char) -> (r: bool)
    ensures
        r == closes(pairs@, c),
{
    let n = pairs.len();
    let mut i: usize = 0;
    while i < n
        invariant
            i <= n == pairs@.len(),
            forall|j: int|
                0 <= j < i ==> (#[trigger] pairs@[j]).close != c || pairs@[j].open
                    == pairs@[j].close,
        decreases n - i,
    {
        if pairs[i].close == c && !pairs[i].is_symmetric() {
            return true;
        }
        i = i + 1;
    }
    false
}

/// What a key does in insert mode.
#[derive(Debug)]
pub enum InsertAction {
    /// Run a command.
    Execute { name: String },
    /// Move every cursor one cluster to the right.
    MoveRight,
    /// Put in both characters of a pair, or wrap the selections in them.
    InsertPair { open: char, close: char },
    InsertChar { ch: char },
    /// Delete the two characters around every cursor.
    DeletePair,
    DeleteBackward,
    DeleteForward,
    Nothing,
}

/// What a key does in insert mode, as a value.
pub enum Typing {
    Execute(Seq<char>),
    MoveRight,
    InsertPair(char, char),
    InsertChar(char),
    DeletePair,
    DeleteBackward,
    DeleteForward,
    Nothing,
}

impl View for InsertAction {
    type V = Typing;

    open spec fn view(&self) -> Typing {
        match self {
            InsertAction::Execute { name } => Typing::Execute(name@),
            InsertAction::MoveRight => Typing::MoveRight,
            InsertAction::InsertPair { open, close } => Typing::InsertPair(*open, *close),
            InsertAction::InsertChar { ch } => Typing::InsertChar(*ch),
            InsertAction::DeletePair => Typing::DeletePair,
            InsertAction::DeleteBackward => Typing::DeleteBackward,
            InsertAction::DeleteForward => Typing::DeleteForward,
            InsertAction::Nothing => Typing::Nothing,
        }
    }
}

/// The pairs that are completed while typing; `None` where that is switched off.
pub open spec fn typed_char(
    pairs: Option<Seq<Pair>>,
    text: Seq<char>,
    sels: Sels,
    clear: Seq<bool>,
    c: char,
) -> Typing {
    match pairs {
        Some(ps) => match opened_by(ps, c) {
            Some(p) => if p.open == p.close && all_on_char(sels, text, c) {
                Typing::MoveRight
            } else if all_suit(sels, clear) {
                Typing::InsertPair(p.open, p.close)
            } else {
                Typing::InsertChar(c)
            },
            None => if closes(ps, c) && all_on_char(sels, text, c) {
                Typing::MoveRight
            } else {
                Typing::InsertChar(c)
            },
        },
        None => Typing::InsertChar(c),
    }
}

/// What a key that no binding takes does in insert mode.
pub open spec fn typed_key(
    pairs: Option<Seq<Pair>>,
    text: Seq<char>,
    sels: Sels,
    clear: Seq<bool>,
    key: KeyEvent,
) -> Typing {
    match key.code {
        KeyCode::Char(c) => if !key.modifiers.control {
            typed_char(pairs, text, sels, clear, c)
        } else {
            Typing::Nothing
        },
        KeyCode::Enter => Typing::InsertChar('\n'),
        KeyCode::Backspace => match pairs {
            Some(ps) => if all_in_pair(sels, text, ps) {
                Typing::DeletePair
            } else {
                Typing::DeleteBackward
            },
            None => Typing::DeleteBackward,
        },
        KeyCode::Delete => Typing::DeleteForward,
        _ => Typing::Nothing,
    }
}

/// What is known of the pairs, as values.
pub open spec fn pairs_of(pairs: Option<&Vec<Pair>>) -> Option<Seq<Pair>> {
    match pairs {
        Some(v) => Some(v@),
        None => None,
    }
}

fn type_char(
    pairs: Option<&Vec<Pair>>,
    text: &Text,
    sels: &SelectionSet,
    clear: &Vec<bool>,
    ch: char,
) -> (r: InsertAction)
    requires
        clear@.len() == sels@.sels.len(),
    ensures
        r@ == typed_char(pairs_of(pairs), text@, sels@, clear@, ch),
{
    match pairs {
        Some(ps) => match find_open(ps, ch) {
            Some(pair) => {
                if pair.is_symmetric() && should_skip_close(text, sels, ch) {
                    InsertAction::MoveRight
                } else if should_auto_pair(sels, clear) {
                    InsertAction::InsertPair { open: pair.open, close: pair.close }
                } else {
                    InsertAction::InsertChar { ch }
                }
            },
            None => {
                if is_close(ps, ch) && should_skip_close(text, sels, ch) {
                    InsertAction::MoveRight
                } else {
                    InsertAction::InsertChar { ch }
                }
            },
        },
        None => InsertAction::InsertChar { ch },
    }
}

/// The keys typed since insert mode began, and whether the cursors step back at its end.
#[derive(Debug)]
pub struct InsertSession {
    pub keystrokes: Vec<KeyEvent>,
    pub step_back_on_exit: bool,
}

/// The session with one more key.
pub open spec fn session_with(s: Option<InsertSession>, key: KeyEvent) -> Option<(Seq<KeyEvent>, bool)> {
    match s {
        Some(s) => Some((s.keystrokes@.push(key), s.step_back_on_exit)),
        None => None,
    }
}

/// What a session holds.
pub open spec fn session_of(s: Option<InsertSession>) -> Option<(Seq<KeyEvent>, bool)> {
    match s {
        Some(s) => Some((s.keystrokes@, s.step_back_on_exit)),
        None => None,
    }
}

/// Handles a key in insert mode. A bound key runs its command; every other key is kept, to
/// be typed again when the insertion is repeated, and changes the text.
pub fn handle_insert(
    session: &mut Option<InsertSession>,
    insert: &KeyTrie,
    pairs: Option<&Vec<Pair>>,
    text: &Text,
    sels: &SelectionSet,
    clear: &Vec<bool>,
    key: KeyEvent,
) -> (r: InsertAction)
    requires
        inside(sels@, text@.len()),
        clear@.len() == sels@.sels.len(),
    ensures
        match insert.at(canon(seq![key])) {
            Walk::Leaf(n) => r@ == Typing::Execute(n) && session_of(*final(session)) == session_of(
                *old(session),
            ),
            _ => r@ == typed_key(pairs_of(pairs), text@, sels@, clear@, key) && session_of(
                *final(session),
            ) == session_with(*old(session), key),
        },
{
    let mut ks: Vec<KeyEvent> = Vec::new();
    ks.push(key);
    assert(ks@ =~= seq![key]);
    match insert.walk(&ks) {
        WalkResult::Leaf(cmd) => {
            return InsertAction::Execute { name: cmd.name };
        },
        _ => {},
    }
    match session.take() {
        Some(s) => {
            let mut keystrokes = s.keystrokes;
            keystrokes.push(key);
            *session = Some(
                InsertSession { keystrokes, step_back_on_exit: s.step_back_on_exit },
            );
        },
        None => {},
    }
    match key.code {
        KeyCode::Char(ch) => {
            if !key.modifiers.control {
                type_char(pairs, text, sels, clear, ch)
            } else {
                InsertAction::Nothing
            }
        },
        KeyCode::Enter => InsertAction::InsertChar { ch: '\n' },
        KeyCode::Backspace => {
            let between = match pairs {
                Some(ps) => is_between_pair(text, sels, ps),
                None => false,
            };
            if between {
                InsertAction::DeletePair
            } else {
                InsertAction::DeleteBackward
            }
        },
        KeyCode::Delete => InsertAction::DeleteForward,
        _ => InsertAction::Nothing,
    }
}

/// Some selection is more than a cursor.
pub open spec fn some_wide(sels: Sels) -> bool {
    exists|i: int|
        0 <= i < sels.sels.len() && (#[trigger] sels.sels[i]).anchor != sels.sels[i].head
}

/// In normal mode, a character that is not bound wraps the selections in the pair that it
/// opens, where there is something selected.
pub fn pair_to_wrap(pairs: Option<&Vec<Pair>>, sels: &SelectionSet, ch: char) -> (r: Option<Pair>)
    ensures
        r == (match pairs {
            Some(ps) => if some_wide(sels@) {
                opened_by(ps@, ch)
            } else {
                None
            },
            None => None,
        }),
{
    match pairs {
        Some(ps) => {
            let n = sels.len();
            let mut i: usize = 0;
            while i < n
                invariant
                    i <= n == sels@.sels.len(),
                    pairs == Some(ps),
                    forall|j: int|
                        0 <= j < i ==> (#[trigger] sels@.sels[j]).anchor == sels@.sels[j].head,
                decreases n - i,
            {
                let sel = sels.get(i);
                if !sel.is_collapsed() {
                    assert(sels@.sels[i as int].anchor != sels@.sels[i as int].head);
                    return find_open(ps, ch);
                }
                i = i + 1;
            }
            None
        },
        None => None,
    }
}

proof fn lemma_opened_by(pairs: Seq<Pair>, c: char, i: int)
    requires
        0 <= i < pairs.len(),
        pairs[i].open == c,
        forall|j: int| 0 <= j < i ==> (#[trigger] pairs[j]).open != c,
    ensures
        opened_by(pairs, c) == Some(pairs[i]),
    decreases i,
{
    if i > 0 {
        assert(pairs[0].open != c);
        let rest = pairs.drop_first();
        assert forall|j: int| 0 <= j < i - 1 implies (#[trigger] rest[j]).open != c by {
            assert(pairs[j + 1].open != c);
        }
        lemma_opened_by(rest, c, i - 1);
    }
}

proof fn lemma_opened_by_none(pairs: Seq<Pair>, c: char)
    requires
        forall|j: int| 0 <= j < pairs.len() ==> (#[trigger] pairs[j]).open != c,
    ensures
        opened_by(pairs, c) is None,
    decreases pairs.len(),
{
    if pairs.len() > 0 {
        assert(pairs[0].open != c);
        let rest = pairs.drop_first();
        assert forall|j: int| 0 <= j < rest.len() implies (#[trigger] rest[j]).open != c by {
            assert(pairs[j + 1].open != c);
        }
        lemma_opened_by_none(rest, c);
    }
}

/// Of several pairs that open with the same character the first counts, and where none does,
/// there is none.
pub proof fn law_first_pair_counts(pairs: Seq<Pair>, c: char)
    ensures
        match opened_by(pairs, c) {
            Some(p) => p.open == c && exists|i: int|
                0 <= i < pairs.len() && #[trigger] pairs[i] == p && forall|j: int|
                    0 <= j < i ==> (#[trigger] pairs[j]).open != c,
            None => forall|j: int| 0 <= j < pairs.len() ==> (#[trigger] pairs[j]).open != c,
        },
    decreases pairs.len(),
{
    if pairs.len() > 0 {
        let rest = pairs.drop_first();
        law_first_pair_counts(rest, c);
        if pairs[0].open == c {
            assert(pairs[0] == opened_by(pairs, c)->0);
        } else {
            match opened_by(rest, c) {
                Some(p) => {
                    let i = choose|i: int|
                        0 <= i < rest.len() && #[trigger] rest[i] == p && forall|j: int|
                            0 <= j < i ==> (#[trigger] rest[j]).open != c;
                    assert(pairs[i + 1] == p);
                    assert forall|j: int| 0 <= j < i + 1 implies (#[trigger] pairs[j]).open
                        != c by {
                        if j > 0 {
                            assert(rest[j - 1].open != c);
                        }
                    }
                },
                None => {
                    assert forall|j: int| 0 <= j < pairs.len() implies (#[trigger] pairs[j]).open
                        != c by {
                        if j > 0 {
                            assert(rest[j - 1].open != c);
                        }
                    }
                },
            }
        }
    }
}

/// Typing the character that closes a pair, while every selection is a cursor on that character,
/// steps over it and puts nothing in: whether the pair is symmetric or not, and whether or not
/// there is room for a pair. The character may open another pair only behind a symmetric one.
pub proof fn law_closing_char_is_stepped_over(
    pairs: Seq<Pair>,
    text: Seq<char>,
    sels: Sels,
    clear: Seq<bool>,
    c: char,
    i: int,
)
    requires
        0 <= i < pairs.len(),
        pairs[i].close == c,
        forall|j: int| 0 <= j < pairs.len() && j < i ==> (#[trigger] pairs[j]).open != c,
        pairs[i].open != c ==> forall|j: int|
            0 <= j < pairs.len() ==> (#[trigger] pairs[j]).open != c,
        forall|j: int|
            0 <= j < sels.sels.len() ==> (#[trigger] sels.sels[j]).anchor == sels.sels[j].head
                && sels.sels[j].head < text.len() && text[sels.sels[j].head as int] == c,
    ensures
        typed_char(Some(pairs), text, sels, clear, c) == Typing::MoveRight,
{
    if pairs[i].open == c {
        lemma_opened_by(pairs, c, i);
    } else {
        lemma_opened_by_none(pairs, c);
    }
}

/// Typing the character that opens a pair puts both of its characters in, where every selection
/// holds some text or has room for a pair, and the character alone where one has not. A cursor
/// that stands on the closing character of a symmetric pair is not asked of here.
pub proof fn law_opening_char_puts_the_pair_in(
    pairs: Seq<Pair>,
    text: Seq<char>,
    sels: Sels,
    clear: Seq<bool>,
    c: char,
    i: int,
)
    requires
        0 <= i < pairs.len(),
        pairs[i].open == c,
        forall|j: int| 0 <= j < i ==> (#[trigger] pairs[j]).open != c,
        pairs[i].close != c || exists|j: int|
            0 <= j < sels.sels.len() && ((#[trigger] sels.sels[j]).anchor != sels.sels[j].head
                || sels.sels[j].head >= text.len() || text[sels.sels[j].head as int] != c),
    ensures
        (forall|j: int|
            0 <= j < sels.sels.len() ==> (#[trigger] sels.sels[j]).anchor != sels.sels[j].head
                || clear[j]) ==> typed_char(Some(pairs), text, sels, clear, c)
            == Typing::InsertPair(c, pairs[i].close),
        (exists|j: int|
            0 <= j < sels.sels.len() && (#[trigger] sels.sels[j]).anchor == sels.sels[j].head
                && !clear[j]) ==> typed_char(Some(pairs), text, sels, clear, c)
            == Typing::InsertChar(c),
{
    lemma_opened_by(pairs, c, i);
    if pairs[i].close == c {
        let j = choose|j: int|
            0 <= j < sels.sels.len() && ((#[trigger] sels.sels[j]).anchor != sels.sels[j].head
                || sels.sels[j].head >= text.len() || text[sels.sels[j].head as int] != c);
        assert(!on_char(sels.sels[j], text, c));
    }
    if forall|j: int|
        0 <= j < sels.sels.len() ==> (#[trigger] sels.sels[j]).anchor != sels.sels[j].head
            || clear[j] {
        assert forall|j: int| 0 <= j < sels.sels.len() implies #[trigger] suits(
            sels,
            clear,
            j,
        ) by {
            assert(sels.sels[j].anchor != sels.sels[j].head || clear[j]);
        }
    }
    if exists|j: int|
        0 <= j < sels.sels.len() && (#[trigger] sels.sels[j]).anchor == sels.sels[j].head
            && !clear[j] {
        let j = choose|j: int|
            0 <= j < sels.sels.len() && (#[trigger] sels.sels[j]).anchor == sels.sels[j].head
                && !clear[j];
        assert(!suits(sels, clear, j));
    }
}

/// A character that opens no pair is put in by itself, unless it closes one and every selection
/// is a cursor on it. Where pairs are switched off, every character is.
pub proof fn law_other_chars_are_put_in(
    pairs: Seq<Pair>,
    text: Seq<char>,
    sels: Sels,
    clear: Seq<bool>,
    c: char,
)
    ensures
        typed_char(None, text, sels, clear, c) == Typing::InsertChar(c),
        (forall|j: int| 0 <= j < pairs.len() ==> (#[trigger] pairs[j]).open != c) && ((forall|j: int|
            0 <= j < pairs.len() ==> (#[trigger] pairs[j]).close != c) || (exists|j: int|
            0 <= j < sels.sels.len() && ((#[trigger] sels.sels[j]).anchor != sels.sels[j].head
                || sels.sels[j].head >= text.len() || text[sels.sels[j].head as int] != c)))
            ==> typed_char(Some(pairs), text, sels, clear, c) == Typing::InsertChar(c),
{
    if forall|j: int| 0 <= j < pairs.len() ==> (#[trigger] pairs[j]).open != c {
        lemma_opened_by_none(pairs, c);
        if exists|j: int|
            0 <= j < sels.sels.len() && ((#[trigger] sels.sels[j]).anchor != sels.sels[j].head
                || sels.sels[j].head >= text.len() || text[sels.sels[j].head as int] != c) {
            let j = choose|j: int|
                0 <= j < sels.sels.len() && ((#[trigger] sels.sels[j]).anchor
                    != sels.sels[j].head || sels.sels[j].head >= text.len()
                    || text[sels.sels[j].head as int] != c);
            assert(!on_char(sels.sels[j], text, c));
        }
    }
}

/// Backspace deletes both characters of a pair where every selection is a cursor between two
/// characters that are a pair, and one character everywhere else.
pub proof fn law_backspace_deletes_a_pair_as_one(
    pairs: Seq<Pair>,
    text: Seq<char>,
    sels: Sels,
    clear: Seq<bool>,
    key: KeyEvent,
)
    requires
        key.code == KeyCode::Backspace,
    ensures
        typed_key(None, text, sels, clear, key) == Typing::DeleteBackward,
        (forall|j: int|
            0 <= j < sels.sels.len() ==> {
                let at = (#[trigger] sels.sels[j]).head as int;
                &&& sels.sels[j].anchor == at
                &&& 0 < at < text.len()
                &&& exists|i: int|
                    0 <= i < pairs.len() && (#[trigger] pairs[i]).open == text[prev_boundary(
                        text,
                        at,
                    )] && pairs[i].close == text[at]
            }) ==> typed_key(Some(pairs), text, sels, clear, key) == Typing::DeletePair,
        (exists|j: int|
            0 <= j < sels.sels.len() && {
                let at = (#[trigger] sels.sels[j]).head as int;
                ||| sels.sels[j].anchor != at
                ||| at == 0
                ||| at >= text.len()
                ||| forall|i: int|
                    0 <= i < pairs.len() ==> (#[trigger] pairs[i]).open != text[prev_boundary(
                        text,
                        at,
                    )] || pairs[i].close != text[at]
            }) ==> typed_key(Some(pairs), text, sels, clear, key) == Typing::DeleteBackward,
{
    if exists|j: int|
        0 <= j < sels.sels.len() && {
            let at = (#[trigger] sels.sels[j]).head as int;
            ||| sels.sels[j].anchor != at
            ||| at == 0
            ||| at >= text.len()
            ||| forall|i: int|
                0 <= i < pairs.len() ==> (#[trigger] pairs[i]).open != text[prev_boundary(
                    text,
                    at,
                )] || pairs[i].close != text[at]
        } {
        let j = choose|j: int|
            0 <= j < sels.sels.len() && {
                let at = (#[trigger] sels.sels[j]).head as int;
                ||| sels.sels[j].anchor != at
                ||| at == 0
                ||| at >= text.len()
                ||| forall|i: int|
                    0 <= i < pairs.len() ==> (#[trigger] pairs[i]).open != text[prev_boundary(
                        text,
                        at,
                    )] || pairs[i].close != text[at]
            };
        assert(!in_pair(sels.sels[j], text, pairs));
    } else {
        assert forall|j: int| 0 <= j < sels.sels.len() implies in_pair(
            #[trigger] sels.sels[j],
            text,
            pairs,
        ) by {
            let at = sels.sels[j].head as int;
            assert(sels.sels[j].anchor == at && 0 < at < text.len());
        }
    }
}

/// Enter puts a line end in, delete deletes forward, and a character with control held down does
/// nothing, with and without pairs.
pub proof fn law_other_keys_in_insert_mode(
    pairs: Option<Seq<Pair>>,
    text: Seq<char>,
    sels: Sels,
    clear: Seq<bool>,
    key: KeyEvent,
)
    ensures
        key.code == KeyCode::Enter ==> typed_key(pairs, text, sels, clear, key)
            == Typing::InsertChar('\n'),
        key.code == KeyCode::Delete ==> typed_key(pairs, text, sels, clear, key)
            == Typing::DeleteForward,
        key.code is Char && key.modifiers.control ==> typed_key(pairs, text, sels, clear, key)
            == Typing::Nothing,
        key.code is Char && !key.modifiers.control ==> typed_key(pairs, text, sels, clear, key)
            == typed_char(pairs, text, sels, clear, key.code->Char_0),
        key.code is Tab || key.code is Left || key.code is Right || key.code is Up
            || key.code is Down ==> typed_key(pairs, text, sels, clear, key) == Typing::Nothing,
{
}

/// A key that is kept in a session comes last in it, behind all that was kept before.
pub proof fn law_session_keeps_keys_in_order(s: InsertSession, key: KeyEvent)
    ensures
        session_with(None, key) is None,
        session_of(None) is None,
        session_of(Some(s)) == Some((s.keystrokes@, s.step_back_on_exit)),
        session_with(Some(s), key) is Some,
        ({
            let (keys, back) = session_with(Some(s), key)->0;
            &&& keys.len() == s.keystrokes@.len() + 1
            &&& keys.last() == key
            &&& keys.drop_last() == s.keystrokes@
            &&& back == s.step_back_on_exit
        }),
{
    assert(s.keystrokes@.push(key).drop_last() =~= s.keystrokes@);
}

} // verus!

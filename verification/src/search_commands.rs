//! Commands that search, and the modes in which a pattern is typed.

use crate::buffer::{Buffer, SearchPattern};
use crate::dispatch::Mode;
use crate::focus::Focus;
use crate::grapheme::{
    chars_between, end_inclusive, law_boundary_stays, next_boundary, next_grapheme_boundary,
};
use crate::messages::{fails, CommandError};
use crate::modes::Modal;
use crate::pane_state::{PaneBufferState, PaneTransient, SearchCursor};
use crate::registers::{texts, Held, RegisterSet, SEARCH_REGISTER};
use crate::search::{
    all_matches, behind_last_before, find_all_matches, find_match_from_cache, first_from,
    lemma_char_spans_ordered, match_selection, next_match, pattern_text, regex_compiles,
    regex_matches,
    search_sel, with_pattern, MotionMode, SearchDirection, SearchState,
};
use crate::selection::{lemma_single_merged, Selection, SelectionSet, Sels};
use crate::strings::string_of;
use vstd::prelude::*;
use vstd::string::*;

verus! {

/// The pattern to search for: that of the buffer, or else the one in the search register,
/// where it compiles.
pub open spec fn pattern_at_hand(doc: Buffer, registers: RegisterSet) -> Option<Seq<char>> {
    match pattern_text(doc.search_pattern) {
        Some(p) => Some(p),
        None => match registers.text(SEARCH_REGISTER) {
            Some(t) => if t.len() > 0 && t[0].len() > 0 && regex_compiles(t[0]) {
                Some(t[0])
            } else {
                None
            },
            None => None,
        },
    }
}

/// The matches to jump among: those that are known, or else those found now.
pub open spec fn matches_at_hand(doc: Buffer, pattern: Seq<char>) -> Seq<(usize, usize)> {
    if doc.search_matches@.len() > 0 {
        doc.search_matches@
    } else if regex_compiles(pattern) {
        all_matches(pattern, doc.doc())
    } else {
        Seq::empty()
    }
}

/// Where the search goes on from a match.
pub open spec fn past_match(
    text: Seq<char>,
    m: (usize, usize),
    direction: SearchDirection,
) -> usize {
    match direction {
        SearchDirection::Forward => next_boundary(text, m.1 as int) as usize,
        SearchDirection::Backward => m.0,
    }
}

/// The match that `n` further jumps lead to, and whether any of them, or one before,
/// wrapped.
pub open spec fn jumped(
    text: Seq<char>,
    ms: Seq<(usize, usize)>,
    from: usize,
    direction: SearchDirection,
    n: nat,
    last: Option<(usize, usize)>,
    wrapped: bool,
) -> Option<(usize, usize, bool)>
    decreases n,
{
    if n == 0 {
        match last {
            Some((a, b)) => Some((a, b, wrapped)),
            None => None,
        }
    } else {
        match next_match(ms, from, direction) {
            Some((a, b, w)) => jumped(
                text,
                ms,
                past_match(text, (a, b), direction),
                direction,
                (n - 1) as nat,
                Some((a, b)),
                wrapped || w,
            ),
            None => None,
        }
    }
}

impl Focus {
    /// Where a jump starts: behind the selection, or at its start.
    pub open spec fn jump_from(self, direction: SearchDirection) -> usize {
        match direction {
            SearchDirection::Forward => next_boundary(
                self.text(),
                end_inclusive(self.primary(), self.text()),
            ) as usize,
            SearchDirection::Backward => self.primary().spec_start(),
        }
    }

    /// The match that `count` jumps lead to.
    pub open spec fn jump_target(
        self,
        pattern: Seq<char>,
        count: usize,
        direction: SearchDirection,
    ) -> Option<(usize, usize, bool)> {
        jumped(
            self.text(),
            matches_at_hand(self.doc, pattern),
            self.jump_from(direction),
            direction,
            if count == 0 {
                1
            } else {
                count as nat
            },
            None,
            false,
        )
    }

    /// After a jump to the selection `sel`.
    pub open spec fn jumped_to(self, after: Focus, pattern: Seq<char>, sel: Selection, wrapped: bool)
        -> bool {
        &&& with_pattern(self.doc, after.doc, Some(pattern))
        &&& after == (Focus {
            doc: after.doc,
            here: PaneBufferState {
                selections: after.here.selections,
                search_cursor: SearchCursor { wrapped, ..self.here.search_cursor },
                ..self.here
            },
            ..self
        })
        &&& after.sels() == self.sels().with_primary(sel).merged()
    }

    /// Makes sure that the buffer has a pattern, and tells whether it has.
    fn ensure_search_regex(&mut self, registers: &RegisterSet) -> (r: bool)
        ensures
            ({
                let p = pattern_at_hand(old(self).doc, *registers);
                &&& r == (p is Some)
                &&& r ==> with_pattern(old(self).doc, final(self).doc, p)
                &&& *final(self) == (Focus { doc: final(self).doc, ..*old(self) })
                &&& !r ==> *final(self) == *old(self)
            }),
    {
        if self.doc.search_pattern.is_some() {
            return true;
        }
        match registers.read_text(SEARCH_REGISTER) {
            Some(t) => {
                if t.len() == 0 {
                    return false;
                }
                assert(texts(t@)[0] == t@[0]@);
                if t[0].as_str().is_empty() {
                    return false;
                }
                match find_all_matches(&self.doc.text, t[0].as_str()) {
                    Some(_) => {
                        self.doc.search_pattern = Some(
                            SearchPattern { pattern_str: t[0].clone() },
                        );
                        true
                    },
                    None => false,
                }
            },
            None => false,
        }
    }

    fn known_matches(&self, pattern: &str) -> (r: Vec<(usize, usize)>)
        ensures
            r@ == matches_at_hand(self.doc, pattern@),
    {
        let n = self.doc.search_matches.len();
        if n > 0 {
            let mut r: Vec<(usize, usize)> = Vec::new();
            let mut i: usize = 0;
            while i < n
                invariant
                    i <= n == self.doc.search_matches@.len(),
                    r@ == self.doc.search_matches@.take(i as int),
                decreases n - i,
            {
                r.push(self.doc.search_matches[i]);
                i = i + 1;
                assert(r@ =~= self.doc.search_matches@.take(i as int));
            }
            assert(r@ =~= self.doc.search_matches@);
            return r;
        }
        match find_all_matches(&self.doc.text, pattern) {
            Some(ms) => ms,
            None => Vec::new(),
        }
    }

    /// Jumps `count` matches on, at least one. Without a pattern nothing happens. Without
    /// a match the jump fails, and only the pattern is kept.
    pub fn search_jump(
        &mut self,
        registers: &RegisterSet,
        count: usize,
        direction: SearchDirection,
        mode: MotionMode,
    ) -> (r: Result<(), CommandError>)
        ensures
            old(self).wf() ==> final(self).wf(),
            match pattern_at_hand(old(self).doc, *registers) {
                None => r is Ok && *final(self) == *old(self),
                Some(p) => match old(self).jump_target(p, count, direction) {
                    Some((a, b, wrapped)) => {
                        let anchor = if mode == MotionMode::Extend {
                            Some(old(self).primary().anchor)
                        } else {
                            None
                        };
                        r is Ok && old(self).jumped_to(
                            *final(self),
                            p,
                            match_selection(a, b, anchor, direction),
                            wrapped,
                        )
                    },
                    None => {
                        &&& fails(r, "no match"@)
                        &&& *final(self) == (Focus { doc: final(self).doc, ..*old(self) })
                        &&& with_pattern(old(self).doc, final(self).doc, Some(p))
                    },
                },
            },
    {
        let ghost o = *self;
        if !self.ensure_search_regex(registers) {
            return Ok(());
        }
        let pattern: String = match &self.doc.search_pattern {
            Some(p) => p.pattern_str.clone(),
            None => String::new(),
        };
        let primary = self.here.selections.primary();
        let mut from: usize = match direction {
            SearchDirection::Forward => next_grapheme_boundary(
                &self.doc.text,
                primary.end_inclusive(&self.doc.text),
            ),
            SearchDirection::Backward => primary.start(),
        };
        let anchor: Option<usize> = if mode == MotionMode::Extend {
            Some(primary.anchor)
        } else {
            None
        };
        let matches = self.known_matches(pattern.as_str());
        assert(matches@ == matches_at_hand(o.doc, pattern@));
        assert(self.text() == o.text());
        let hops: usize = if count == 0 {
            1
        } else {
            count
        };
        let mut left: usize = hops;
        let mut last: Option<(usize, usize)> = None;
        let mut wrapped = false;
        while left > 0
            invariant
                left <= hops,
                o == *old(self),
                self.text() == o.text(),
                o.jump_target(pattern@, count, direction) == jumped(
                    o.text(),
                    matches@,
                    from,
                    direction,
                    left as nat,
                    last,
                    wrapped,
                ),
                left < hops ==> last is Some,
                hops > 0,
                *self == (Focus { doc: self.doc, ..o }),
                with_pattern(o.doc, self.doc, Some(pattern@)),
                pattern_at_hand(o.doc, *registers) == Some(pattern@),
            decreases left,
        {
            match find_match_from_cache(&matches, from, direction) {
                Some((a, b, w)) => {
                    wrapped = wrapped || w;
                    last = Some((a, b));
                    from = match direction {
                        SearchDirection::Forward => next_grapheme_boundary(&self.doc.text, b),
                        SearchDirection::Backward => a,
                    };
                },
                None => {
                    return Err(CommandError::new("no match"));
                },
            }
            left = left - 1;
        }
        match last {
            Some((a, b)) => {
                self.here.search_cursor = SearchCursor {
                    match_count: self.here.search_cursor.match_count,
                    wrapped,
                };
                self.set_primary_selection(search_sel(a, b, anchor, direction));
                Ok(())
            },
            None => Err(CommandError::new("no match")),
        }
    }

    /// The selections on all matches, the first of them primary.
    pub open spec fn on_all(ms: Seq<(usize, usize)>) -> Sels {
        Sels {
            sels: ms.map_values(|m: (usize, usize)| Selection { anchor: m.0, head: m.1 }),
            primary: 0,
        }
    }

    /// Selects every match of the pattern.
    pub fn cmd_select_all_matches(&mut self, registers: &RegisterSet) -> (r: Result<
        (),
        CommandError,
    >)
        ensures
            match pattern_at_hand(old(self).doc, *registers) {
                None => r is Ok && *final(self) == *old(self),
                Some(p) => {
                    let ms = if regex_compiles(p) {
                        all_matches(p, old(self).text())
                    } else {
                        Seq::empty()
                    };
                    &&& with_pattern(old(self).doc, final(self).doc, Some(p))
                    &&& *final(self) == (Focus {
                        doc: final(self).doc,
                        here: PaneBufferState {
                            selections: final(self).here.selections,
                            ..old(self).here
                        },
                        ..*old(self)
                    })
                    &&& if ms.len() == 0 {
                        fails(r, "no matches"@) && final(self).sels() == old(self).sels()
                    } else {
                        r is Ok && final(self).sels() == Focus::on_all(ms)
                    }
                },
            },
    {
        if !self.ensure_search_regex(registers) {
            return Ok(());
        }
        let found = match &self.doc.search_pattern {
            Some(p) => find_all_matches(&self.doc.text, p.pattern_str.as_str()),
            None => None,
        };
        let matches: Vec<(usize, usize)> = match found {
            Some(ms) => ms,
            None => Vec::new(),
        };
        let n = matches.len();
        if n == 0 {
            return Err(CommandError::new("no matches"));
        }
        let mut sels: Vec<Selection> = Vec::new();
        let mut i: usize = 0;
        while i < n
            invariant
                i <= n == matches@.len(),
                sels@ == Focus::on_all(matches@).sels.take(i as int),
            decreases n - i,
        {
            sels.push(Selection::new(matches[i].0, matches[i].1));
            i = i + 1;
            assert(sels@ =~= Focus::on_all(matches@).sels.take(i as int));
        }
        assert(sels@ =~= Focus::on_all(matches@).sels);
        self.select(SelectionSet::from_vec(sels, 0));
        Ok(())
    }

    /// Opens the input line for a search.
    fn begin_search(
        &mut self,
        modal: &mut Modal,
        search: &mut SearchState,
        direction: SearchDirection,
        prompt: char,
    )
        ensures
            *final(self) == (Focus {
                transient: PaneTransient {
                    pre_search_sels: final(self).transient.pre_search_sels,
                    search_extend: old(modal)@.keys.mode == Mode::Extend,
                    ..old(self).transient
                },
                ..*old(self)
            }),
            final(self).before_search() == old(self).sels(),
            final(self).transient.pre_search_sels is Some,
            *final(search) == (SearchState { direction, ..*old(search) }),
            final(modal)@ == old(modal)@.entering(Mode::Search).prompting(prompt),
            final(modal).wf(),
    {
        self.transient.pre_search_sels = Some(self.here.selections.clone());
        self.transient.search_extend = modal.keys.mode == Mode::Extend;
        search.direction = direction;
        modal.set_mode(Mode::Search);
        modal.open_prompt(prompt);
    }

    /// Starts to search forward. The selections are kept, to go back to them.
    pub fn cmd_search_forward(&mut self, modal: &mut Modal, search: &mut SearchState)
        ensures
            *final(self) == (Focus {
                transient: PaneTransient {
                    pre_search_sels: final(self).transient.pre_search_sels,
                    search_extend: old(modal)@.keys.mode == Mode::Extend,
                    ..old(self).transient
                },
                ..*old(self)
            }),
            final(self).before_search() == old(self).sels(),
            final(self).transient.pre_search_sels is Some,
            *final(search) == (SearchState {
                direction: SearchDirection::Forward,
                ..*old(search)
            }),
            final(modal)@ == old(modal)@.entering(Mode::Search).prompting('/'),
            final(modal).wf(),
    {
        self.begin_search(modal, search, SearchDirection::Forward, '/');
    }

    /// Starts to search backward. The selections are kept, to go back to them.
    pub fn cmd_search_backward(&mut self, modal: &mut Modal, search: &mut SearchState)
        ensures
            *final(self) == (Focus {
                transient: PaneTransient {
                    pre_search_sels: final(self).transient.pre_search_sels,
                    search_extend: old(modal)@.keys.mode == Mode::Extend,
                    ..old(self).transient
                },
                ..*old(self)
            }),
            final(self).before_search() == old(self).sels(),
            final(self).transient.pre_search_sels is Some,
            *final(search) == (SearchState {
                direction: SearchDirection::Backward,
                ..*old(search)
            }),
            final(modal)@ == old(modal)@.entering(Mode::Search).prompting('?'),
            final(modal).wf(),
    {
        self.begin_search(modal, search, SearchDirection::Backward, '?');
    }

    /// Starts to select by a pattern inside the selections, unless all of them are
    /// cursors.
    pub fn cmd_select_within(&mut self, modal: &mut Modal)
        requires
            old(modal).wf(),
        ensures
            final(modal).wf(),
            if crate::auto_pairs::some_wide(old(self).sels()) {
                &&& *final(self) == (Focus {
                    transient: PaneTransient {
                        pre_select_sels: final(self).transient.pre_select_sels,
                        ..old(self).transient
                    },
                    ..*old(self)
                })
                &&& final(self).transient.pre_select_sels is Some
                &&& final(self).before_select() == old(self).sels()
                &&& final(modal)@ == old(modal)@.entering(Mode::Select).prompting('⫽')
            } else {
                *final(self) == *old(self) && *final(modal) == *old(modal)
            },
    {
        if !wide(&self.here.selections) {
            return;
        }
        self.transient.pre_select_sels = Some(self.here.selections.clone());
        modal.set_mode(Mode::Select);
        modal.open_prompt('⫽');
    }
}

/// Whether some selection is more than a cursor.
fn wide(sels: &SelectionSet) -> (r: bool)
    ensures
        r == crate::auto_pairs::some_wide(sels@),
{
    let n = sels.len();
    let mut i: usize = 0;
    while i < n
        invariant
            i <= n == sels@.sels.len(),
            forall|j: int| 0 <= j < i ==> (#[trigger] sels@.sels[j]).anchor == sels@.sels[j].head,
        decreases n - i,
    {
        let sel = sels.get(i);
        if !sel.is_collapsed() {
            assert(sels@.sels[i as int].anchor != sels@.sels[i as int].head);
            return true;
        }
        i = i + 1;
    }
    false
}

/// A character that means more than itself in a pattern.
pub open spec fn meta_char(c: char) -> bool {
    c == '\\' || c == '.' || c == '+' || c == '*' || c == '?' || c == '(' || c == ')' || c == '|'
        || c == '[' || c == ']' || c == '{' || c == '}' || c == '^' || c == '$'
}

/// The pattern that matches `s` itself.
pub open spec fn escaped(s: Seq<char>) -> Seq<char>
    decreases s.len(),
{
    if s.len() == 0 {
        s
    } else {
        escaped(s.drop_last()) + if meta_char(s.last()) {
            seq!['\\', s.last()]
        } else {
            seq![s.last()]
        }
    }
}

/// The pattern that matches `chars` themselves.
pub fn escape_regex(chars: &Vec<char>) -> (r: String)
    ensures
        r@ == escaped(chars@),
{
    let mut out: Vec<char> = Vec::new();
    let n = chars.len();
    let mut i: usize = 0;
    assert(chars@.take(0) =~= Seq::empty());
    while i < n
        invariant
            i <= n == chars@.len(),
            out@ == escaped(chars@.take(i as int)),
        decreases n - i,
    {
        let c = chars[i];
        let ghost before = out@;
        assert(chars@.take(i + 1).drop_last() =~= chars@.take(i as int));
        if c == '\\' || c == '.' || c == '+' || c == '*' || c == '?' || c == '(' || c == ')' || c
            == '|' || c == '[' || c == ']' || c == '{' || c == '}' || c == '^' || c == '$' {
            out.push('\\');
            out.push(c);
            assert(out@ =~= before + seq!['\\', c]);
        } else {
            out.push(c);
            assert(out@ =~= before + seq![c]);
        }
        i = i + 1;
    }
    assert(chars@.take(n as int) =~= chars@);
    string_of(&out)
}

impl Focus {
    /// What is to be searched for in place of a typed pattern: the word under a cursor,
    /// or what is selected. A cursor on a line end, or on no word, gives nothing.
    pub open spec fn searched_range(self, word: Option<(usize, usize)>) -> Option<(int, int)> {
        let p = self.primary();
        if p.anchor == p.head {
            if p.head >= self.text().len() || self.text()[p.head as int] == '\n' {
                None
            } else {
                match word {
                    Some((a, b)) => Some((a as int, b as int)),
                    None => None,
                }
            }
        } else {
            Some((p.spec_start() as int, end_inclusive(p, self.text())))
        }
    }

    /// Searches for the word under the cursor, or for what is selected. `word` is the word
    /// at the primary cursor, by its first and last character. A word gets selected.
    pub fn cmd_use_selection_as_search(
        &mut self,
        registers: &mut RegisterSet,
        search: &mut SearchState,
        word: Option<(usize, usize)>,
    )
        requires
            old(self).primary().spec_end() < old(self).text().len(),
            word matches Some((a, b)) ==> a <= b < old(self).text().len(),
        ensures
            match old(self).searched_range(word) {
                None => *final(self) == *old(self) && *final(registers) == *old(registers)
                    && *final(search) == *old(search),
                Some((a, b)) => {
                    let p = escaped(old(self).text().subrange(a, b + 1));
                    let sels = if old(self).primary().anchor == old(self).primary().head {
                        old(self).sels().with_primary(
                            Selection { anchor: a as usize, head: b as usize },
                        ).merged()
                    } else {
                        old(self).sels()
                    };
                    &&& *final(self) == (Focus {
                        doc: final(self).doc,
                        here: PaneBufferState {
                            selections: final(self).here.selections,
                            ..old(self).here
                        },
                        ..*old(self)
                    })
                    &&& final(self).sels() == sels
                    &&& if regex_compiles(p) {
                        &&& with_pattern(old(self).doc, final(self).doc, Some(p))
                        &&& *final(search) == (SearchState {
                            direction: SearchDirection::Forward,
                            ..*old(search)
                        })
                        &&& forall|c: char| #[trigger]
                            final(registers).held(c) == (if c == SEARCH_REGISTER {
                                Some(Held::Text(seq![p]))
                            } else {
                                old(registers).held(c)
                            })
                    } else {
                        final(self).doc == old(self).doc && *final(registers) == *old(registers)
                            && *final(search) == *old(search)
                    }
                },
            },
    {
        let primary = self.here.selections.primary();
        let (from, to, found) = if primary.is_collapsed() {
            match self.doc.text.char_at(primary.head) {
                Some(c) => {
                    if c == '\n' {
                        return;
                    }
                },
                None => {
                    return;
                },
            }
            match word {
                Some((a, b)) => (a, b, true),
                None => {
                    return;
                },
            }
        } else {
            (primary.start(), primary.end_inclusive(&self.doc.text), false)
        };
        let len = self.doc.text.len_chars();
        assert(to < len);
        let chars = chars_between(&self.doc.text, from, to + 1);
        if found {
            self.set_primary_selection(Selection::new(from, to));
        }
        let pattern = escape_regex(&chars);
        if find_all_matches(&self.doc.text, pattern.as_str()).is_none() {
            return;
        }
        let mut v: Vec<String> = Vec::new();
        v.push(pattern.clone());
        assert(texts(v@) =~= seq![pattern@]);
        registers.write_text(SEARCH_REGISTER, v);
        search.direction = SearchDirection::Forward;
        self.doc.search_pattern = Some(SearchPattern { pattern_str: pattern });
    }
}

/// The match that further jumps lead to depends neither on the one before nor on whether an
/// earlier jump wrapped.
proof fn lemma_jumped_alike(
    text: Seq<char>,
    ms: Seq<(usize, usize)>,
    from: usize,
    direction: SearchDirection,
    n: nat,
    first: (Option<(usize, usize)>, bool),
    second: (Option<(usize, usize)>, bool),
)
    requires
        n > 0 || first.0 == second.0,
    ensures
        ({
            let a = jumped(text, ms, from, direction, n, first.0, first.1);
            let b = jumped(text, ms, from, direction, n, second.0, second.1);
            &&& a is Some == b is Some
            &&& a is Some ==> ((a->0).0, (a->0).1) == ((b->0).0, (b->0).1)
        }),
    decreases n,
{
    if n > 0 {
        if let Some((a, b, w)) = next_match(ms, from, direction) {
            lemma_jumped_alike(
                text,
                ms,
                past_match(text, (a, b), direction),
                direction,
                (n - 1) as nat,
                (Some((a, b)), first.1 || w),
                (Some((a, b)), second.1 || w),
            );
        }
    }
}

/// Jumps lead to a match where there is one at all.
proof fn lemma_jumped_somewhere(
    text: Seq<char>,
    ms: Seq<(usize, usize)>,
    from: usize,
    direction: SearchDirection,
    n: nat,
    last: Option<(usize, usize)>,
    wrapped: bool,
)
    requires
        n > 0 || last is Some,
    ensures
        jumped(text, ms, from, direction, n, last, wrapped) is Some == (n == 0 || ms.len() > 0),
    decreases n,
{
    if n > 0 {
        if let Some((a, b, w)) = next_match(ms, from, direction) {
            lemma_jumped_somewhere(
                text,
                ms,
                past_match(text, (a, b), direction),
                direction,
                (n - 1) as nat,
                Some((a, b)),
                wrapped || w,
            );
        }
    }
}

/// A count of zero is taken as one, and whether there is a match to jump to does not depend on
/// the count.
pub proof fn law_jump_count(
    f: Focus,
    pattern: Seq<char>,
    count: usize,
    direction: SearchDirection,
)
    ensures
        f.jump_target(pattern, 0, direction) == f.jump_target(pattern, 1, direction),
        f.jump_target(pattern, count, direction) is Some == f.jump_target(
            pattern,
            1,
            direction,
        ) is Some,
{
    let ms = matches_at_hand(f.doc, pattern);
    let from = f.jump_from(direction);
    let n = if count == 0 {
        1
    } else {
        count as nat
    };
    lemma_jumped_somewhere(f.text(), ms, from, direction, n, None, false);
    lemma_jumped_somewhere(f.text(), ms, from, direction, 1, None, false);
}

/// `g` is `f` after a jump to the next match.
pub open spec fn jumped_once(
    f: Focus,
    g: Focus,
    pattern: Seq<char>,
    direction: SearchDirection,
) -> bool {
    match f.jump_target(pattern, 1, direction) {
        Some((a, b, wrapped)) => f.jumped_to(
            g,
            pattern,
            match_selection(a, b, None, direction),
            wrapped,
        ),
        None => false,
    }
}

proof fn lemma_jump_then_more(
    f: Focus,
    g: Focus,
    pattern: Seq<char>,
    direction: SearchDirection,
    n: nat,
)
    requires
        f.sels().wf(),
        f.sels().sels.len() == 1,
        f.wf(),
        jumped_once(f, g, pattern, direction),
        1 <= n < usize::MAX,
    ensures
        ({
            let one = f.jump_target(pattern, 1, direction);
            let far = f.jump_target(pattern, (n + 1) as usize, direction);
            let rest = g.jump_target(pattern, n as usize, direction);
            &&& one is Some
            &&& g.sels() == Sels::single(Selection { anchor: (one->0).0, head: (one->0).1 })
            &&& g.wf()
            &&& far is Some == rest is Some
            &&& far is Some ==> ((far->0).0, (far->0).1) == ((rest->0).0, (rest->0).1)
        }),
{
    let text = f.text();
    let ms = matches_at_hand(f.doc, pattern);
    let from = f.jump_from(direction);
    let one = f.jump_target(pattern, 1, direction);
    let (a, b, w) = one->0;
    let hit = next_match(ms, from, direction);
    lemma_char_spans_ordered(text, regex_matches(pattern, text));
    reveal_with_fuel(jumped, 2);
    assert(hit is Some && (hit->0).0 == a && (hit->0).1 == b);
    assert(a <= b) by {
        lemma_next_match_is_one(ms, from, direction);
    }
    let sel = Selection { anchor: a, head: b };
    assert(f.sels().with_primary(sel) =~= Sels::single(sel));
    lemma_single_merged(sel);
    if b < text.len() {
        law_boundary_stays(text, b as int);
    }
    assert(g.jump_from(direction) == past_match(text, (a, b), direction));
    lemma_jumped_alike(
        text,
        ms,
        past_match(text, (a, b), direction),
        direction,
        n,
        (Some((a, b)), (hit->0).2),
        (None, false),
    );
}

proof fn lemma_behind_last_before(ms: Seq<(usize, usize)>, from: usize)
    ensures
        behind_last_before(ms, from) <= ms.len(),
    decreases ms.len(),
{
    if !(ms.len() == 0 || ms.last().0 < from) {
        lemma_behind_last_before(ms.drop_last(), from);
    }
}

proof fn lemma_next_match_is_one(
    ms: Seq<(usize, usize)>,
    from: usize,
    direction: SearchDirection,
)
    ensures
        next_match(ms, from, direction) matches Some((a, b, w)) ==> ms.contains((a, b)),
{
    if ms.len() > 0 {
        match direction {
            SearchDirection::Forward => {
                let i = first_from(ms, from);
                assert(ms.contains(ms[if i < ms.len() { i as int } else { 0 }]));
            },
            SearchDirection::Backward => {
                let i = behind_last_before(ms, from);
                lemma_behind_last_before(ms, from);
                assert(ms.contains(ms[if i > 0 { i - 1 } else { ms.len() - 1 }]));
            },
        }
    }
}

/// A jump over several matches lands where as many single jumps land. `steps` are the states
/// from before the first single jump to behind the last one; there is one selection.
pub proof fn law_jump_is_single_jumps(
    steps: Seq<Focus>,
    pattern: Seq<char>,
    direction: SearchDirection,
)
    requires
        2 <= steps.len() <= usize::MAX,
        steps[0].wf(),
        steps[0].sels().wf(),
        steps[0].sels().sels.len() == 1,
        forall|i: int|
            0 <= i < steps.len() - 1 ==> jumped_once(
                #[trigger] steps[i],
                steps[i + 1],
                pattern,
                direction,
            ),
    ensures
        ({
            let far = steps[0].jump_target(pattern, (steps.len() - 1) as usize, direction);
            &&& far is Some
            &&& steps.last().sels() == Sels::single(
                Selection { anchor: (far->0).0, head: (far->0).1 },
            )
            &&& steps.last().text() == steps[0].text()
        }),
    decreases steps.len(),
{
    let f = steps[0];
    let g = steps[1];
    assert(jumped_once(f, g, pattern, direction));
    if steps.len() == 2 {
        lemma_jump_then_more(f, g, pattern, direction, 1);
    } else {
        let n = (steps.len() - 2) as nat;
        lemma_jump_then_more(f, g, pattern, direction, n);
        let rest = steps.drop_first();
        assert forall|i: int| 0 <= i < rest.len() - 1 implies jumped_once(
            #[trigger] rest[i],
            rest[i + 1],
            pattern,
            direction,
        ) by {
            assert(jumped_once(steps[i + 1], steps[i + 2], pattern, direction));
        }
        law_jump_is_single_jumps(rest, pattern, direction);
    }
}

/// What a pattern of single characters stands for. Read from the front, a backslash takes a
/// character that means more than itself in a pattern as itself. Such a character by itself, or a
/// backslash before any other, stands for more than one character would, and has no such
/// reading.
pub open spec fn read_literally(p: Seq<char>) -> Option<Seq<char>>
    decreases p.len(),
{
    if p.len() == 0 {
        Some(Seq::empty())
    } else if p[0] == '\\' {
        if p.len() < 2 || !"\\.+*?()|[]{}^$"@.contains(p[1]) {
            None
        } else {
            match read_literally(p.skip(2)) {
                Some(s) => Some(seq![p[1]] + s),
                None => None,
            }
        }
    } else if "\\.+*?()|[]{}^$"@.contains(p[0]) {
        None
    } else {
        match read_literally(p.skip(1)) {
            Some(s) => Some(seq![p[0]] + s),
            None => None,
        }
    }
}

proof fn lemma_meta_chars(c: char)
    ensures
        "\\.+*?()|[]{}^$"@.contains(c) == (c == '\\' || c == '.' || c == '+' || c == '*' || c == '?'
            || c == '(' || c == ')' || c == '|' || c == '[' || c == ']' || c == '{' || c == '}'
            || c == '^' || c == '$'),
{
    reveal_strlit("\\.+*?()|[]{}^$");
    let m = "\\.+*?()|[]{}^$"@;
    assert(m.len() == 14);
    assert(m[0] == '\\' && m[1] == '.' && m[2] == '+' && m[3] == '*' && m[4] == '?' && m[5] == '('
        && m[6] == ')' && m[7] == '|' && m[8] == '[' && m[9] == ']' && m[10] == '{' && m[11] == '}'
        && m[12] == '^' && m[13] == '$');
}

proof fn lemma_escaped_first(c: char, s: Seq<char>)
    ensures
        escaped(seq![c] + s) == escaped(seq![c]) + escaped(s),
    decreases s.len(),
{
    if s.len() == 0 {
        assert(seq![c] + s =~= seq![c]);
        assert(escaped(seq![c]) + escaped(s) =~= escaped(seq![c]));
    } else {
        let t = s.drop_last();
        lemma_escaped_first(c, t);
        assert((seq![c] + s).drop_last() =~= seq![c] + t);
        assert((seq![c] + s).last() == s.last());
        let tail = if meta_char(s.last()) {
            seq!['\\', s.last()]
        } else {
            seq![s.last()]
        };
        assert(escaped(seq![c]) + escaped(t) + tail =~= escaped(seq![c]) + (escaped(t) + tail));
    }
}

/// The pattern that is made of a text stands for that text and nothing else: none of its
/// characters means more than itself, and what it stands for is the text.
pub proof fn law_escaped_text_is_literal(s: Seq<char>)
    ensures
        read_literally(escaped(s)) == Some(s),
    decreases s.len(),
{
    if s.len() == 0 {
        assert(escaped(s) =~= s);
        assert(s =~= Seq::empty());
    } else {
        let c = s[0];
        let t = s.drop_first();
        assert(s =~= seq![c] + t);
        lemma_escaped_first(c, t);
        law_escaped_text_is_literal(t);
        assert(seq![c].drop_last() =~= Seq::<char>::empty());
        assert(escaped(Seq::<char>::empty()) =~= Seq::<char>::empty());
        lemma_meta_chars(c);
        let e = escaped(s);
        if meta_char(c) {
            assert(escaped(seq![c]) =~= seq!['\\', c]);
            assert(e.skip(2) =~= escaped(t));
            assert(e[0] == '\\' && e[1] == c);
        } else {
            assert(escaped(seq![c]) =~= seq![c]);
            assert(e.skip(1) =~= escaped(t));
            assert(e[0] == c);
        }
        assert(seq![c] + t =~= s);
    }
}

/// The pattern of the buffer comes first. Where it has none, the first text of register `s` is
/// taken, if it compiles and is not empty.
pub proof fn law_pattern_at_hand(doc: Buffer, registers: RegisterSet, t: Seq<Seq<char>>)
    ensures
        doc.search_pattern is Some ==> pattern_at_hand(doc, registers) == Some(
            doc.search_pattern->0.pattern_str@,
        ),
        doc.search_pattern is None && registers.text('s') == Some(t) && t.len() > 0 && t[0].len()
            > 0 && regex_compiles(t[0]) ==> pattern_at_hand(doc, registers) == Some(t[0]),
        doc.search_pattern is None && registers.text('s') is None ==> pattern_at_hand(
            doc,
            registers,
        ) is None,
        pattern_at_hand(doc, registers) matches Some(p) ==> doc.search_pattern is Some || (
        regex_compiles(p) && p.len() > 0),
{
}

/// The matches that are jumped among are those of the pattern, whether they were found before or
/// are found now.
pub proof fn law_matches_at_hand(doc: Buffer, pattern: Seq<char>)
    requires
        regex_compiles(pattern),
        doc.search_matches@.len() > 0 ==> doc.search_matches@ == all_matches(pattern, doc.doc()),
    ensures
        matches_at_hand(doc, pattern) == all_matches(pattern, doc.doc()),
{
}

/// A jump goes away from the selection. Forward, it leads to the nearest match that starts
/// behind the selection; backward, to the nearest one that starts before it. Only where there is
/// none does it wrap, and go to the first or the last match of the text.
pub proof fn law_jump_leaves_the_selection(
    f: Focus,
    pattern: Seq<char>,
    direction: SearchDirection,
)
    requires
        crate::search::in_text_order(matches_at_hand(f.doc, pattern)),
    ensures
        ({
            let ms = matches_at_hand(f.doc, pattern);
            let p = f.primary();
            let start = if p.anchor < p.head {
                p.anchor
            } else {
                p.head
            };
            let behind = next_boundary(f.text(), end_inclusive(p, f.text())) as usize;
            match f.jump_target(pattern, 1, direction) {
                None => ms.len() == 0,
                Some((a, b, wrapped)) => {
                    &&& ms.contains((a, b))
                    &&& direction == SearchDirection::Forward ==> {
                        &&& wrapped == (forall|i: int|
                            0 <= i < ms.len() ==> (#[trigger] ms[i]).0 < behind)
                        &&& !wrapped ==> behind <= a
                        &&& forall|i: int|
                            0 <= i < ms.len() && (wrapped || (#[trigger] ms[i]).0 >= behind) ==> a
                                <= (#[trigger] ms[i]).0
                    }
                    &&& direction == SearchDirection::Backward ==> {
                        &&& wrapped == (forall|i: int|
                            0 <= i < ms.len() ==> (#[trigger] ms[i]).0 >= start)
                        &&& !wrapped ==> a < start
                        &&& forall|i: int|
                            0 <= i < ms.len() && (wrapped || (#[trigger] ms[i]).0 < start)
                                ==> (#[trigger] ms[i]).0 <= a
                    }
                },
            }
        }),
{
    let ms = matches_at_hand(f.doc, pattern);
    let from = f.jump_from(direction);
    reveal_with_fuel(jumped, 2);
    crate::search::law_next_match_forward(ms, from);
    crate::search::law_next_match_backward(ms, from);
}

/// A jump changes nothing but the pattern, the selections and what is known of the wrapping. The
/// match becomes the primary selection.
pub proof fn law_jump_only_selects(
    f: Focus,
    g: Focus,
    pattern: Seq<char>,
    sel: Selection,
    wrapped: bool,
)
    requires
        f.jumped_to(g, pattern, sel, wrapped),
        f.sels().wf(),
        f.sels().sels.len() == 1,
        sel.anchor <= sel.head,
    ensures
        g.text() == f.text(),
        g.transient == f.transient,
        g.jumps == f.jumps,
        g.here.search_cursor.wrapped == wrapped,
        g.doc.search_pattern is Some,
        g.doc.search_pattern->0.pattern_str@ == pattern,
        g.sels() == (Sels { sels: seq![sel], primary: 0 }),
{
    assert(f.sels().with_primary(sel) =~= Sels::single(sel));
    lemma_single_merged(sel);
}

/// What is searched for in place of a typed pattern is exactly what is selected, from the first
/// to the last character; of a cursor it is the word that it is on. A cursor on a line end, or
/// one that is on no word, gives nothing.
pub proof fn law_selection_is_searched_for(f: Focus, word: Option<(usize, usize)>)
    requires
        f.primary().head < f.text().len(),
    ensures
        ({
            let p = f.primary();
            let r = f.searched_range(word);
            &&& p.anchor < p.head ==> r == Some(
                (p.anchor as int, end_inclusive(p, f.text())),
            )
            &&& p.head < p.anchor ==> r == Some(
                (p.head as int, end_inclusive(p, f.text())),
            )
            &&& p.head == p.anchor && f.text()[p.head as int] == '\n' ==> r is None
            &&& p.head == p.anchor && f.text()[p.head as int] != '\n' ==> {
                &&& r is Some == word is Some
                &&& r is Some ==> (r->0).0 == (word->0).0 && (r->0).1 == (word->0).1
            }
        }),
{
}

/// Selecting all matches makes a selection of each, in order, and the first of them primary.
pub proof fn law_all_matches_are_selected(ms: Seq<(usize, usize)>)
    ensures
        Focus::on_all(ms).sels.len() == ms.len(),
        Focus::on_all(ms).primary == 0,
        forall|i: int|
            0 <= i < ms.len() ==> (#[trigger] Focus::on_all(ms).sels[i]).anchor == ms[i].0
                && Focus::on_all(ms).sels[i].head == ms[i].1,
{
}

} // verus!

//! The modes in which a pattern is typed: searching, and selecting inside selections.

use crate::buffer::Buffer;
use crate::dispatch::Mode;
use crate::focus::Focus;
use crate::grapheme::end_inclusive;
use crate::keys::KeyEvent;
use crate::minibuf::{Line, LineEvent, MiniBufferEvent};
use crate::modes::{Modal, ModalV};
use crate::pane_state::{Jump, JumpEntry, PaneBufferState, PaneTransient, SearchCursor};
use crate::paths::Separators;
use crate::registers::{texts, Held, RegisterSet, SEARCH_REGISTER};
use crate::search::{all_matches, find_all_matches, regex_compiles, SearchDirection};
use crate::selection::{Selection, SelectionSet, Sels};
use crate::strings::byte_len;
use crate::text::Text;
use vstd::prelude::*;
use vstd::string::*;

verus! {

/// What the history of the prompt has to offer.
pub enum Recall {
    /// The prompt has no history.
    NoRing,
    /// There is nothing further in this direction.
    Nothing,
    Entry(String),
}

/// What is to be told to the history of the prompt.
pub enum HistoryOp {
    Nothing,
    /// Remember a confirmed input.
    Push { prompt: char, input: String },
    /// What was recalled has been changed, and counts as new input.
    Demote { prompt: char },
}

/// What is to be told to the history, as a value.
pub enum HistoryV {
    Nothing,
    Push(char, Seq<char>),
    Demote(char),
}

impl View for HistoryOp {
    type V = HistoryV;

    open spec fn view(&self) -> HistoryV {
        match self {
            HistoryOp::Nothing => HistoryV::Nothing,
            HistoryOp::Push { prompt, input } => HistoryV::Push(*prompt, input@),
            HistoryOp::Demote { prompt } => HistoryV::Demote(*prompt),
        }
    }
}

impl Focus {
    /// Back at the selections from before the search, with no pattern.
    pub open spec fn search_undone(self, after: Focus, snapshot: Option<SelectionSet>) -> bool {
        &&& after == (Focus {
            doc: Buffer {
                search_pattern: None,
                search_matches: after.doc.search_matches,
                ..self.doc
            },
            here: PaneBufferState {
                selections: after.here.selections,
                search_cursor: SearchCursor { match_count: None, wrapped: false },
                ..self.here
            },
            transient: PaneTransient { pre_search_sels: snapshot, ..self.transient },
            ..self
        })
        &&& after.doc.search_matches@.len() == 0
        &&& after.sels() == self.before_search()
    }

    /// The search is confirmed: the place it began at becomes a place to jump back to.
    pub open spec fn search_confirmed(self, after: Focus) -> bool {
        &&& after == (Focus {
            jumps: after.jumps,
            transient: PaneTransient { pre_search_sels: None, ..self.transient },
            ..self
        })
        &&& after.jumps@ == (match self.transient.pre_search_sels {
            Some(s) => self.jumps@.pushed((s@, self.buffer.0)),
            None => self.jumps@,
        })
    }
}

/// Nothing in the registers changed but that the search register holds `pattern`.
pub open spec fn searched_for(before: RegisterSet, after: RegisterSet, pattern: Seq<char>) -> bool {
    forall|c: char| #[trigger]
        after.held(c) == (if c == SEARCH_REGISTER {
            Some(Held::Text(seq![pattern]))
        } else {
            before.held(c)
        })
}

/// What comes of an event of the input line in search mode. `line` is the line after it.
pub open spec fn search_step(
    before: (Focus, ModalV, RegisterSet),
    after: (Focus, ModalV, RegisterSet),
    direction: SearchDirection,
    recall: Recall,
    line: Line,
    event: LineEvent,
    op: HistoryV,
) -> bool {
    let f = before.0;
    let g = after.0;
    let typed = ModalV { line: Some(line), ..before.1 };
    match event {
        LineEvent::Confirm(p) => {
            &&& f.search_confirmed(g)
            &&& after.1 == typed.entering(Mode::Normal).closed()
            &&& searched_for(before.2, after.2, p)
            &&& op == HistoryV::Push(line.prompt, p)
        },
        LineEvent::Edited => {
            &&& f.live_searched(g, line.text(), direction)
            &&& after.1 == typed
            &&& after.2 == before.2
            &&& op == HistoryV::Demote(line.prompt)
        },
        LineEvent::EmptiedByWord => {
            &&& g == f
            &&& after.1 == typed
            &&& after.2 == before.2
            &&& op == HistoryV::Demote(line.prompt)
        },
        _ => {
            &&& after.2 == before.2
            &&& op == HistoryV::Nothing
            &&& match event {
                LineEvent::Cancel | LineEvent::ConfirmEmpty | LineEvent::BackspaceOnEmpty => {
                    f.search_undone(g, None) && after.1 == typed.falling_back(Mode::Normal).closed()
                },
                LineEvent::EmptiedByBackspace => {
                    f.search_undone(g, f.transient.pre_search_sels) && after.1 == typed
                },
                LineEvent::HistoryPrev | LineEvent::HistoryNext => match recall {
                    Recall::NoRing => g == f && after.1 == typed,
                    Recall::Nothing => f.live_searched(g, line.text(), direction) && after.1
                        == typed,
                    Recall::Entry(s) => f.live_searched(g, s@, direction) && after.1 == (ModalV {
                        line: Some(Line { before: s@, after: Seq::empty(), ..line }),
                        ..typed
                    }),
                },
                _ => g == f && after.1 == typed,
            }
        },
    }
}

impl Focus {
    /// Ends the search: back to the place from before it, with no pattern.
    pub fn cancel_search(&mut self, modal: &mut Modal)
        ensures
            old(self).search_undone(*final(self), None),
            old(self).wf() ==> final(self).wf(),
            final(modal)@ == old(modal)@.falling_back(Mode::Normal).closed(),
            final(modal).wf(),
    {
        match self.transient.pre_search_sels.take() {
            Some(sels) => {
                self.here.selections = sels;
            },
            None => {},
        }
        self.clear_search();
        modal.keys.mode = Mode::Normal;
        modal.close_minibuf();
    }

    fn confirm_search(&mut self, modal: &mut Modal, registers: &mut RegisterSet, pattern: &str)
        ensures
            old(self).search_confirmed(*final(self)),
            final(modal)@ == old(modal)@.entering(Mode::Normal).closed(),
            final(modal).wf(),
            searched_for(*old(registers), *final(registers), pattern@),
    {
        let mut v: Vec<String> = Vec::new();
        v.push(pattern.to_owned());
        assert(texts(v@) =~= seq![pattern@]);
        registers.write_text(SEARCH_REGISTER, v);
        match self.transient.pre_search_sels.take() {
            Some(sels) => {
                self.jumps.push(JumpEntry { selections: sels, buffer: self.buffer });
            },
            None => {},
        }
        modal.set_mode(Mode::Normal);
        modal.close_minibuf();
    }

    fn recall_and_search(
        &mut self,
        modal: &mut Modal,
        direction: SearchDirection,
        recall: Recall,
    )
        requires
            old(modal).wf(),
            old(modal).minibuf is Some,
            old(modal).minibuf->0.input@ == old(modal)@.line->0.text(),
            recall matches Recall::Entry(s) ==> byte_len(s@) <= usize::MAX,
        ensures
            final(modal).wf(),
            ({
                let line = old(modal)@.line->0;
                match recall {
                    Recall::NoRing => *final(self) == *old(self) && final(modal)@ == old(modal)@,
                    Recall::Nothing => old(self).live_searched(
                        *final(self),
                        line.text(),
                        direction,
                    ) && final(modal)@ == old(modal)@,
                    Recall::Entry(s) => old(self).live_searched(*final(self), s@, direction)
                        && final(modal)@ == (ModalV {
                        line: Some(Line { before: s@, after: Seq::empty(), ..line }),
                        ..old(modal)@
                    }),
                }
            }),
    {
        match recall {
            Recall::NoRing => {},
            Recall::Nothing => {
                if let Some(mb) = &modal.minibuf {
                    self.update_live_search(mb.input.as_str(), direction);
                }
            },
            Recall::Entry(s) => {
                match modal.minibuf.take() {
                    Some(mb) => {
                        let mut mb = mb;
                        self.update_live_search(s.as_str(), direction);
                        mb.set_input(s);
                        modal.minibuf = Some(mb);
                    },
                    None => {},
                }
            },
        }
    }

    /// Handles a key while a search pattern is typed. `recall` is what the history of the
    /// prompt has to offer, should the key ask for it; what the history is to be told
    /// comes back.
    pub fn handle_search(
        &mut self,
        modal: &mut Modal,
        registers: &mut RegisterSet,
        direction: SearchDirection,
        recall: Recall,
        key: KeyEvent,
        separators: Separators,
    ) -> (r: HistoryOp)
        requires
            old(modal).wf(),
            old(modal).minibuf matches Some(mb) ==> byte_len(mb.input@) + 4 <= usize::MAX,
            recall matches Recall::Entry(s) ==> byte_len(s@) <= usize::MAX,
        ensures
            final(modal).wf(),
            old(self).wf() ==> final(self).wf(),
            match old(modal)@.line {
                Some(line) => search_step(
                    (*old(self), old(modal)@, *old(registers)),
                    (*final(self), final(modal)@, *final(registers)),
                    direction,
                    recall,
                    line.pressed(key, separators).0,
                    line.pressed(key, separators).1,
                    r@,
                ),
                None => *final(self) == *old(self) && *final(modal) == *old(modal)
                    && *final(registers) == *old(registers) && r@ == HistoryV::Nothing,
            },
    {
        let mut mb = match modal.minibuf.take() {
            Some(mb) => mb,
            None => {
                return HistoryOp::Nothing;
            },
        };
        let event = mb.handle_key(key, separators);
        let prompt = mb.prompt;
        modal.minibuf = Some(mb);
        match event {
            MiniBufferEvent::Cancel | MiniBufferEvent::ConfirmEmpty
            | MiniBufferEvent::BackspaceOnEmpty => {
                self.cancel_search(modal);
                HistoryOp::Nothing
            },
            MiniBufferEvent::Confirm(pattern) => {
                self.confirm_search(modal, registers, pattern.as_str());
                HistoryOp::Push { prompt, input: pattern }
            },
            MiniBufferEvent::EmptiedByBackspace => {
                self.restore_search_snapshot();
                self.clear_search();
                HistoryOp::Nothing
            },
            MiniBufferEvent::EmptiedByWord => HistoryOp::Demote { prompt },
            MiniBufferEvent::Edited => {
                if let Some(mb) = &modal.minibuf {
                    self.update_live_search(mb.input.as_str(), direction);
                }
                HistoryOp::Demote { prompt }
            },
            MiniBufferEvent::HistoryPrev | MiniBufferEvent::HistoryNext => {
                self.recall_and_search(modal, direction, recall);
                HistoryOp::Nothing
            },
            MiniBufferEvent::CursorMoved | MiniBufferEvent::Ignored
            | MiniBufferEvent::CompleteRequested { .. } => HistoryOp::Nothing,
        }
    }
}

/// Those of `ms` that lie between `from` and `to`, as selections.
pub open spec fn within(ms: Seq<(usize, usize)>, from: int, to: int) -> Seq<Selection>
    decreases ms.len(),
{
    if ms.len() == 0 {
        Seq::empty()
    } else {
        let m = ms.last();
        let before = within(ms.drop_last(), from, to);
        if from <= m.0 && m.1 <= to {
            before.push(Selection { anchor: m.0, head: m.1 })
        } else {
            before
        }
    }
}

/// The matches inside the selections, one selection after the other.
pub open spec fn within_all(text: Seq<char>, ms: Seq<(usize, usize)>, sels: Seq<Selection>) -> Seq<
    Selection,
>
    decreases sels.len(),
{
    if sels.len() == 0 {
        Seq::empty()
    } else {
        let s = sels.last();
        within_all(text, ms, sels.drop_last()) + within(
            ms,
            s.spec_start() as int,
            end_inclusive(s, text),
        )
    }
}

fn push_within(out: &mut Vec<Selection>, ms: &Vec<(usize, usize)>, from: usize, to: usize)
    ensures
        final(out)@ == old(out)@ + within(ms@, from as int, to as int),
{
    let n = ms.len();
    let mut i: usize = 0;
    let ghost o = out@;
    assert(ms@.take(0) =~= Seq::empty());
    assert(out@ =~= o + within(ms@.take(0), from as int, to as int));
    while i < n
        invariant
            i <= n == ms@.len(),
            out@ == o + within(ms@.take(i as int), from as int, to as int),
        decreases n - i,
    {
        let m = ms[i];
        assert(ms@.take(i + 1).drop_last() =~= ms@.take(i as int));
        if from <= m.0 && m.1 <= to {
            out.push(Selection::new(m.0, m.1));
        }
        i = i + 1;
        assert(out@ =~= o + within(ms@.take(i as int), from as int, to as int));
    }
    assert(ms@.take(n as int) =~= ms@);
}

/// The matches of a list that lie inside the selections, the first of them primary; `None`
/// where there is none.
pub fn select_matches_within(text: &Text, sels: &SelectionSet, ms: &Vec<(usize, usize)>) -> (r:
    Option<SelectionSet>)
    ensures
        ({
            let found = within_all(text@, ms@, sels@.sels);
            match r {
                Some(s) => found.len() > 0 && s@ == (Sels { sels: found, primary: 0 }),
                None => found.len() == 0,
            }
        }),
{
    let mut out: Vec<Selection> = Vec::new();
    let n = sels.len();
    let mut i: usize = 0;
    assert(sels@.sels.take(0) =~= Seq::empty());
    while i < n
        invariant
            i <= n == sels@.sels.len(),
            out@ == within_all(text@, ms@, sels@.sels.take(i as int)),
        decreases n - i,
    {
        let s = sels.get(i);
        assert(sels@.sels.take(i + 1).drop_last() =~= sels@.sels.take(i as int));
        push_within(&mut out, ms, s.start(), s.end_inclusive(text));
        i = i + 1;
    }
    assert(sels@.sels.take(n as int) =~= sels@.sels);
    if out.len() == 0 {
        None
    } else {
        Some(SelectionSet::from_vec(out, 0))
    }
}

impl Focus {
    /// The selections that a pattern picks out of those from before the selecting.
    pub open spec fn picked(self, pattern: Seq<char>) -> Sels {
        match self.transient.pre_select_sels {
            Some(s) => {
                let found = within_all(self.text(), all_matches(pattern, self.text()), s@.sels);
                if found.len() > 0 {
                    Sels { sels: found, primary: 0 }
                } else {
                    s@
                }
            },
            None => self.sels(),
        }
    }

    /// After the selecting by a pattern that is being typed.
    pub open spec fn live_selected(self, after: Focus, pattern: Seq<char>) -> bool {
        if pattern.len() == 0 {
            after == self
        } else if regex_compiles(pattern) {
            self.selecting(after, self.picked(pattern))
        } else {
            self.selecting(after, self.before_select())
        }
    }

    /// The selections from before are back, and are no longer kept.
    pub open spec fn select_undone(self, after: Focus) -> bool {
        &&& after == (Focus {
            here: PaneBufferState { selections: after.here.selections, ..self.here },
            transient: PaneTransient { pre_select_sels: None, ..self.transient },
            ..self
        })
        &&& after.sels() == self.before_select()
    }

    /// Selects what the pattern that is being typed matches inside the selections from
    /// before; without a match these are selected.
    pub fn update_live_select(&mut self, pattern: &str)
        ensures
            old(self).live_selected(*final(self), pattern@),
    {
        if pattern.is_empty() {
            return;
        }
        let matches = match find_all_matches(&self.doc.text, pattern) {
            Some(ms) => ms,
            None => {
                self.restore_select_snapshot();
                return;
            },
        };
        let found = match &self.transient.pre_select_sels {
            Some(s) => select_matches_within(&self.doc.text, s, &matches),
            None => None,
        };
        match found {
            Some(sels) => self.select(sels),
            None => self.restore_select_snapshot(),
        }
    }

    /// Ends the selecting: back to the selections from before it.
    pub fn cancel_select(&mut self, modal: &mut Modal)
        ensures
            old(self).select_undone(*final(self)),
            final(modal)@ == old(modal)@.falling_back(Mode::Normal).closed(),
            final(modal).wf(),
    {
        match self.transient.pre_select_sels.take() {
            Some(sels) => {
                self.here.selections = sels;
            },
            None => {},
        }
        modal.keys.mode = Mode::Normal;
        modal.close_minibuf();
    }

    /// Handles a key while a pattern for selecting is typed. The pattern of the last
    /// search is left alone.
    pub fn handle_select(&mut self, modal: &mut Modal, key: KeyEvent, separators: Separators)
        requires
            old(modal).wf(),
            old(modal).minibuf matches Some(mb) ==> byte_len(mb.input@) + 4 <= usize::MAX,
        ensures
            final(modal).wf(),
            old(self).wf() ==> final(self).wf(),
            match old(modal)@.line {
                Some(line) => {
                    let typed = ModalV {
                        line: Some(line.pressed(key, separators).0),
                        ..old(modal)@
                    };
                    match line.pressed(key, separators).1 {
                        LineEvent::Cancel | LineEvent::ConfirmEmpty => {
                            &&& old(self).select_undone(*final(self))
                            &&& final(modal)@ == typed.falling_back(Mode::Normal).closed()
                        },
                        LineEvent::Confirm(_) => {
                            &&& *final(self) == (Focus {
                                transient: PaneTransient {
                                    pre_select_sels: None,
                                    ..old(self).transient
                                },
                                ..*old(self)
                            })
                            &&& final(modal)@ == typed.entering(Mode::Normal).closed()
                        },
                        LineEvent::EmptiedByBackspace | LineEvent::BackspaceOnEmpty => {
                            &&& old(self).selecting(*final(self), old(self).before_select())
                            &&& final(modal)@ == typed
                        },
                        LineEvent::Edited => {
                            &&& old(self).live_selected(
                                *final(self),
                                line.pressed(key, separators).0.text(),
                            )
                            &&& final(modal)@ == typed
                        },
                        _ => *final(self) == *old(self) && final(modal)@ == typed,
                    }
                },
                None => *final(self) == *old(self) && *final(modal) == *old(modal),
            },
    {
        let mut mb = match modal.minibuf.take() {
            Some(mb) => mb,
            None => {
                return;
            },
        };
        let event = mb.handle_key(key, separators);
        modal.minibuf = Some(mb);
        match event {
            MiniBufferEvent::Cancel | MiniBufferEvent::ConfirmEmpty => {
                self.cancel_select(modal);
            },
            MiniBufferEvent::Confirm(_) => {
                self.transient.pre_select_sels = None;
                modal.set_mode(Mode::Normal);
                modal.close_minibuf();
            },
            MiniBufferEvent::EmptiedByBackspace | MiniBufferEvent::BackspaceOnEmpty => {
                self.restore_select_snapshot();
            },
            MiniBufferEvent::Edited => {
                if let Some(mb) = &modal.minibuf {
                    self.update_live_select(mb.input.as_str());
                }
            },
            MiniBufferEvent::EmptiedByWord | MiniBufferEvent::CursorMoved
            | MiniBufferEvent::Ignored | MiniBufferEvent::CompleteRequested { .. }
            | MiniBufferEvent::HistoryPrev | MiniBufferEvent::HistoryNext => {},
        }
    }
}

/// Typing a search pattern and then cancelling it leads back to the selections from before
/// the search, whatever was typed.
pub proof fn law_cancelled_search_restores(
    before: Focus,
    begun: Focus,
    typed: Focus,
    cancelled: Focus,
    pattern: Seq<char>,
    direction: SearchDirection,
)
    requires
        begun == (Focus { transient: begun.transient, ..before }),
        begun.transient.pre_search_sels is Some,
        begun.before_search() == before.sels(),
        begun.live_searched(typed, pattern, direction),
        typed.search_undone(cancelled, None),
    ensures
        cancelled.sels() == before.sels(),
        cancelled.text() == before.text(),
        typed.transient == begun.transient,
{
}

/// Typing a pattern for selecting and then cancelling leads back to the selections from
/// before, whatever was typed.
pub proof fn law_cancelled_select_restores(
    before: Focus,
    begun: Focus,
    typed: Focus,
    cancelled: Focus,
    pattern: Seq<char>,
)
    requires
        begun == (Focus { transient: begun.transient, ..before }),
        begun.transient.pre_select_sels is Some,
        begun.before_select() == before.sels(),
        begun.live_selected(typed, pattern),
        typed.select_undone(cancelled),
    ensures
        cancelled.sels() == before.sels(),
        cancelled.doc == before.doc,
        typed.transient == begun.transient,
{
}

proof fn lemma_within(ms: Seq<(usize, usize)>, from: int, to: int)
    ensures
        forall|j: int|
            0 <= j < within(ms, from, to).len() ==> {
                let s = #[trigger] within(ms, from, to)[j];
                &&& from <= s.anchor && s.head <= to
                &&& ms.contains((s.anchor, s.head))
            },
        forall|i: int|
            0 <= i < ms.len() && from <= (#[trigger] ms[i]).0 && ms[i].1 <= to ==> within(
                ms,
                from,
                to,
            ).contains(Selection { anchor: ms[i].0, head: ms[i].1 }),
        within(ms, from, to).len() <= ms.len(),
    decreases ms.len(),
{
    if ms.len() > 0 {
        let rest = ms.drop_last();
        let m = ms.last();
        let w = within(ms, from, to);
        let before = within(rest, from, to);
        lemma_within(rest, from, to);
        assert(ms[ms.len() - 1] == m);
        assert forall|j: int| 0 <= j < w.len() implies ({
            let s = #[trigger] w[j];
            &&& from <= s.anchor && s.head <= to
            &&& ms.contains((s.anchor, s.head))
        }) by {
            if j < before.len() {
                assert(w[j] == before[j]);
                let i = choose|i: int|
                    0 <= i < rest.len() && rest[i] == (before[j].anchor, before[j].head);
                assert(ms[i] == rest[i]);
            }
        }
        assert forall|i: int|
            0 <= i < ms.len() && from <= (#[trigger] ms[i]).0 && ms[i].1 <= to implies w.contains(
            Selection { anchor: ms[i].0, head: ms[i].1 },
        ) by {
            let s = Selection { anchor: ms[i].0, head: ms[i].1 };
            if i < rest.len() {
                assert(rest[i] == ms[i]);
                assert(before.contains(s));
                let j = choose|j: int| 0 <= j < before.len() && before[j] == s;
                assert(w[j] == s);
            } else {
                assert(w[w.len() - 1] == s);
            }
        }
    }
}

/// Selecting by a pattern picks the matches that lie whole inside one of the selections from
/// before, all of them and nothing else.
pub proof fn law_matches_inside_are_picked(
    text: Seq<char>,
    ms: Seq<(usize, usize)>,
    sels: Seq<Selection>,
    m: (usize, usize),
)
    ensures
        ({
            let one = Selection { anchor: m.0, head: m.1 };
            within_all(text, ms, sels).contains(one) == (ms.contains(m) && exists|k: int|
                0 <= k < sels.len() && (#[trigger] sels[k]).spec_start() <= m.0 && m.1
                    <= end_inclusive(sels[k], text))
        }),
    decreases sels.len(),
{
    let one = Selection { anchor: m.0, head: m.1 };
    let all = within_all(text, ms, sels);
    if sels.len() > 0 {
        let rest = sels.drop_last();
        let s = sels.last();
        let from = s.spec_start() as int;
        let to = end_inclusive(s, text);
        let w = within(ms, from, to);
        let before = within_all(text, ms, rest);
        law_matches_inside_are_picked(text, ms, rest, m);
        lemma_within(ms, from, to);
        if before.contains(one) {
            let j = choose|j: int| 0 <= j < before.len() && before[j] == one;
            assert(all[j] == one);
            let k = choose|k: int|
                0 <= k < rest.len() && (#[trigger] rest[k]).spec_start() <= m.0 && m.1
                    <= end_inclusive(rest[k], text);
            assert(sels[k] == rest[k]);
        }
        if w.contains(one) {
            let j = choose|j: int| 0 <= j < w.len() && w[j] == one;
            assert(all[before.len() + j] == one);
            assert(sels[sels.len() - 1] == s);
        }
        if all.contains(one) {
            let j = choose|j: int| 0 <= j < all.len() && all[j] == one;
            if j < before.len() {
                assert(before[j] == one);
            } else {
                assert(w[j - before.len()] == one);
            }
        }
        if ms.contains(m) && exists|k: int|
            0 <= k < sels.len() && (#[trigger] sels[k]).spec_start() <= m.0 && m.1
                <= end_inclusive(sels[k], text) {
            let k = choose|k: int|
                0 <= k < sels.len() && (#[trigger] sels[k]).spec_start() <= m.0 && m.1
                    <= end_inclusive(sels[k], text);
            let i = choose|i: int| 0 <= i < ms.len() && ms[i] == m;
            if k < rest.len() {
                assert(rest[k] == sels[k]);
            } else {
                assert(from <= ms[i].0 && ms[i].1 <= to);
            }
        }
    }
}

/// What a pattern picks does not depend on what was picked on the way, and where it picks nothing,
/// the selections from before come back.
pub proof fn law_live_select_starts_over(f: Focus, g: Focus, pattern: Seq<char>, before: SelectionSet)
    requires
        f.transient == g.transient,
        f.text() == g.text(),
        f.transient.pre_select_sels == Some(before),
    ensures
        f.picked(pattern) == g.picked(pattern),
        all_matches(pattern, f.text()).len() == 0 ==> f.picked(pattern) == before@,
        f.picked(pattern) != before@ ==> f.picked(pattern).primary == 0,
        f.live_selected(g, pattern) && pattern.len() > 0 && !regex_compiles(pattern) ==> g.sels()
            == before@,
{
    let ms = all_matches(pattern, f.text());
    let found = within_all(f.text(), ms, before@.sels);
    if ms.len() == 0 && found.len() > 0 {
        let m = (found[0].anchor, found[0].head);
        law_matches_inside_are_picked(f.text(), ms, before@.sels, m);
        assert(found.contains(found[0]));
        assert(found[0] == Selection { anchor: m.0, head: m.1 });
    }
}

/// A confirmed search is what the search register holds from then on, and what the history of
/// the prompt is told. The selections stay on the match, and a step back in the jump list
/// leads to where the search began.
pub proof fn law_confirmed_search_is_kept(
    before: (Focus, ModalV, RegisterSet),
    after: (Focus, ModalV, RegisterSet),
    direction: SearchDirection,
    recall: Recall,
    line: Line,
    pattern: Seq<char>,
    op: HistoryV,
    began: SelectionSet,
    current: Jump,
    other: char,
)
    requires
        search_step(before, after, direction, recall, line, LineEvent::Confirm(pattern), op),
        before.0.transient.pre_search_sels == Some(began),
        before.0.jumps@.cursor <= before.0.jumps@.entries.len(),
        before.0.jumps@.capacity >= 1,
        other != 's',
    ensures
        after.2.held('s') == Some(Held::Text(seq![pattern])),
        after.2.held(other) == before.2.held(other),
        op == HistoryV::Push(line.prompt, pattern),
        after.0.sels() == before.0.sels(),
        after.0.doc == before.0.doc,
        after.0.transient.pre_search_sels is None,
        after.0.jumps@.back(current).1 == Some((began@, before.0.buffer.0)),
        after.1.keys.mode == Mode::Normal,
        after.1.line is None,
{
}

/// A search that is not confirmed leaves the registers and the jump list as they are, and
/// nothing is remembered of it.
pub proof fn law_unconfirmed_search_is_not_kept(
    before: (Focus, ModalV, RegisterSet),
    after: (Focus, ModalV, RegisterSet),
    direction: SearchDirection,
    recall: Recall,
    line: Line,
    event: LineEvent,
    op: HistoryV,
)
    requires
        search_step(before, after, direction, recall, line, event, op),
        event !is Confirm,
    ensures
        after.2 == before.2,
        op !is Push,
        after.0.jumps == before.0.jumps,
        after.0.text() == before.0.text(),
{
}

} // verus!

//! Searching for patterns: live while a pattern is typed, and from match to match.

use crate::buffer::{matches_ordered, Buffer, SearchPattern};
use crate::focus::Focus;
use crate::grapheme::end_inclusive;
use crate::history::RevisionId;
use crate::pane_state::{PaneBufferState, SearchCursor};
use crate::selection::{Selection, SelectionSet, Sels};
use crate::strings::{byte_len, utf8_len};
use crate::text::{byte_char_index, rope_chars, Text};
use regex_cursor::engines::meta::Regex;
use regex_cursor::Input;
use vstd::prelude::*;
use vstd::string::*;

verus! {

/// Whether `Regex::new` takes a pattern.
pub uninterp spec fn regex_compiles(pattern: Seq<char>) -> bool;

/// The matches of a pattern in a text, as byte offsets of start and end, in the order in
/// which `Regex::find_iter` gives them.
pub uninterp spec fn regex_matches(pattern: Seq<char>, text: Seq<char>) -> Seq<(usize, usize)>;

/// `regex_cursor::engines::meta::Regex::new` takes or refuses a pattern.
#[verifier::external_body]
fn regex_new(pattern: &str) -> (r: bool)
    ensures
        r == regex_compiles(pattern@),
{
    Regex::new(pattern).is_ok()
}

/// A match lies in the text and does not end before it starts.
pub open spec fn span_inside(span: (usize, usize), len: nat) -> bool {
    span.0 <= span.1 && span.1 <= len
}

/// `regex_cursor::engines::meta::Regex::find_iter` on a rope gives all matches of a
/// pattern that compiles, in order, without overlaps, each inside the text.
#[verifier::external_body]
fn regex_find_iter(pattern: &str, rope: &ropey::Rope) -> (r: Vec<(usize, usize)>)
    requires
        regex_compiles(pattern@),
    ensures
        r@ == regex_matches(pattern@, rope_chars(*rope)),
        forall|i: int|
            0 <= i < r@.len() ==> span_inside(#[trigger] r@[i], byte_len(rope_chars(*rope))),
        forall|i: int, j: int| 0 <= i < j < r@.len() ==> (#[trigger] r@[i]).1 <= (#[trigger] r@[j]).0,
{
    let regex = Regex::new(pattern).unwrap();
    regex.find_iter(Input::new(rope)).map(|m| (m.start(), m.end())).collect()
}

/// Which way a search goes.
#[derive(Debug, Clone, Copy, PartialEq, Eq, Structural)]
pub enum SearchDirection {
    Forward,
    Backward,
}

/// A motion moves the selection, or extends it.
#[derive(Debug, Clone, Copy, PartialEq, Eq, Structural)]
pub enum MotionMode {
    Move,
    Extend,
}

/// Byte spans as positions of first and last character. A span of no character is left
/// out.
pub open spec fn char_spans(s: Seq<char>, spans: Seq<(usize, usize)>) -> Seq<(usize, usize)>
    decreases spans.len(),
{
    if spans.len() == 0 {
        Seq::empty()
    } else {
        let before = char_spans(s, spans.drop_last());
        let from = byte_char_index(s, spans.last().0 as nat);
        let to = byte_char_index(s, spans.last().1 as nat);
        if from < to {
            before.push((from as usize, (to - 1) as usize))
        } else {
            before
        }
    }
}

/// The matches of a pattern in a text, as positions of first and last character.
pub open spec fn all_matches(pattern: Seq<char>, text: Seq<char>) -> Seq<(usize, usize)> {
    char_spans(text, regex_matches(pattern, text))
}

proof fn lemma_byte_char_index_bound(s: Seq<char>, b: nat)
    ensures
        byte_char_index(s, b) <= b,
    decreases s.len(),
{
    if !(s.len() == 0 || b < utf8_len(s[0])) {
        lemma_byte_char_index_bound(s.drop_first(), (b - utf8_len(s[0])) as nat);
    }
}

/// No match of a scan ends before it starts.
pub proof fn lemma_char_spans_ordered(s: Seq<char>, spans: Seq<(usize, usize)>)
    ensures
        matches_ordered(char_spans(s, spans)),
    decreases spans.len(),
{
    if spans.len() > 0 {
        lemma_char_spans_ordered(s, spans.drop_last());
        lemma_byte_char_index_bound(s, spans.last().0 as nat);
        lemma_byte_char_index_bound(s, spans.last().1 as nat);
    }
}

/// Byte spans as positions of first and last character; see [`char_spans`].
pub fn spans_to_chars(text: &Text, spans: &Vec<(usize, usize)>) -> (r: Vec<(usize, usize)>)
    requires
        forall|i: int| 0 <= i < spans@.len() ==> span_inside(#[trigger] spans@[i], byte_len(text@)),
    ensures
        r@ == char_spans(text@, spans@),
{
    let mut r: Vec<(usize, usize)> = Vec::new();
    let n = spans.len();
    let mut i: usize = 0;
    assert(spans@.take(0) =~= Seq::empty());
    while i < n
        invariant
            i <= n == spans@.len(),
            forall|i: int|
                0 <= i < spans@.len() ==> span_inside(#[trigger] spans@[i], byte_len(text@)),
            r@ == char_spans(text@, spans@.take(i as int)),
        decreases n - i,
    {
        let span = spans[i];
        assert(span_inside(spans@[i as int], byte_len(text@)));
        let from = text.byte_to_char(span.0);
        let to = text.byte_to_char(span.1);
        if from < to {
            r.push((from, to - 1));
        }
        i = i + 1;
        assert(spans@.take(i as int).drop_last() =~= spans@.take(i - 1));
    }
    assert(spans@.take(n as int) =~= spans@);
    r
}

/// All matches of a pattern, as positions of first and last character; `None` where it
/// does not compile.
pub fn find_all_matches(text: &Text, pattern: &str) -> (r: Option<Vec<(usize, usize)>>)
    ensures
        match r {
            Some(v) => regex_compiles(pattern@) && v@ == all_matches(pattern@, text@),
            None => !regex_compiles(pattern@),
        },
{
    if !regex_new(pattern) {
        return None;
    }
    let spans = regex_find_iter(pattern, text.as_rope());
    Some(spans_to_chars(text, &spans))
}

/// The first match that starts at `from` or later; the number of matches where there is
/// none.
pub open spec fn first_from(ms: Seq<(usize, usize)>, from: usize) -> nat
    decreases ms.len(),
{
    if ms.len() == 0 || ms[0].0 >= from {
        0
    } else {
        1 + first_from(ms.drop_first(), from)
    }
}

/// One more than the last match that starts before `from`; zero where there is none.
pub open spec fn behind_last_before(ms: Seq<(usize, usize)>, from: usize) -> nat
    decreases ms.len(),
{
    if ms.len() == 0 || ms.last().0 < from {
        ms.len()
    } else {
        behind_last_before(ms.drop_last(), from)
    }
}

/// The next match from `from`, and whether the search went past the end of the text, or
/// past its start, to find it.
pub open spec fn next_match(
    ms: Seq<(usize, usize)>,
    from: usize,
    direction: SearchDirection,
) -> Option<(usize, usize, bool)> {
    if ms.len() == 0 {
        None
    } else {
        match direction {
            SearchDirection::Forward => {
                let i = first_from(ms, from);
                if i < ms.len() {
                    Some((ms[i as int].0, ms[i as int].1, false))
                } else {
                    Some((ms[0].0, ms[0].1, true))
                }
            },
            SearchDirection::Backward => {
                let i = behind_last_before(ms, from);
                if i > 0 {
                    Some((ms[i - 1].0, ms[i - 1].1, false))
                } else {
                    Some((ms.last().0, ms.last().1, true))
                }
            },
        }
    }
}

/// The next of a list of matches; see [`next_match`].
pub fn find_match_from_cache(
    matches: &Vec<(usize, usize)>,
    from: usize,
    direction: SearchDirection,
) -> (r: Option<(usize, usize, bool)>)
    ensures
        r == next_match(matches@, from, direction),
{
    let n = matches.len();
    if n == 0 {
        return None;
    }
    match direction {
        SearchDirection::Forward => {
            let mut i: usize = 0;
            assert(matches@.skip(0) =~= matches@);
            while i < n && matches[i].0 < from
                invariant
                    i <= n == matches@.len(),
                    first_from(matches@, from) == i + first_from(matches@.skip(i as int), from),
                decreases n - i,
            {
                assert(matches@.skip(i as int).drop_first() =~= matches@.skip(i + 1));
                i = i + 1;
            }
            if i < n {
                Some((matches[i].0, matches[i].1, false))
            } else {
                Some((matches[0].0, matches[0].1, true))
            }
        },
        SearchDirection::Backward => {
            let mut i = n;
            assert(matches@.take(n as int) =~= matches@);
            while i > 0 && matches[i - 1].0 >= from
                invariant
                    i <= n == matches@.len(),
                    behind_last_before(matches@, from) == behind_last_before(
                        matches@.take(i as int),
                        from,
                    ),
                decreases i,
            {
                assert(matches@.take(i as int).drop_last() =~= matches@.take(i - 1));
                i = i - 1;
            }
            if i > 0 {
                Some((matches[i - 1].0, matches[i - 1].1, false))
            } else {
                Some((matches[n - 1].0, matches[n - 1].1, true))
            }
        },
    }
}

/// The next match of a pattern in a text; `None` where there is none, or the pattern does
/// not compile.
pub fn find_next_match(text: &Text, pattern: &str, from: usize, direction: SearchDirection) -> (r:
    Option<(usize, usize, bool)>)
    ensures
        r == (if regex_compiles(pattern@) {
            next_match(all_matches(pattern@, text@), from, direction)
        } else {
            None
        }),
{
    match find_all_matches(text, pattern) {
        Some(ms) => find_match_from_cache(&ms, from, direction),
        None => None,
    }
}

/// The selection on a match: the match itself, or from `anchor` to its far end.
pub open spec fn match_selection(
    start: usize,
    end_incl: usize,
    anchor: Option<usize>,
    direction: SearchDirection,
) -> Selection {
    match anchor {
        Some(a) => Selection {
            anchor: a,
            head: match direction {
                SearchDirection::Forward => end_incl,
                SearchDirection::Backward => start,
            },
        },
        None => Selection { anchor: start, head: end_incl },
    }
}

/// The selection on a match: the match itself, or from `anchor` to its far end.
pub fn search_sel(
    start: usize,
    end_incl: usize,
    anchor: Option<usize>,
    direction: SearchDirection,
) -> (r: Selection)
    ensures
        r == match_selection(start, end_incl, anchor, direction),
{
    match anchor {
        Some(a) => {
            let head: usize = match direction {
                SearchDirection::Forward => end_incl,
                SearchDirection::Backward => start,
            };
            Selection::new(a, head)
        },
        None => Selection::new(start, end_incl),
    }
}

/// What is known of the current search.
#[derive(Debug)]
pub struct SearchState {
    /// The way of the last search. It outlives the search.
    pub direction: SearchDirection,
    /// The selections from before the search.
    pub pre_search_sels: Option<SelectionSet>,
    /// The search began in extend mode.
    pub extend: bool,
    /// The pattern, where it compiles.
    pub regex: Option<SearchPattern>,
    /// The matches of the pattern.
    pub matches: Vec<(usize, usize)>,
    /// The current match, counted from one, and how many there are.
    pub match_count: Option<(usize, usize)>,
    /// The last jump went past the end or the start of the text.
    pub wrapped: bool,
    /// The revision that `matches` belongs to.
    pub cache_revision: RevisionId,
    /// The cursor that `match_count` belongs to.
    pub cache_head: usize,
}

impl SearchState {
    /// Nothing is remembered of the matches of a pattern: they have to be found again.
    pub open spec fn forgotten(&self) -> bool {
        &&& self.matches@.len() == 0
        &&& self.match_count is None
        &&& !self.wrapped
        &&& self.cache_revision == RevisionId(usize::MAX)
        &&& self.cache_head == usize::MAX
    }

    /// Ends the search. Its direction is kept.
    pub fn clear(&mut self)
        ensures
            final(self).direction == old(self).direction,
            final(self).pre_search_sels is None,
            !final(self).extend,
            final(self).regex is None,
            final(self).forgotten(),
    {
        self.pre_search_sels = None;
        self.extend = false;
        self.set_regex(None);
    }

    /// Replaces the pattern, and forgets the matches of the one before.
    pub fn set_regex(&mut self, regex: Option<SearchPattern>)
        ensures
            final(self).regex == regex,
            final(self).direction == old(self).direction,
            final(self).pre_search_sels == old(self).pre_search_sels,
            final(self).extend == old(self).extend,
            final(self).forgotten(),
    {
        self.regex = regex;
        self.matches = Vec::new();
        self.match_count = None;
        self.wrapped = false;
        self.cache_revision = RevisionId(usize::MAX);
        self.cache_head = usize::MAX;
    }

    pub fn matches(&self) -> (r: &Vec<(usize, usize)>)
        ensures
            *r == self.matches,
    {
        &self.matches
    }

    pub fn match_count(&self) -> (r: Option<(usize, usize)>)
        ensures
            r == self.match_count,
    {
        self.match_count
    }

    pub fn wrapped(&self) -> (r: bool)
        ensures
            r == self.wrapped,
    {
        self.wrapped
    }
}

impl Default for SearchState {
    fn default() -> (r: SearchState)
        ensures
            r.direction == SearchDirection::Forward,
            r.pre_search_sels is None,
            !r.extend,
            r.regex is None,
            r.forgotten(),
    {
        SearchState {
            direction: SearchDirection::Forward,
            pre_search_sels: None,
            extend: false,
            regex: None,
            matches: Vec::new(),
            match_count: None,
            wrapped: false,
            cache_revision: RevisionId(usize::MAX),
            cache_head: usize::MAX,
        }
    }
}

/// The text of a pattern.
pub open spec fn pattern_text(p: Option<SearchPattern>) -> Option<Seq<char>> {
    match p {
        Some(p) => Some(p.pattern_str@),
        None => None,
    }
}

/// The buffer with another search pattern.
pub open spec fn with_pattern(before: Buffer, after: Buffer, pattern: Option<Seq<char>>) -> bool {
    &&& after == (Buffer { search_pattern: after.search_pattern, ..before })
    &&& pattern_text(after.search_pattern) == pattern
}

impl Focus {
    /// After the search was cleared in the pane.
    pub open spec fn search_cleared(self, after: Focus) -> bool {
        &&& after == (Focus {
            doc: Buffer {
                search_pattern: None,
                search_matches: after.doc.search_matches,
                ..self.doc
            },
            here: PaneBufferState {
                search_cursor: SearchCursor { match_count: None, wrapped: false },
                ..self.here
            },
            ..self
        })
        &&& after.doc.search_matches@.len() == 0
    }

    /// Drops the pattern of the buffer and its highlights.
    pub fn clear_search(&mut self)
        ensures
            old(self).search_cleared(*final(self)),
            old(self).wf() ==> final(self).wf(),
    {
        self.doc.search_pattern = None;
        self.doc.search_matches = Vec::new();
        self.here.search_cursor = SearchCursor { match_count: None, wrapped: false };
    }

    /// Finds the matches of the buffer's pattern, to be highlighted and jumped to.
    pub fn refresh_matches(&mut self)
        ensures
            *final(self) == (Focus {
                doc: Buffer {
                    search_matches: final(self).doc.search_matches,
                    ..old(self).doc
                },
                ..*old(self)
            }),
            final(self).doc.search_matches@ == (match pattern_text(old(self).doc.search_pattern) {
                Some(p) => if regex_compiles(p) {
                    all_matches(p, old(self).text())
                } else {
                    Seq::empty()
                },
                None => Seq::empty(),
            }),
            matches_ordered(final(self).doc.search_matches@),
            old(self).wf() ==> final(self).wf(),
    {
        let found: Vec<(usize, usize)> = match &self.doc.search_pattern {
            Some(p) => match find_all_matches(&self.doc.text, p.pattern_str.as_str()) {
                Some(ms) => ms,
                None => Vec::new(),
            },
            None => Vec::new(),
        };
        proof {
            if let Some(p) = pattern_text(self.doc.search_pattern) {
                lemma_char_spans_ordered(self.text(), regex_matches(p, self.text()));
            }
        }
        self.doc.search_matches = found;
    }

    /// The selections from before the search, where there are any.
    pub open spec fn before_search(self) -> Sels {
        match self.transient.pre_search_sels {
            Some(s) => s@,
            None => self.sels(),
        }
    }

    /// The selections from before the selecting, where there are any.
    pub open spec fn before_select(self) -> Sels {
        match self.transient.pre_select_sels {
            Some(s) => s@,
            None => self.sels(),
        }
    }

    /// Goes back to the selections from before the search, and keeps them for later.
    pub fn restore_search_snapshot(&mut self)
        ensures
            old(self).selecting(*final(self), old(self).before_search()),
    {
        match &self.transient.pre_search_sels {
            Some(s) => {
                let sels = s.clone();
                self.here.selections = sels;
            },
            None => {},
        }
    }

    /// Goes back to the selections from before the selecting, and keeps them for later.
    pub fn restore_select_snapshot(&mut self)
        ensures
            old(self).selecting(*final(self), old(self).before_select()),
    {
        match &self.transient.pre_select_sels {
            Some(s) => {
                let sels = s.clone();
                self.here.selections = sels;
            },
            None => {},
        }
    }

    /// Where a search that is being typed starts: at the place from before it.
    pub open spec fn live_from(self, direction: SearchDirection) -> usize {
        match self.transient.pre_search_sels {
            Some(s) => {
                let p = s@.sels[s@.primary as int];
                match direction {
                    SearchDirection::Forward => p.spec_start(),
                    SearchDirection::Backward => end_inclusive(p, self.text()) as usize,
                }
            },
            None => 0,
        }
    }

    /// The selection on the match of a pattern that is being typed.
    pub open spec fn live_target(self, pattern: Seq<char>, direction: SearchDirection) -> Option<
        Selection,
    > {
        match next_match(
            all_matches(pattern, self.text()),
            self.live_from(direction),
            direction,
        ) {
            Some((start, end, _)) => Some(
                match_selection(
                    start,
                    end,
                    if self.transient.search_extend {
                        Some(
                            match self.transient.pre_search_sels {
                                Some(s) => s@.sels[s@.primary as int].anchor,
                                None => start,
                            },
                        )
                    } else {
                        None
                    },
                    direction,
                ),
            ),
            None => None,
        }
    }

    /// After the search for a pattern that is being typed. An unfinished pattern clears
    /// the search; without a match the pane goes back to where it was.
    pub open spec fn live_searched(
        self,
        after: Focus,
        pattern: Seq<char>,
        direction: SearchDirection,
    ) -> bool {
        if pattern.len() == 0 {
            after == self
        } else if !regex_compiles(pattern) {
            self.search_cleared(after)
        } else {
            &&& after == (Focus {
                doc: after.doc,
                here: PaneBufferState { selections: after.here.selections, ..self.here },
                ..self
            })
            &&& with_pattern(self.doc, after.doc, Some(pattern))
            &&& after.sels() == (match self.live_target(pattern, direction) {
                Some(sel) => self.sels().with_primary(sel).merged(),
                None => self.before_search(),
            })
        }
    }

    /// Searches for the pattern that is being typed, from the place where the search
    /// began; see [`Focus::live_searched`].
    pub fn update_live_search(&mut self, pattern: &str, direction: SearchDirection)
        ensures
            old(self).live_searched(*final(self), pattern@, direction),
            old(self).wf() ==> final(self).wf(),
    {
        if pattern.is_empty() {
            return;
        }
        let matches = match find_all_matches(&self.doc.text, pattern) {
            Some(ms) => ms,
            None => {
                self.clear_search();
                return;
            },
        };
        let from: usize = match &self.transient.pre_search_sels {
            Some(s) => {
                let p = s.primary();
                match direction {
                    SearchDirection::Forward => p.start(),
                    SearchDirection::Backward => p.end_inclusive(&self.doc.text),
                }
            },
            None => 0,
        };
        match find_match_from_cache(&matches, from, direction) {
            Some((start, end, _)) => {
                let anchor: Option<usize> = if self.transient.search_extend {
                    match &self.transient.pre_search_sels {
                        Some(s) => Some(s.primary().anchor),
                        None => Some(start),
                    }
                } else {
                    None
                };
                self.set_primary_selection(search_sel(start, end, anchor, direction));
            },
            None => self.restore_search_snapshot(),
        }
        self.doc.search_pattern = Some(SearchPattern { pattern_str: pattern.to_owned() });
    }
}

/// A match that takes the bytes of `hit`, between `before` and `behind`, is from its first to its
/// last character; a match of nothing is left out.
pub proof fn law_match_positions(
    before: Seq<char>,
    hit: Seq<char>,
    behind: Seq<char>,
    spans: Seq<(usize, usize)>,
    span: (usize, usize),
)
    requires
        before.len() + hit.len() <= usize::MAX,
        span.0 == byte_len(before),
        span.1 == byte_len(before + hit),
    ensures
        ({
            let text = before + hit + behind;
            let earlier = char_spans(text, spans);
            let all = char_spans(text, spans.push(span));
            if hit.len() == 0 {
                all == earlier
            } else {
                &&& all.len() == earlier.len() + 1
                &&& all.drop_last() == earlier
                &&& all.last() == (
                    before.len() as usize,
                    (before.len() + hit.len() - 1) as usize,
                )
            }
        }),
{
    let text = before + hit + behind;
    assert(spans.push(span).drop_last() =~= spans);
    crate::text::law_bytes_and_positions(before, hit + behind);
    crate::text::law_bytes_and_positions(before + hit, behind);
    assert(before + (hit + behind) =~= text);
    assert((before + hit) + behind =~= text);
    if hit.len() == 0 {
        assert(before + hit =~= before);
    } else {
        let earlier = char_spans(text, spans);
        let m = (before.len() as usize, (before.len() + hit.len() - 1) as usize);
        assert(earlier.push(m).drop_last() =~= earlier);
    }
}

/// The matches stand in order, none starts where another does.
pub open spec fn in_text_order(ms: Seq<(usize, usize)>) -> bool {
    forall|i: int, j: int| 0 <= i < j < ms.len() ==> (#[trigger] ms[i]).0 < (#[trigger] ms[j]).0
}

proof fn lemma_first_from(ms: Seq<(usize, usize)>, from: usize)
    ensures
        first_from(ms, from) <= ms.len(),
        first_from(ms, from) < ms.len() ==> ms[first_from(ms, from) as int].0 >= from,
        forall|i: int| 0 <= i < first_from(ms, from) ==> (#[trigger] ms[i]).0 < from,
    decreases ms.len(),
{
    if !(ms.len() == 0 || ms[0].0 >= from) {
        let rest = ms.drop_first();
        lemma_first_from(rest, from);
        assert forall|i: int| 0 <= i < first_from(ms, from) implies (#[trigger] ms[i]).0 < from by {
            if i > 0 {
                assert(rest[i - 1].0 < from);
            }
        }
    }
}

proof fn lemma_last_before(ms: Seq<(usize, usize)>, from: usize)
    ensures
        behind_last_before(ms, from) <= ms.len(),
        behind_last_before(ms, from) > 0 ==> ms[behind_last_before(ms, from) - 1].0 < from,
        forall|i: int|
            behind_last_before(ms, from) <= i < ms.len() ==> (#[trigger] ms[i]).0 >= from,
    decreases ms.len(),
{
    if !(ms.len() == 0 || ms.last().0 < from) {
        let rest = ms.drop_last();
        lemma_last_before(rest, from);
        assert forall|i: int| behind_last_before(ms, from) <= i < ms.len() implies (
        #[trigger] ms[i]).0 >= from by {
            if i < rest.len() {
                assert(rest[i].0 >= from);
            }
        }
    }
}

/// The next match forward is the nearest one that starts at `from` or later. Where there is none
/// it is the first of all, and the search has wrapped. It is none exactly where there are no
/// matches.
pub proof fn law_next_match_forward(ms: Seq<(usize, usize)>, from: usize)
    requires
        in_text_order(ms),
    ensures
        match next_match(ms, from, SearchDirection::Forward) {
            None => ms.len() == 0,
            Some((a, b, wrapped)) => {
                &&& ms.contains((a, b))
                &&& wrapped == (forall|i: int| 0 <= i < ms.len() ==> (#[trigger] ms[i]).0 < from)
                &&& !wrapped ==> a >= from && forall|i: int|
                    0 <= i < ms.len() && from <= (#[trigger] ms[i]).0 ==> a <= ms[i].0
                &&& wrapped ==> forall|i: int| 0 <= i < ms.len() ==> a <= (#[trigger] ms[i]).0
            },
        },
{
    lemma_first_from(ms, from);
    if ms.len() > 0 {
        let p = first_from(ms, from) as int;
        let k = if p < ms.len() {
            p
        } else {
            0
        };
        assert(ms[k] == ((next_match(ms, from, SearchDirection::Forward)->0).0, (next_match(
            ms,
            from,
            SearchDirection::Forward,
        )->0).1));
        assert forall|i: int| k < i < ms.len() implies ms[k].0 <= (#[trigger] ms[i]).0 by {
            assert(ms[k].0 < ms[i].0);
        }
    }
}

/// The next match backward is the nearest one that starts before `from`. Where there is none it
/// is the last of all, and the search has wrapped. It is none exactly where there are no
/// matches.
pub proof fn law_next_match_backward(ms: Seq<(usize, usize)>, from: usize)
    requires
        in_text_order(ms),
    ensures
        match next_match(ms, from, SearchDirection::Backward) {
            None => ms.len() == 0,
            Some((a, b, wrapped)) => {
                &&& ms.contains((a, b))
                &&& wrapped == (forall|i: int| 0 <= i < ms.len() ==> (#[trigger] ms[i]).0 >= from)
                &&& !wrapped ==> a < from && forall|i: int|
                    0 <= i < ms.len() && (#[trigger] ms[i]).0 < from ==> ms[i].0 <= a
                &&& wrapped ==> forall|i: int| 0 <= i < ms.len() ==> (#[trigger] ms[i]).0 <= a
            },
        },
{
    lemma_last_before(ms, from);
    if ms.len() > 0 {
        let p = behind_last_before(ms, from) as int;
        let k = if p > 0 {
            p - 1
        } else {
            ms.len() - 1
        };
        assert(ms[k] == ((next_match(ms, from, SearchDirection::Backward)->0).0, (next_match(
            ms,
            from,
            SearchDirection::Backward,
        )->0).1));
        assert forall|i: int| 0 <= i < k implies (#[trigger] ms[i]).0 <= ms[k].0 by {
            assert(ms[i].0 < ms[k].0);
        }
    }
}

/// A match is selected from its first to its last character. Where a selection is extended its
/// anchor stays, and its head goes to the end of the match that is farther on in the direction
/// of the search.
pub proof fn law_selection_on_a_match(a: usize, b: usize, anchor: usize)
    requires
        a <= b,
    ensures
        ({
            let s = match_selection(a, b, None, SearchDirection::Forward);
            &&& s.anchor == a && s.head == b
            &&& match_selection(a, b, None, SearchDirection::Backward) == s
        }),
        match_selection(a, b, Some(anchor), SearchDirection::Forward) == (Selection {
            anchor,
            head: b,
        }),
        match_selection(a, b, Some(anchor), SearchDirection::Backward) == (Selection {
            anchor,
            head: a,
        }),
{
}

/// Typing a pattern searches from the place where the search began, whatever was found on the
/// way: the result does not depend on what is selected now.
pub proof fn law_live_search_starts_over(
    f: Focus,
    g: Focus,
    pattern: Seq<char>,
    direction: SearchDirection,
)
    requires
        f.transient == g.transient,
        f.text() == g.text(),
    ensures
        f.live_target(pattern, direction) == g.live_target(pattern, direction),
{
}

/// Typing a pattern forward selects the nearest match that starts at the selection from before
/// the search or behind, and backward the nearest one that starts before the end of it; where
/// there is none, the search goes on at the other end of the text.
pub proof fn law_live_search_finds_the_nearest(
    f: Focus,
    pattern: Seq<char>,
    before: SelectionSet,
)
    requires
        f.transient.pre_search_sels == Some(before),
        !f.transient.search_extend,
        in_text_order(all_matches(pattern, f.text())),
    ensures
        ({
            let ms = all_matches(pattern, f.text());
            let p = before@.sels[before@.primary as int];
            let start = if p.anchor < p.head {
                p.anchor
            } else {
                p.head
            };
            let end = end_inclusive(p, f.text()) as usize;
            &&& match f.live_target(pattern, SearchDirection::Forward) {
                None => ms.len() == 0,
                Some(s) => {
                    &&& ms.contains((s.anchor, s.head))
                    &&& forall|i: int|
                        0 <= i < ms.len() && (#[trigger] ms[i]).0 >= start ==> start <= s.anchor
                            <= ms[i].0
                },
            }
            &&& match f.live_target(pattern, SearchDirection::Backward) {
                None => ms.len() == 0,
                Some(s) => {
                    &&& ms.contains((s.anchor, s.head))
                    &&& forall|i: int|
                        0 <= i < ms.len() && (#[trigger] ms[i]).0 < end ==> ms[i].0 <= s.anchor
                            < end
                },
            }
        }),
{
    let ms = all_matches(pattern, f.text());
    law_next_match_forward(ms, f.live_from(SearchDirection::Forward));
    law_next_match_backward(ms, f.live_from(SearchDirection::Backward));
}

/// A search that was begun in extend mode keeps the anchor from before it and moves the head to
/// the match.
pub proof fn law_extending_search_keeps_the_anchor(
    f: Focus,
    pattern: Seq<char>,
    direction: SearchDirection,
    before: SelectionSet,
)
    requires
        f.transient.pre_search_sels == Some(before),
        f.transient.search_extend,
    ensures
        ({
            let ms = all_matches(pattern, f.text());
            match f.live_target(pattern, direction) {
                None => ms.len() == 0,
                Some(s) => s.anchor == before@.sels[before@.primary as int].anchor,
            }
        }),
{
}

/// While a pattern is typed nothing but the pattern and the selections changes. A pattern that
/// does not compile takes the highlights away and leaves the selections; one without a match
/// leads back to the selections from before the search.
pub proof fn law_live_search_only_selects(
    f: Focus,
    g: Focus,
    pattern: Seq<char>,
    direction: SearchDirection,
)
    requires
        f.live_searched(g, pattern, direction),
    ensures
        g.text() == f.text(),
        g.transient == f.transient,
        g.jumps == f.jumps,
        g.buffer == f.buffer,
        g.doc.path == f.doc.path,
        pattern.len() == 0 ==> g == f,
        pattern.len() > 0 && !regex_compiles(pattern) ==> g.sels() == f.sels()
            && g.doc.search_pattern is None && g.doc.search_matches@.len() == 0,
        pattern.len() > 0 && regex_compiles(pattern) ==> g.doc.search_pattern is Some
            && g.doc.search_pattern->0.pattern_str@ == pattern,
        pattern.len() > 0 && regex_compiles(pattern) && all_matches(pattern, f.text()).len() == 0
            ==> g.sels() == (match f.transient.pre_search_sels {
            Some(s) => s@,
            None => f.sels(),
        }),
{
}

/// A search that is cleared leaves no pattern, no match and no place among the matches; the text
/// and the selections stay.
pub proof fn law_cleared_search_leaves_nothing(before: Focus, after: Focus)
    requires
        before.search_cleared(after),
    ensures
        after.doc.search_pattern is None,
        after.doc.search_matches@.len() == 0,
        after.here.search_cursor.match_count is None,
        !after.here.search_cursor.wrapped,
        after.text() == before.text(),
        after.sels() == before.sels(),
        after.jumps == before.jumps,
        after.transient == before.transient,
{
}

} // verus!

//! What each pane keeps: where it looks, what is selected there, where it came from.

use crate::buffer::{Buffer, EditGroup};
use crate::buffer_store::BufferId;
use crate::selection::{Selection, SelectionSet, Sels};
use crate::slots::{slot_number, valid_id, SlotTable};
use vstd::prelude::*;

verus! {

/// Names a pane.
#[derive(Debug, Clone, Copy, PartialEq, Eq, Structural)]
pub struct PaneId(pub u64);

/// Where a pane stands in the matches of a search.
#[derive(Debug, Clone, Copy)]
pub struct SearchCursor {
    /// The current match, counted from one, and how many there are.
    pub match_count: Option<(usize, usize)>,
    /// The last jump went past the end or the start of the text.
    pub wrapped: bool,
}

/// What one pane keeps of one buffer.
pub struct PaneBufferState {
    pub selections: SelectionSet,
    pub search_cursor: SearchCursor,
    /// Open while the pane is in insert mode.
    pub edit_group: Option<EditGroup>,
    /// Open between a paste and the next command that does not cycle through pastes.
    pub paste_group: Option<EditGroup>,
    /// The open paste went before the selection.
    pub paste_before: bool,
}

impl PaneBufferState {
    /// Nothing was done yet, and `sels` are selected.
    pub open spec fn fresh(self, sels: Sels) -> bool {
        &&& self.selections@ == sels
        &&& self.search_cursor == (SearchCursor { match_count: None, wrapped: false })
        &&& self.edit_group is None
        &&& self.paste_group is None
        &&& !self.paste_before
    }
}

impl Default for PaneBufferState {
    fn default() -> (r: Self)
        ensures
            r.fresh(Sels::single(Selection { anchor: 0, head: 0 })),
    {
        PaneBufferState {
            selections: SelectionSet::default(),
            search_cursor: SearchCursor { match_count: None, wrapped: false },
            edit_group: None,
            paste_group: None,
            paste_before: false,
        }
    }
}

/// The state of a pane that shows `buf` for the first time.
pub fn fresh_from_buf(buf: &Buffer) -> (r: PaneBufferState)
    ensures
        r.fresh(buf.tree().initial),
{
    PaneBufferState {
        selections: buf.initial_sels(),
        search_cursor: SearchCursor { match_count: None, wrapped: false },
        edit_group: None,
        paste_group: None,
        paste_before: false,
    }
}

/// What a pane keeps while a search or selection pattern is typed.
pub struct PaneTransient {
    /// The selections from before the search, restored when it is cancelled.
    pub pre_search_sels: Option<SelectionSet>,
    /// The selections from before selecting by pattern.
    pub pre_select_sels: Option<SelectionSet>,
    /// The search began in extend mode.
    pub search_extend: bool,
}

impl Default for PaneTransient {
    fn default() -> (r: Self)
        ensures
            r.pre_search_sels is None,
            r.pre_select_sels is None,
            !r.search_extend,
    {
        PaneTransient { pre_search_sels: None, pre_select_sels: None, search_extend: false }
    }
}

/// A place to come back to.
pub struct JumpEntry {
    pub selections: SelectionSet,
    pub buffer: BufferId,
}

/// A place to come back to, as a value.
pub type Jump = (Sels, u64);

impl View for JumpEntry {
    type V = Jump;

    open spec fn view(&self) -> Jump {
        (self.selections@, self.buffer.0)
    }
}

impl JumpEntry {
    pub fn clone(&self) -> (r: JumpEntry)
        ensures
            r@ == self@,
    {
        JumpEntry { selections: self.selections.clone(), buffer: self.buffer }
    }
}

/// The places a pane has jumped from, oldest first. `cursor` is where walking back has
/// led; it is at the end after a new jump.
pub struct JumpList {
    entries: Vec<JumpEntry>,
    cursor: usize,
    capacity: usize,
}

/// A jump list as a value.
#[verifier::ext_equal]
pub struct Jumps {
    pub entries: Seq<Jump>,
    pub cursor: nat,
    pub capacity: nat,
}

/// The entries of `s` that are not in buffer `b`.
pub open spec fn not_in(s: Seq<Jump>, b: u64) -> Seq<Jump>
    decreases s.len(),
{
    if s.len() == 0 {
        s
    } else if s.last().1 == b {
        not_in(s.drop_last(), b)
    } else {
        not_in(s.drop_last(), b).push(s.last())
    }
}

impl Jumps {
    /// The list after a jump from `e`: what lay ahead is dropped, and the oldest entry
    /// leaves a list that is full.
    pub open spec fn pushed(self, e: Jump) -> Jumps {
        let kept = self.entries.take(self.cursor as int).push(e);
        let fitted = if kept.len() > self.capacity {
            kept.drop_first()
        } else {
            kept
        };
        Jumps { entries: fitted, cursor: fitted.len(), capacity: self.capacity }
    }

    /// The list without the entries of buffer `b`.
    pub open spec fn pruned(self, b: u64) -> Jumps {
        Jumps {
            entries: not_in(self.entries, b),
            cursor: not_in(self.entries.take(self.cursor as int), b).len(),
            capacity: self.capacity,
        }
    }

    /// One step back from `current`: at the end of the list `current` is kept first, to
    /// come forward to again.
    pub open spec fn back(self, current: Jump) -> (Jumps, Option<Jump>) {
        if self.cursor == 0 {
            (self, None)
        } else {
            let entries = if self.cursor == self.entries.len() {
                self.entries.push(current)
            } else {
                self.entries
            };
            (
                Jumps { entries, cursor: (self.cursor - 1) as nat, ..self },
                Some(entries[self.cursor - 1]),
            )
        }
    }

    /// One step forward.
    pub open spec fn ahead(self) -> (Jumps, Option<Jump>) {
        if self.cursor + 1 < self.entries.len() {
            (
                Jumps { cursor: self.cursor + 1, ..self },
                Some(self.entries[self.cursor as int + 1]),
            )
        } else {
            (self, None)
        }
    }
}

pub open spec fn jumps_of(v: Seq<JumpEntry>) -> Seq<Jump> {
    v.map_values(|e: JumpEntry| e@)
}

impl View for JumpList {
    type V = Jumps;

    closed spec fn view(&self) -> Jumps {
        Jumps {
            entries: jumps_of(self.entries@),
            cursor: self.cursor as nat,
            capacity: self.capacity as nat,
        }
    }
}

proof fn lemma_not_in_len(s: Seq<Jump>, b: u64, k: int)
    requires
        0 <= k <= s.len(),
    ensures
        not_in(s.take(k), b).len() <= not_in(s, b).len() <= s.len(),
        not_in(s.take(k), b).len() <= k,
    decreases s.len() - k,
{
    if k < s.len() {
        lemma_not_in_len(s, b, k + 1);
        assert(s.take(k + 1).drop_last() =~= s.take(k));
    } else {
        assert(s.take(k) =~= s);
    }
    lemma_not_in_bound(s.take(k), b);
    lemma_not_in_bound(s, b);
}

proof fn lemma_not_in_bound(s: Seq<Jump>, b: u64)
    ensures
        not_in(s, b).len() <= s.len(),
    decreases s.len(),
{
    if s.len() > 0 {
        lemma_not_in_bound(s.drop_last(), b);
    }
}

/// Pruning leaves no entry of the buffer, and adds none.
pub proof fn law_pruned_has_no_entry(j: Jumps, b: u64)
    ensures
        forall|i: int|
            0 <= i < j.pruned(b).entries.len() ==> (#[trigger] j.pruned(b).entries[i]).1 != b
                && j.entries.contains(j.pruned(b).entries[i]),
{
    lemma_not_in_none(j.entries, b);
}

/// A step back from the end of the list, where there is one, and a step forward lead back
/// to where they began.
pub proof fn law_back_and_ahead(j: Jumps, current: Jump)
    requires
        0 < j.cursor,
        j.cursor == j.entries.len(),
    ensures
        j.back(current).1 == Some(j.entries.last()),
        j.back(current).0.ahead().1 == Some(current),
{
}

proof fn lemma_not_in_none(s: Seq<Jump>, b: u64)
    ensures
        forall|i: int|
            0 <= i < not_in(s, b).len() ==> (#[trigger] not_in(s, b)[i]).1 != b && s.contains(
                not_in(s, b)[i],
            ),
    decreases s.len(),
{
    if s.len() > 0 {
        let r = s.drop_last();
        lemma_not_in_none(r, b);
        assert forall|i: int| 0 <= i < not_in(s, b).len() implies (#[trigger] not_in(s, b)[i]).1
            != b && s.contains(not_in(s, b)[i]) by {
            if i < not_in(r, b).len() {
                let e = not_in(r, b)[i];
                assert(e.1 != b && r.contains(e));
                let k = choose|k: int| 0 <= k < r.len() && r[k] == e;
                assert(s[k] == e);
            } else {
                assert(s[s.len() - 1] == s.last());
            }
        }
    }
}

impl JumpList {
    #[verifier::type_invariant]
    spec fn inv(self) -> bool {
        self.cursor <= self.entries@.len()
    }

    /// A list for `capacity` places.
    pub fn new(capacity: usize) -> (r: JumpList)
        ensures
            r@ == (Jumps { entries: Seq::empty(), cursor: 0, capacity: capacity as nat }),
    {
        let r = JumpList { entries: Vec::new(), cursor: 0, capacity };
        assert(r@.entries =~= Seq::empty());
        r
    }

    /// Keeps the place of a jump.
    pub fn push(&mut self, e: JumpEntry)
        ensures
            final(self)@ == old(self)@.pushed(e@),
    {
        proof {
            use_type_invariant(&*self);
        }
        let mut t = JumpList::new(0);
        std::mem::swap(&mut t, self);
        let JumpList { mut entries, cursor, capacity } = t;
        let ghost e0 = jumps_of(entries@);
        entries.truncate(cursor);
        assert(jumps_of(entries@) =~= e0.take(cursor as int));
        entries.push(e);
        assert(jumps_of(entries@) =~= e0.take(cursor as int).push(e@));
        if entries.len() > capacity {
            let _ = entries.remove(0);
            assert(jumps_of(entries@) =~= e0.take(cursor as int).push(e@).drop_first());
        }
        let n = entries.len();
        *self = JumpList { entries, cursor: n, capacity };
    }

    /// Drops the places in buffer `b`.
    pub fn prune_buffer(&mut self, b: BufferId)
        ensures
            final(self)@ == old(self)@.pruned(b.0),
    {
        proof {
            use_type_invariant(&*self);
        }
        let mut t = JumpList::new(0);
        std::mem::swap(&mut t, self);
        let JumpList { entries, cursor, capacity } = t;
        let ghost e0 = jumps_of(entries@);
        let mut kept: Vec<JumpEntry> = Vec::new();
        let mut new_cursor: usize = 0;
        let n = entries.len();
        let mut i: usize = 0;
        assert(e0.take(0) =~= Seq::empty());
        assert(jumps_of(kept@) =~= Seq::empty());
        while i < n
            invariant
                i <= n == entries@.len(),
                cursor <= n,
                e0 == jumps_of(entries@),
                jumps_of(kept@) == not_in(e0.take(i as int), b.0),
                new_cursor == not_in(
                    e0.take(
                        if i <= cursor {
                            i as int
                        } else {
                            cursor as int
                        },
                    ),
                    b.0,
                ).len(),
                new_cursor <= i,
            decreases n - i,
        {
            let ghost k0 = jumps_of(kept@);
            assert(e0.take(i + 1).drop_last() =~= e0.take(i as int));
            assert(e0.take(i + 1).last() == entries@[i as int]@);
            if entries[i].buffer.0 != b.0 {
                let e = entries[i].clone();
                let ghost ev = e@;
                kept.push(e);
                assert(jumps_of(kept@) =~= k0.push(ev));
                if i < cursor {
                    new_cursor = new_cursor + 1;
                }
            }
            i = i + 1;
        }
        proof {
            assert(e0.take(n as int) =~= e0);
            lemma_not_in_len(e0, b.0, cursor as int);
        }
        *self = JumpList { entries: kept, cursor: new_cursor, capacity };
    }

    /// Goes one place back.
    pub fn backward(&mut self, current: JumpEntry) -> (r: Option<JumpEntry>)
        ensures
            (final(self)@, match r {
                Some(e) => Some(e@),
                None => None,
            }) == old(self)@.back(current@),
            old(self)@.cursor <= old(self)@.entries.len(),
    {
        proof {
            use_type_invariant(&*self);
        }
        if self.cursor == 0 {
            return None;
        }
        let mut t = JumpList::new(0);
        std::mem::swap(&mut t, self);
        let JumpList { mut entries, cursor, capacity } = t;
        let ghost e0 = jumps_of(entries@);
        if cursor == entries.len() {
            entries.push(current);
            assert(jumps_of(entries@) =~= e0.push(current@));
        }
        let e = entries[cursor - 1].clone();
        *self = JumpList { entries, cursor: cursor - 1, capacity };
        Some(e)
    }

    /// Goes one place forward.
    pub fn forward(&mut self) -> (r: Option<JumpEntry>)
        ensures
            (final(self)@, match r {
                Some(e) => Some(e@),
                None => None,
            }) == old(self)@.ahead(),
    {
        proof {
            use_type_invariant(&*self);
        }
        let n = self.entries.len();
        if self.cursor < n && self.cursor + 1 < n {
            let e = self.entries[self.cursor + 1].clone();
            self.cursor = self.cursor + 1;
            Some(e)
        } else {
            None
        }
    }
}

/// How far a pane is scrolled.
#[derive(Debug, Clone, Copy, PartialEq, Eq, Structural)]
pub struct Scroll {
    /// The line at the top.
    pub top_line: usize,
    /// The visual row of that line at the top.
    pub top_row_offset: usize,
    /// The columns that are cut off on the left.
    pub horizontal_offset: usize,
}

/// The part of a buffer that a pane shows.
#[derive(Debug, Clone, Copy, PartialEq, Eq, Structural)]
pub struct Viewport {
    pub scroll: Scroll,
    pub width: u16,
    pub height: u16,
}

/// A window onto a buffer. It remembers how far it was scrolled in other buffers.
pub struct Pane {
    pub buffer_id: BufferId,
    pub viewport: Viewport,
    pub saved: SlotTable<Scroll>,
}

/// A pane as a value.
#[verifier::ext_equal]
pub struct PaneV {
    pub buffer: u64,
    pub viewport: Viewport,
    pub saved: Map<u64, Scroll>,
}

pub open spec fn no_scroll() -> Scroll {
    Scroll { top_line: 0, top_row_offset: 0, horizontal_offset: 0 }
}

impl View for Pane {
    type V = PaneV;

    open spec fn view(&self) -> PaneV {
        PaneV { buffer: self.buffer_id.0, viewport: self.viewport, saved: self.saved@ }
    }
}

impl PaneV {
    /// The pane turned to buffer `target`: scrolled as it was left there, or to the top.
    pub open spec fn turned_to(self, target: u64) -> PaneV {
        let saved = self.saved.insert(self.buffer, self.viewport.scroll);
        PaneV {
            buffer: target,
            viewport: Viewport {
                scroll: if saved.contains_key(target) {
                    saved[target]
                } else {
                    no_scroll()
                },
                ..self.viewport
            },
            saved,
        }
    }

    pub open spec fn forgetting(self, b: u64) -> PaneV {
        PaneV { saved: self.saved.remove(b), ..self }
    }
}

impl Pane {
    /// Turns the pane to `target`.
    pub fn turn_to(&mut self, target: BufferId)
        requires
            valid_id(target.0),
            valid_id(old(self).buffer_id.0),
            forall|k: u64|
                old(self).saved@.contains_key(k) && k != old(self).buffer_id.0
                    ==> #[trigger] slot_number(k) != slot_number(old(self).buffer_id.0),
        ensures
            final(self)@ == old(self)@.turned_to(target.0),
    {
        self.saved.insert(self.buffer_id.0, self.viewport.scroll);
        self.buffer_id = target;
        self.viewport.scroll = match self.saved.get(target.0) {
            Some(s) => *s,
            None => Scroll { top_line: 0, top_row_offset: 0, horizontal_offset: 0 },
        };
    }

    /// Forgets how far the pane was scrolled in `b`.
    pub fn forget_buffer(&mut self, b: BufferId)
        requires
            valid_id(b.0),
        ensures
            final(self)@ == old(self)@.forgetting(b.0),
    {
        let _ = self.saved.remove(b.0);
    }
}

/// A place that was just left is the first that a step back leads to, and the step forward
/// from there leads to where the way back began.
pub proof fn law_jump_leads_back(j: Jumps, left: Jump, current: Jump)
    requires
        j.cursor <= j.entries.len(),
        j.capacity >= 1,
    ensures
        j.pushed(left).back(current).1 == Some(left),
        j.pushed(left).back(current).0.ahead().1 == Some(current),
        j.pushed(left).ahead().1 is None,
{
}

/// A new jump forgets what lay ahead and keeps what lay behind, in its order. The oldest
/// place leaves a list that is full.
pub proof fn law_jump_keeps_what_lies_behind(j: Jumps, left: Jump)
    requires
        j.cursor <= j.entries.len(),
    ensures
        j.cursor < j.capacity ==> j.pushed(left).entries == j.entries.subrange(
            0,
            j.cursor as int,
        ) + seq![left],
        j.cursor >= j.capacity && j.cursor > 0 ==> j.pushed(left).entries == j.entries.subrange(
            1,
            j.cursor as int,
        ) + seq![left],
        j.cursor <= j.capacity ==> j.pushed(left).entries.len() <= j.capacity,
        j.pushed(left).capacity == j.capacity,
{
    if j.cursor < j.capacity {
        assert(j.pushed(left).entries =~= j.entries.subrange(0, j.cursor as int) + seq![left]);
    } else if j.cursor > 0 {
        assert(j.pushed(left).entries =~= j.entries.subrange(1, j.cursor as int) + seq![left]);
    }
}

/// Steps inside the list go from one place to the next, and undo one another. At either
/// end there is no further step.
pub proof fn law_steps_along_the_list(j: Jumps, current: Jump)
    requires
        j.cursor <= j.entries.len(),
    ensures
        0 < j.cursor < j.entries.len() ==> j.back(current).1 == Some(j.entries[j.cursor - 1])
            && j.back(current).0.ahead() == (j, Some(j.entries[j.cursor as int])),
        j.cursor + 1 < j.entries.len() ==> j.ahead().1 == Some(j.entries[j.cursor as int + 1])
            && j.ahead().0.back(current) == (j, Some(j.entries[j.cursor as int])),
        j.cursor == 0 ==> j.back(current) == (j, None::<Jump>),
        j.cursor + 1 >= j.entries.len() ==> j.ahead() == (j, None::<Jump>),
{
}

/// Closing a buffer takes its places out of the list and leaves the others in their order.
/// The list stands where it stood.
pub proof fn law_pruned_keeps_the_others(j: Jumps, b: u64)
    requires
        j.cursor <= j.entries.len(),
    ensures
        j.pruned(b).entries == j.entries.filter(|e: Jump| e.1 != b),
        j.cursor < j.entries.len() && j.entries[j.cursor as int].1 != b ==> j.pruned(b).cursor
            < j.pruned(b).entries.len() && j.pruned(b).entries[j.pruned(b).cursor as int]
            == j.entries[j.cursor as int],
        j.cursor == j.entries.len() ==> j.pruned(b).cursor == j.pruned(b).entries.len(),
        j.pruned(b).capacity == j.capacity,
{
    lemma_not_in_filter(j.entries, b);
    let k = j.cursor as int;
    assert(j.entries.take(j.entries.len() as int) =~= j.entries);
    if k < j.entries.len() {
        lemma_not_in_front(j.entries, b, k + 1);
        assert(j.entries.take(k + 1).drop_last() =~= j.entries.take(k));
        assert(j.entries.take(k + 1).last() == j.entries[k]);
    }
}

proof fn lemma_not_in_filter(s: Seq<Jump>, b: u64)
    ensures
        not_in(s, b) == s.filter(|e: Jump| e.1 != b),
    decreases s.len(),
{
    reveal(Seq::filter);
    if s.len() > 0 {
        lemma_not_in_filter(s.drop_last(), b);
    }
}

proof fn lemma_not_in_front(s: Seq<Jump>, b: u64, k: int)
    requires
        0 <= k <= s.len(),
    ensures
        not_in(s.take(k), b).len() <= not_in(s, b).len(),
        forall|i: int|
            0 <= i < not_in(s.take(k), b).len() ==> #[trigger] not_in(s, b)[i] == not_in(
                s.take(k),
                b,
            )[i],
    decreases s.len(),
{
    if k < s.len() {
        assert(s.drop_last().take(k) =~= s.take(k));
        lemma_not_in_front(s.drop_last(), b, k);
    } else {
        assert(s.take(k) =~= s);
    }
}

/// A pane that turns to another buffer and back is scrolled as it was, and one that turns to
/// a buffer it has never shown begins at the top.
pub proof fn law_pane_remembers_its_scroll(p: PaneV, b: u64)
    requires
        b != p.buffer,
    ensures
        p.turned_to(b).buffer == b,
        p.turned_to(b).turned_to(p.buffer).buffer == p.buffer,
        p.turned_to(b).turned_to(p.buffer).viewport == p.viewport,
        !p.saved.contains_key(b) ==> p.turned_to(b).viewport.scroll == (Scroll {
            top_line: 0,
            top_row_offset: 0,
            horizontal_offset: 0,
        }),
        p.forgetting(b).turned_to(b).viewport.scroll == (Scroll {
            top_line: 0,
            top_row_offset: 0,
            horizontal_offset: 0,
        }),
        p.forgetting(b).viewport == p.viewport && p.forgetting(b).buffer == p.buffer,
        p.turned_to(b).viewport.height == p.viewport.height,
        p.turned_to(b).viewport.width == p.viewport.width,
{
}

} // verus!

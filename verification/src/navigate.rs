//! Commands that go elsewhere: along the jump list, to other buffers, to a character, and
//! by pages.

use crate::buffer_store::{last_other, lemma_last_other};
use crate::dispatch::Keys;
use crate::focus::Focus;
use crate::message_log::Severity;
use crate::messages::{fails, CommandError, Messages};
use crate::modes::ModalV;
use crate::ops::{closed, place_kept, turned, used_now, Workspace};
use crate::pane_state::{law_pruned_has_no_entry, Jump, JumpEntry, JumpList};
use crate::search::MotionMode;
use crate::selection::{SelectionSet, Sels};
use crate::state::{EditorState, FindChar, FindKind};
use crate::text::Text;
use vstd::prelude::*;
use vstd::string::*;

verus! {

impl Workspace {
    /// The place where the focused pane is.
    pub open spec fn place(&self) -> Jump {
        (self.here().selections@, self.shown())
    }

    /// Every place in the jump list of the focused pane is in an open buffer.
    pub open spec fn jumps_open(&self) -> bool {
        let entries = self.jumps@[self.focused.0]@.entries;
        forall|i: int|
            0 <= i < entries.len() ==> self.buffers@.contains_key((#[trigger] entries[i]).1)
    }

    /// Only the focused pane and the order in which buffers were used differ.
    pub open spec fn elsewhere_same(&self, after: Workspace) -> bool {
        let p = self.focused.0;
        &&& after.pane_ids == self.pane_ids
        &&& after.buffer_ids == self.buffer_ids
        &&& after.transient == self.transient
        &&& after.focused == self.focused
        &&& after.panes@.dom() == self.panes@.dom()
        &&& after.state@.dom() == self.state@.dom()
        &&& after.jumps@.dom() == self.jumps@.dom()
        &&& forall|q: u64| q != p ==> #[trigger] after.panes@[q] == self.panes@[q]
        &&& forall|q: u64| q != p ==> #[trigger] after.state@[q] == self.state@[q]
        &&& forall|q: u64| q != p ==> #[trigger] after.jumps@[q] == self.jumps@[q]
    }

    /// After the focused pane went to `target`, where there is one. A pane that turns to
    /// another buffer is scrolled as it was left there.
    pub open spec fn went_to(&self, after: Workspace, target: Option<Jump>) -> bool {
        let p = self.focused.0;
        &&& self.elsewhere_same(after)
        &&& match target {
            None => after.panes == self.panes && after.state == self.state && after.buffers
                == self.buffers,
            Some((sels, b)) => {
                &&& after.shown() == b
                &&& if b == self.shown() {
                    after.buffers == self.buffers
                } else {
                    used_now(self.buffers, after.buffers, b)
                }
                &&& after.here().selections@ == sels
                &&& after.panes@[p]@ == (if b == self.shown() {
                    self.panes@[p]@
                } else {
                    self.panes@[p]@.turned_to(b)
                })
                &&& forall|k: u64|
                    k != b && self.state@[p]@.contains_key(k) ==> #[trigger] after.state@[p]@[k]
                        == self.state@[p]@[k]
            },
        }
    }

    fn go_to(&mut self, target: JumpEntry)
        requires
            old(self).wf(),
            old(self).buffers@.contains_key(target.buffer.0),
        ensures
            final(self).wf(),
            old(self).went_to(*final(self), Some(target@)),
            final(self).jumps == old(self).jumps,
    {
        let ghost o = *self;
        let current = self.focused_buffer_id();
        if target.buffer.0 != current.0 {
            self.switch_pane_to_buffer(self.focused, target.buffer);
        }
        let ghost mid = *self;
        self.set_current_selections(target.selections);
        proof {
            let p = o.focused.0;
            assert forall|k: u64|
                k != target.buffer.0 && o.state@[p]@.contains_key(k) implies #[trigger] self.state@[p]@[k]
                == o.state@[p]@[k] by {
                assert(mid.state@[p]@[k] == o.state@[p]@[k]);
            }
        }
    }

    fn swap_jumps(&mut self, list: &mut JumpList)
        requires
            old(self).wf(),
        ensures
            final(self).wf(),
            *final(list) == old(self).jumps@[old(self).focused.0],
            final(self).jumps@ == old(self).jumps@.insert(old(self).focused.0, *old(list)),
            *final(self) == (Workspace { jumps: final(self).jumps, ..*old(self) }),
    {
        let ghost o = *self;
        let _ = self.focused_buffer_id();
        self.jumps.swap(self.focused.0, list);
        proof {
            assert(self.jumps@.dom() =~= o.jumps@.dom());
            assert forall|q: u64| #[trigger] self.panes@.contains_key(q) implies self.pane_ok(
                q,
            ) by {
                assert(o.pane_ok(q));
            }
        }
    }

    /// Goes one place back in the jump list of the focused pane.
    pub fn cmd_jump_backward(&mut self)
        requires
            old(self).wf(),
            old(self).jumps_open(),
        ensures
            final(self).wf(),
            ({
                let (jumps, target) = old(self).jumps@[old(self).focused.0]@.back(
                    old(self).place(),
                );
                &&& final(self).jumps@[old(self).focused.0]@ == jumps
                &&& old(self).went_to(*final(self), target)
            }),
    {
        let ghost o = *self;
        let ghost entries = self.jumps@[self.focused.0]@.entries;
        let current = self.current_jump_entry();
        let mut list = JumpList::new(0);
        self.swap_jumps(&mut list);
        let target = list.backward(current);
        self.swap_jumps(&mut list);
        match target {
            Some(e) => {
                proof {
                    let j = o.jumps@[o.focused.0]@;
                    assert(e@ == entries[j.cursor - 1]);
                    assert(self.buffers@.contains_key(e.buffer.0));
                }
                self.go_to(e);
            },
            None => {},
        }
    }

    /// Goes one place forward in the jump list of the focused pane.
    pub fn cmd_jump_forward(&mut self)
        requires
            old(self).wf(),
            old(self).jumps_open(),
        ensures
            final(self).wf(),
            ({
                let (jumps, target) = old(self).jumps@[old(self).focused.0]@.ahead();
                &&& final(self).jumps@[old(self).focused.0]@ == jumps
                &&& old(self).went_to(*final(self), target)
            }),
    {
        let ghost o = *self;
        let mut list = JumpList::new(0);
        self.swap_jumps(&mut list);
        let target = list.forward();
        self.swap_jumps(&mut list);
        match target {
            Some(e) => {
                proof {
                    let j = o.jumps@[o.focused.0]@;
                    assert(e@ == j.entries[j.cursor as int + 1]);
                    assert(self.buffers@.contains_key(e.buffer.0));
                }
                self.go_to(e);
            },
            None => {},
        }
    }

    /// Turns the focused pane to the buffer used last before this one. The place it comes
    /// from is not kept here: running a jump command keeps it.
    pub fn cmd_goto_alternate_file(&mut self, messages: &mut Messages)
        requires
            old(self).wf(),
        ensures
            final(self).wf(),
            match last_other(old(self).buffers.used(), old(self).shown()) {
                Some(b) => {
                    &&& turned(*old(self), *final(self), old(self).focused.0, b)
                    &&& final(self).jumps == old(self).jumps
                    &&& final(self).shown() == b
                    &&& final(messages)@ == old(messages)@
                },
                None => {
                    &&& *final(self) == *old(self)
                    &&& final(messages)@ == old(messages)@.reported(
                        Severity::Warning,
                        "No alternate buffer"@,
                    )
                },
            },
    {
        let current = self.focused_buffer_id();
        match self.buffers.mru_excluding(current) {
            Some(id) => {
                self.buffers.check_orders();
                proof {
                    lemma_last_other(self.buffers.used(), current.0);
                    assert(self.buffers.used().contains(id.0));
                    assert(self.buffers@.contains_key(id.0));
                }
                self.switch_pane_to_buffer(self.focused, id);
            },
            None => messages.report(Severity::Warning, "No alternate buffer".to_owned()),
        }
    }
}

/// The places in the jump list stay in open buffers: when a buffer is closed, and when the
/// focused pane turns to another one and keeps the place it came from.
pub proof fn law_jumps_stay_open(before: Workspace, after: Workspace, b: u64)
    requires
        before.wf(),
        before.jumps_open(),
        before.jumps@[before.focused.0]@.cursor <= before.jumps@[before.focused.0]@.entries.len(),
        before.buffers@.contains_key(b),
        closed(before, after, b) || turned(before, after, before.focused.0, b) && place_kept(
            before,
            after,
        ),
    ensures
        after.jumps_open(),
{
    let f = before.focused.0;
    let j = before.jumps@[f]@;
    assert(before.pane_ok(f));
    if closed(before, after, b) {
        law_pruned_has_no_entry(j, b);
        assert(after.jumps@[f]@ == j.pruned(b));
        let entries = after.jumps@[f]@.entries;
        assert forall|i: int| 0 <= i < entries.len() implies after.buffers@.contains_key(
            (#[trigger] entries[i]).1,
        ) by {
            assert(j.pruned(b).entries[i].1 != b);
            let k = choose|k: int| 0 <= k < j.entries.len() && j.entries[k] == entries[i];
            assert(before.buffers@.contains_key(j.entries[k].1));
        }
    } else {
        let kept = j.entries.take(j.cursor as int).push(before.place());
        let entries = after.jumps@[f]@.entries;
        assert forall|i: int| 0 <= i < entries.len() implies after.buffers@.contains_key(
            (#[trigger] entries[i]).1,
        ) by {
            let k = if kept.len() > j.capacity {
                i + 1
            } else {
                i
            };
            assert(entries[i] == kept[k]);
            if k < j.entries.take(j.cursor as int).len() {
                assert(kept[k] == j.entries[k]);
            }
        }
    }
}

/// There is only one pane to focus.
pub fn cmd_pane_focus() -> (r: Result<(), CommandError>)
    ensures
        fails(r, ":split not yet implemented"@),
{
    Err(CommandError::new(":split not yet implemented"))
}

/// `o` is where `find_fn` moves these selections of this text.
pub open spec fn found<F: FnOnce(&Text, SelectionSet, MotionMode, usize, FindChar) -> SelectionSet>(
    find_fn: F,
    text: Seq<char>,
    sels: Sels,
    mode: MotionMode,
    count: usize,
    what: FindChar,
    o: SelectionSet,
) -> bool {
    exists|t: &Text, s: SelectionSet|
        #![trigger find_fn.ensures((t, s, mode, count, what), o)]
        t@ == text && s@ == sels && find_fn.ensures((t, s, mode, count, what), o)
}

/// `find_fn` can be called on this text.
pub open spec fn finds_in<
    F: FnOnce(&Text, SelectionSet, MotionMode, usize, FindChar) -> SelectionSet,
>(find_fn: F, text: Seq<char>) -> bool {
    forall|t: &Text, s: SelectionSet, mode: MotionMode, count: usize, what: FindChar|
        #![trigger find_fn.requires((t, s, mode, count, what))]
        t@ == text ==> find_fn.requires((t, s, mode, count, what))
}

impl Focus {
    /// Finds the character that the command was given, where it was. `find_fn` moves the
    /// selections there. The character is kept, to be found again.
    pub fn find_char<
        F: FnOnce(&Text, SelectionSet, MotionMode, usize, FindChar) -> SelectionSet,
    >(
        &mut self,
        state: &mut EditorState,
        count: usize,
        mode: MotionMode,
        kind: FindKind,
        find_fn: F,
    )
        requires
            finds_in(find_fn, old(self).text()),
        ensures
            ({
                let keys = old(state).modal@.keys;
                &&& *final(state) == (EditorState {
                    modal: final(state).modal,
                    last_find: match keys.pending_char {
                        Some(ch) => Some(FindChar { ch, kind }),
                        None => old(state).last_find,
                    },
                    ..*old(state)
                })
                &&& final(state).modal@ == (ModalV {
                    keys: Keys { pending_char: None, ..keys },
                    ..old(state).modal@
                })
                &&& match keys.pending_char {
                    Some(ch) => exists|o: SelectionSet|
                        #[trigger] found(
                            find_fn,
                            old(self).text(),
                            old(self).sels(),
                            mode,
                            count,
                            FindChar { ch, kind },
                            o,
                        ) && old(self).selecting(*final(self), o@),
                    None => *final(self) == *old(self),
                }
            }),
    {
        match state.modal.keys.pending_char.take() {
            Some(ch) => {
                let what = FindChar { ch, kind };
                self.go_to_found(count, mode, what, find_fn);
                state.last_find = Some(what);
            },
            None => {},
        }
    }

    /// Finds the last character again, where there is one. `find_fn` moves the selections
    /// there.
    pub fn repeat_find<
        F: FnOnce(&Text, SelectionSet, MotionMode, usize, FindChar) -> SelectionSet,
    >(&mut self, state: &EditorState, count: usize, mode: MotionMode, find_fn: F)
        requires
            finds_in(find_fn, old(self).text()),
        ensures
            match state.last_find {
                Some(what) => exists|o: SelectionSet|
                    #[trigger] found(
                        find_fn,
                        old(self).text(),
                        old(self).sels(),
                        mode,
                        count,
                        what,
                        o,
                    ) && old(self).selecting(*final(self), o@),
                None => *final(self) == *old(self),
            },
    {
        match state.last_find {
            Some(what) => self.go_to_found(count, mode, what, find_fn),
            None => {},
        }
    }

    fn go_to_found<F: FnOnce(&Text, SelectionSet, MotionMode, usize, FindChar) -> SelectionSet>(
        &mut self,
        count: usize,
        mode: MotionMode,
        what: FindChar,
        find_fn: F,
    )
        requires
            finds_in(find_fn, old(self).text()),
        ensures
            exists|o: SelectionSet|
                #[trigger] found(
                    find_fn,
                    old(self).text(),
                    old(self).sels(),
                    mode,
                    count,
                    what,
                    o,
                ) && old(self).selecting(*final(self), o@),
    {
        let o = find_fn(&self.doc.text, self.here.selections.clone(), mode, count, what);
        assert(found(find_fn, old(self).text(), old(self).sels(), mode, count, what, o));
        self.select(o);
    }
}

/// How many lines a page command moves by in a pane of this height.
pub open spec fn page_lines(height: u16, half: bool) -> int {
    if !half {
        height as int
    } else if height < 2 {
        1
    } else {
        height as int / 2
    }
}

/// How many lines a page command moves by.
pub fn page_count(height: u16, half: bool) -> (r: usize)
    ensures
        r == page_lines(height, half),
{
    let h: usize = height as usize;
    if !half {
        h
    } else if h / 2 < 1 {
        1
    } else {
        h / 2
    }
}

/// Where in the window a view command puts the cursor's line.
#[derive(Debug, Clone, Copy, PartialEq, Eq, Structural)]
pub enum ViewTarget {
    Center,
    Top,
    Bottom,
}

/// The row of a window of this height that a view command puts the cursor's line on.
pub open spec fn target_row(target: ViewTarget, height: u16) -> int {
    match target {
        ViewTarget::Center => height as int / 2,
        ViewTarget::Top => 0,
        ViewTarget::Bottom => if height > 0 {
            height - 1
        } else {
            0
        },
    }
}

/// The row of the window that a view command puts the cursor's line on.
pub fn view_row(target: ViewTarget, height: u16) -> (r: usize)
    ensures
        r == target_row(target, height),
{
    let h: usize = height as usize;
    match target {
        ViewTarget::Center => h / 2,
        ViewTarget::Top => 0,
        ViewTarget::Bottom => {
            if h > 0 {
                h - 1
            } else {
                0
            }
        },
    }
}

/// One step back from the end of the jump list and one step forward lead to the buffer and
/// the selections from which they began.
pub proof fn law_jump_back_and_forward(start: Workspace, there: Workspace, back: Workspace)
    requires
        ({
            let j = start.jumps@[start.focused.0]@;
            let (jumps, target) = j.back(start.place());
            &&& 0 < j.cursor == j.entries.len()
            &&& there.jumps@[start.focused.0]@ == jumps
            &&& start.went_to(there, target)
        }),
        there.went_to(back, there.jumps@[there.focused.0]@.ahead().1),
    ensures
        there.place() == start.jumps@[start.focused.0]@.entries.last(),
        back.shown() == start.shown(),
        back.here().selections@ == start.here().selections@,
{
}

/// Where the list has no place to go to, nothing moves.
pub proof fn law_no_place_to_go_to(before: Workspace, after: Workspace)
    requires
        before.went_to(after, None),
    ensures
        after.panes == before.panes,
        after.state == before.state,
        after.buffers == before.buffers,
        after.focused == before.focused,
{
}

/// A page is as high as the pane. Half a page is as many lines as fit twice into it and leave at
/// most one over, and at least one line.
pub proof fn law_pages(height: u16)
    ensures
        page_lines(height, false) == height,
        height >= 2 ==> 2 * page_lines(height, true) <= height < 2 * page_lines(height, true) + 2,
        height < 2 ==> page_lines(height, true) == 1,
{
}

/// The cursor's line is put on the first row, on the last row, or on a row with as many rows above
/// it as below, give or take one.
pub proof fn law_rows_of_views(height: u16)
    requires
        height > 0,
    ensures
        target_row(ViewTarget::Top, height) == 0,
        target_row(ViewTarget::Bottom, height) + 1 == height,
        ({
            let above = target_row(ViewTarget::Center, height);
            let below = height - 1 - above;
            above == below || above == below + 1
        }),
{
}

} // verus!

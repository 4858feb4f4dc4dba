//! Opening, focusing and closing panes.

use crate::buffer_store::BufferId;
use crate::ops::Workspace;
use crate::pane_state::{
    fresh_from_buf, JumpList, Jumps, Pane, PaneBufferState, PaneId, PaneTransient, Scroll, Viewport,
};
use crate::selection::SelectionSet;
use crate::slots::{slot_number, valid_id, SlotTable};
use vstd::prelude::*;

verus! {

impl Workspace {
    /// Opens a pane that shows the buffer `b`. The focus stays where it is.
    pub fn open_pane(
        &mut self,
        b: BufferId,
        width: u16,
        height: u16,
        jump_capacity: usize,
    ) -> (r: PaneId)
        requires
            old(self).wf(),
            old(self).buffers@.contains_key(b.0),
            old(self).pane_ids@.len() < 0xffff_fffe,
        ensures
            final(self).wf(),
            !old(self).panes@.contains_key(r.0),
            final(self).panes@.dom() == old(self).panes@.dom().insert(r.0),
            final(self).panes@[r.0].buffer_id == b,
            final(self).panes@[r.0].viewport == (Viewport {
                scroll: crate::pane_state::no_scroll(),
                width,
                height,
            }),
            final(self).panes@[r.0].saved@ == Map::<u64, Scroll>::empty(),
            final(self).state@[r.0]@.dom() == set![b.0],
            final(self).state@[r.0]@[b.0].fresh(old(self).buffers@[b.0].tree().initial),
            final(self).transient@[r.0].pre_search_sels is None,
            final(self).transient@[r.0].pre_select_sels is None,
            !final(self).transient@[r.0].search_extend,
            final(self).jumps@[r.0]@ == (Jumps {
                entries: Seq::empty(),
                cursor: 0,
                capacity: jump_capacity as nat,
            }),
            final(self).focused == old(self).focused,
            final(self).buffers == old(self).buffers,
            final(self).buffer_ids == old(self).buffer_ids,
            forall|p: u64|
                p != r.0 ==> {
                    &&& #[trigger] final(self).panes@[p] == old(self).panes@[p]
                    &&& final(self).state@[p] == old(self).state@[p]
                    &&& final(self).transient@[p] == old(self).transient@[p]
                    &&& final(self).jumps@[p] == old(self).jumps@[p]
                },
    {
        let ghost o = *self;
        self.pane_ids.check_ids();
        self.buffers.check_orders();
        let p = self.pane_ids.insert();
        proof {
            assert forall|k: u64| o.panes@.contains_key(k) implies #[trigger] slot_number(k)
                != slot_number(p) by {
                assert(o.pane_ids@.contains(k));
            }
            assert(!o.panes@.dom().contains(p));
        }
        let seed = fresh_from_buf(self.buffers.get(b));
        let mut states: SlotTable<PaneBufferState> = SlotTable::new();
        states.insert(b.0, seed);
        assert(states@.dom() =~= set![b.0]);
        proof {
            assert(forall|k: u64| o.state@.contains_key(k) ==> o.panes@.dom().contains(k));
            assert(forall|k: u64| o.transient@.contains_key(k) ==> o.panes@.dom().contains(k));
            assert(forall|k: u64| o.jumps@.contains_key(k) ==> o.panes@.dom().contains(k));
        }
        self.state.insert(p, states);
        self.transient.insert(p, PaneTransient::default());
        self.jumps.insert(p, JumpList::new(jump_capacity));
        let viewport = Viewport {
            scroll: Scroll { top_line: 0, top_row_offset: 0, horizontal_offset: 0 },
            width,
            height,
        };
        self.panes.insert(p, Pane { buffer_id: b, viewport, saved: SlotTable::new() });
        proof {
            assert(self.panes@.dom() =~= o.panes@.dom().insert(p));
            assert(self.state@.dom() =~= self.panes@.dom());
            assert(self.transient@.dom() =~= self.panes@.dom());
            assert(self.jumps@.dom() =~= self.panes@.dom());
            assert(self.pane_ids@ =~= self.panes@.dom());
            assert forall|q: u64| #[trigger] self.panes@.contains_key(q) implies self.pane_ok(
                q,
            ) by {
                if q != p {
                    assert(o.panes@.contains_key(q));
                    assert(o.pane_ok(q));
                }
            }
        }
        PaneId(p)
    }

    /// Moves the focus to the pane `target`. Nothing else changes.
    pub fn switch_focused_pane(&mut self, target: PaneId)
        requires
            old(self).wf(),
            old(self).panes@.contains_key(target.0),
        ensures
            final(self).wf(),
            *final(self) == (Workspace { focused: target, ..*old(self) }),
    {
        let ghost o = *self;
        self.focused = target;
        proof {
            assert forall|q: u64| #[trigger] self.panes@.contains_key(q) implies self.pane_ok(
                q,
            ) by {
                assert(o.pane_ok(q));
            }
        }
    }

    /// Closes a pane that is not focused, and forgets all that it kept.
    pub fn close_pane(&mut self, target: PaneId)
        requires
            old(self).wf(),
            old(self).panes@.contains_key(target.0),
            target != old(self).focused,
        ensures
            final(self).wf(),
            final(self).panes@ == old(self).panes@.remove(target.0),
            final(self).state@ == old(self).state@.remove(target.0),
            final(self).transient@ == old(self).transient@.remove(target.0),
            final(self).jumps@ == old(self).jumps@.remove(target.0),
            final(self).focused == old(self).focused,
            final(self).buffers == old(self).buffers,
            final(self).buffer_ids == old(self).buffer_ids,
    {
        let ghost o = *self;
        self.pane_ids.check_ids();
        assert(self.pane_ids@.contains(target.0));
        self.pane_ids.remove(target.0);
        let _ = self.panes.remove(target.0);
        let _ = self.state.remove(target.0);
        let _ = self.transient.remove(target.0);
        let _ = self.jumps.remove(target.0);
        proof {
            assert(self.panes@.dom() =~= o.panes@.dom().remove(target.0));
            assert(self.state@.dom() =~= self.panes@.dom());
            assert(self.transient@.dom() =~= self.panes@.dom());
            assert(self.jumps@.dom() =~= self.panes@.dom());
            assert(self.pane_ids@ =~= self.panes@.dom());
            assert(self.panes@.contains_key(self.focused.0)) by {
                assert(o.panes@.contains_key(o.focused.0));
            }
            assert forall|q: u64| #[trigger] self.panes@.contains_key(q) implies self.pane_ok(
                q,
            ) by {
                assert(o.panes@.contains_key(q));
                assert(o.pane_ok(q));
            }
        }
    }

    /// The selections that a pane has, or had when it last showed it, in a buffer.
    pub fn selections_for(&self, pane: PaneId, buffer: BufferId) -> (r: Option<&SelectionSet>)
        requires
            valid_id(pane.0),
            valid_id(buffer.0),
        ensures
            match r {
                Some(s) => self.state@.contains_key(pane.0) && self.state@[pane.0]@.contains_key(
                    buffer.0,
                ) && *s == self.state@[pane.0]@[buffer.0].selections,
                None => !(self.state@.contains_key(pane.0) && self.state@[pane.0]@.contains_key(
                    buffer.0,
                )),
            },
    {
        match self.state.get(pane.0) {
            Some(states) => match states.get(buffer.0) {
                Some(s) => Some(&s.selections),
                None => None,
            },
            None => None,
        }
    }
}

/// A pane that is opened and closed again leaves the others as they were.
pub proof fn law_open_then_close(before: Workspace, opened: Workspace, after: Workspace, p: u64)
    requires
        before.wf(),
        !before.panes@.contains_key(p),
        opened.panes@.dom() == before.panes@.dom().insert(p),
        forall|q: u64| q != p ==> #[trigger] opened.panes@[q] == before.panes@[q],
        after.panes@ == opened.panes@.remove(p),
    ensures
        after.panes@ == before.panes@,
{
    assert(after.panes@ =~= before.panes@);
}

} // verus!

//! The focused pane: the buffer it shows and what the pane keeps of it.

use crate::buffer::Buffer;
use crate::buffer_store::BufferId;
use crate::ops::Workspace;
use crate::pane_state::{JumpEntry, JumpList, PaneBufferState, PaneTransient};
use crate::selection::{Selection, SelectionSet, Sels};
use vstd::prelude::*;

verus! {

/// What a command works on.
pub struct Focus {
    pub doc: Buffer,
    pub here: PaneBufferState,
    pub transient: PaneTransient,
    pub jumps: JumpList,
    pub buffer: BufferId,
}

impl Workspace {
    /// What the focused pane shows and keeps.
    pub open spec fn focus(&self) -> Focus {
        Focus {
            doc: self.document(),
            here: self.here(),
            transient: self.transient@[self.focused.0],
            jumps: self.jumps@[self.focused.0],
            buffer: BufferId(self.shown()),
        }
    }

    /// The workspace with other contents of the focused pane.
    pub open spec fn refocused(&self, f: Focus, after: Workspace) -> bool {
        let p = self.focused.0;
        let b = self.shown();
        &&& after.pane_ids == self.pane_ids
        &&& after.buffer_ids == self.buffer_ids
        &&& after.panes == self.panes
        &&& after.focused == self.focused
        &&& after.buffers@ == self.buffers@.insert(b, f.doc)
        &&& after.buffers.opened() == self.buffers.opened()
        &&& after.buffers.used() == self.buffers.used()
        &&& after.state@.dom() == self.state@.dom()
        &&& after.state@[p]@ == self.state@[p]@.insert(b, f.here)
        &&& forall|q: u64| q != p ==> #[trigger] after.state@[q] == self.state@[q]
        &&& after.transient@ == self.transient@.insert(p, f.transient)
        &&& after.jumps@ == self.jumps@.insert(p, f.jumps)
    }

    /// Exchanges the contents of the focused pane and those of `f`.
    pub fn swap_focus(&mut self, f: &mut Focus)
        requires
            old(self).wf(),
            old(f).buffer.0 == old(self).shown(),
        ensures
            final(self).wf(),
            *final(f) == old(self).focus(),
            final(self).focus() == *old(f),
            old(self).refocused(*old(f), *final(self)),
    {
        let ghost o = *self;
        let _ = self.focused_buffer_id();
        let p = self.focused.0;
        self.swap_doc(&mut f.doc);
        self.swap_here(&mut f.here);
        self.transient.swap(p, &mut f.transient);
        self.jumps.swap(p, &mut f.jumps);
        proof {
            assert(self.transient@.dom() =~= o.transient@.dom());
            assert(self.jumps@.dom() =~= o.jumps@.dom());
            assert forall|q: u64| #[trigger] self.panes@.contains_key(q) implies self.pane_ok(
                q,
            ) by {
                assert(o.pane_ok(q));
            }
        }
    }

    /// Lifts the contents of the focused pane out. An empty buffer and a fresh state stay
    /// behind until [`Workspace::swap_focus`] puts them back.
    pub fn lift_focus(&mut self) -> (r: Focus)
        requires
            old(self).wf(),
        ensures
            final(self).wf(),
            r == old(self).focus(),
            old(self).refocused(final(self).focus(), *final(self)),
    {
        let buffer = self.focused_buffer_id();
        let mut f = Focus {
            doc: Buffer::scratch(),
            here: PaneBufferState::default(),
            transient: PaneTransient::default(),
            jumps: JumpList::new(0),
            buffer,
        };
        self.swap_focus(&mut f);
        f
    }

    /// Puts the contents of the focused pane back.
    pub fn put_focus(&mut self, f: Focus)
        requires
            old(self).wf(),
            f.buffer.0 == old(self).shown(),
        ensures
            final(self).wf(),
            final(self).focus() == f,
            old(self).refocused(f, *final(self)),
    {
        let mut f = f;
        self.swap_focus(&mut f);
    }
}

/// Lifting the focused pane out and putting back what was done to it changes nothing
/// else.
pub proof fn law_lift_and_put(before: Workspace, lifted: Workspace, f: Focus, after: Workspace)
    requires
        before.refocused(lifted.focus(), lifted),
        lifted.refocused(f, after),
        lifted.shown() == before.shown(),
    ensures
        before.refocused(f, after),
{
    let p = before.focused.0;
    let b = before.shown();
    assert(after.buffers@ =~= before.buffers@.insert(b, f.doc));
    assert(after.state@[p]@ =~= before.state@[p]@.insert(b, f.here));
    assert(after.transient@ =~= before.transient@.insert(p, f.transient));
    assert(after.jumps@ =~= before.jumps@.insert(p, f.jumps));
}

impl Focus {
    /// The text that is shown.
    pub open spec fn text(&self) -> Seq<char> {
        self.doc.doc()
    }

    /// The selections.
    pub open spec fn sels(&self) -> Sels {
        self.here.selections@
    }

    /// The primary selection.
    pub open spec fn primary(&self) -> Selection {
        self.sels().sels[self.sels().primary as int]
    }

    /// The place where the pane is.
    pub open spec fn place(&self) -> (Sels, u64) {
        (self.sels(), self.buffer.0)
    }

    /// The same but for the selections.
    pub open spec fn selecting(self, after: Focus, sels: Sels) -> bool {
        &&& after.sels() == sels
        &&& after == (Focus {
            here: PaneBufferState { selections: after.here.selections, ..self.here },
            ..self
        })
    }

    /// Selects `sels`.
    pub fn select(&mut self, sels: SelectionSet)
        ensures
            old(self).selecting(*final(self), sels@),
    {
        self.here.selections = sels;
    }

    /// Puts `sel` in place of the primary selection. Selections that overlap it become one
    /// with it.
    pub fn set_primary_selection(&mut self, sel: Selection)
        ensures
            old(self).selecting(*final(self), old(self).sels().with_primary(sel).merged()),
    {
        let sels = self.here.selections.clone();
        self.here.selections = sels.replace_primary(sel).merge_overlapping();
    }

    /// The place where the pane is.
    pub fn jump_entry(&self) -> (r: JumpEntry)
        ensures
            r@ == self.place(),
    {
        JumpEntry { selections: self.here.selections.clone(), buffer: self.buffer }
    }
}

} // verus!

//! Panes and buffers together: opening, showing, replacing and closing buffers.

use crate::buffer::{Buffer, FileMeta};
use crate::buffer_store::{
    first_at, last_other, lemma_last_other, without, BufferId, BufferStore,
};
use crate::pane_state::{
    fresh_from_buf, JumpEntry, JumpList, Jumps, Pane, PaneBufferState, PaneId, PaneTransient,
    Scroll, Viewport,
};
use crate::selection::{SelectionSet, Sels};
use crate::slots::{slot_number, slots_apart, valid_id, IdPool, SlotTable};
use vstd::prelude::*;

verus! {

/// All panes and all buffers.
pub struct Workspace {
    pub pane_ids: IdPool,
    pub buffer_ids: IdPool,
    pub panes: SlotTable<Pane>,
    pub buffers: BufferStore,
    /// What each pane keeps of each buffer it has shown.
    pub state: SlotTable<SlotTable<PaneBufferState>>,
    pub transient: SlotTable<PaneTransient>,
    pub jumps: SlotTable<JumpList>,
    pub focused: PaneId,
}

impl Workspace {
    /// The pane `p` shows an open buffer, has a state for it, and keeps nothing of
    /// buffers that are closed.
    pub open spec fn pane_ok(&self, p: u64) -> bool {
        let b = self.panes@[p].buffer_id.0;
        &&& self.buffers@.contains_key(b)
        &&& self.state@[p]@.contains_key(b)
        &&& self.state@[p]@.dom().subset_of(self.buffers@.dom())
        &&& self.panes@[p].saved@.dom().subset_of(self.buffers@.dom())
    }

    /// Panes and buffers agree: every identifier in use has its entry in every table, the
    /// focused pane exists, and every pane is in order.
    pub open spec fn wf(&self) -> bool {
        &&& self.pane_ids@ == self.panes@.dom()
        &&& self.buffer_ids@ == self.buffers@.dom()
        &&& self.state@.dom() == self.panes@.dom()
        &&& self.transient@.dom() == self.panes@.dom()
        &&& self.jumps@.dom() == self.panes@.dom()
        &&& self.panes@.contains_key(self.focused.0)
        &&& forall|p: u64| #[trigger] self.panes@.contains_key(p) ==> self.pane_ok(p)
    }

    /// The buffer that the focused pane shows.
    pub open spec fn shown(&self) -> u64 {
        self.panes@[self.focused.0].buffer_id.0
    }

    /// What the focused pane keeps of the buffer it shows.
    pub open spec fn here(&self) -> PaneBufferState {
        self.state@[self.focused.0]@[self.shown()]
    }

    /// The text and the file that the focused pane shows.
    pub open spec fn document(&self) -> Buffer {
        self.buffers@[self.shown()]
    }
}

/// Everything but the panes and the states is as it was.
pub open spec fn same_but_panes(a: Workspace, b: Workspace) -> bool {
    &&& a.pane_ids == b.pane_ids
    &&& a.buffer_ids == b.buffer_ids
    &&& a.buffers == b.buffers
    &&& a.transient == b.transient
    &&& a.jumps == b.jumps
    &&& a.focused == b.focused
}

/// After a buffer was opened under the identifier `b`: it is the last one opened and used.
/// The focused pane keeps a fresh state for it, and goes on showing what it showed.
pub open spec fn opened_as(before: Workspace, after: Workspace, b: u64) -> bool {
    let f = before.focused.0;
    &&& after.buffers.opened() == before.buffers.opened().push(b)
    &&& after.buffers.used() == before.buffers.used().push(b)
    &&& after.buffer_ids@ == before.buffer_ids@.insert(b)
    &&& after.pane_ids == before.pane_ids
    &&& after.panes == before.panes
    &&& after.transient == before.transient
    &&& after.jumps == before.jumps
    &&& after.focused == before.focused
    &&& after.state@.dom() == before.state@.dom()
    &&& after.state@[f]@.contains_key(b)
    &&& after.state@[f]@[b].fresh(after.buffers@[b].tree().initial)
    &&& after.state@[f]@ == before.state@[f]@.insert(b, after.state@[f]@[b])
    &&& forall|p: u64| p != f ==> #[trigger] after.state@[p] == before.state@[p]
}

/// After the buffer `b` was replaced by `doc` in its place: no pane remembers anything of
/// what it was, and those that show it start afresh.
pub open spec fn replaced_by(before: Workspace, after: Workspace, b: u64, doc: Buffer) -> bool {
    &&& after.pane_ids == before.pane_ids
    &&& after.buffer_ids == before.buffer_ids
    &&& after.transient == before.transient
    &&& after.focused == before.focused
    &&& after.buffers@ == before.buffers@.insert(b, doc)
    &&& after.buffers.opened() == before.buffers.opened()
    &&& after.buffers.used() == before.buffers.used()
    &&& after.panes@.dom() == before.panes@.dom()
    &&& forall|p: u64| #[trigger]
        before.panes@.contains_key(p) ==> {
            &&& after.panes@[p]@ == before.panes@[p]@.forgetting(b)
            &&& after.jumps@[p]@ == before.jumps@[p]@.pruned(b)
            &&& before.panes@[p].buffer_id.0 != b ==> after.state@[p]@ == before.state@[p]@
            &&& before.panes@[p].buffer_id.0 == b ==> {
                &&& after.state@[p]@ == before.state@[p]@.insert(b, after.state@[p]@[b])
                &&& after.state@[p]@[b].fresh(doc.tree().initial)
            }
        }
}

/// The same buffers, of which `b` is now the one used last.
pub open spec fn used_now(before: BufferStore, after: BufferStore, b: u64) -> bool {
    &&& after@ == before@
    &&& after.opened() == before.opened()
    &&& after.used() == without(before.used(), b).push(b)
}

/// After the pane `p` was turned to the buffer `b`: it is scrolled as it was left there, has
/// a fresh state where it has never shown `b`, and `b` is the buffer used last.
pub open spec fn turned(before: Workspace, after: Workspace, p: u64, b: u64) -> bool {
    &&& used_now(before.buffers, after.buffers, b)
    &&& after.pane_ids == before.pane_ids
    &&& after.buffer_ids == before.buffer_ids
    &&& after.transient == before.transient
    &&& after.focused == before.focused
    &&& after.panes@.dom() == before.panes@.dom()
    &&& after.state@.dom() == before.state@.dom()
    &&& after.panes@[p]@ == before.panes@[p]@.turned_to(b)
    &&& seeded(before.state@[p]@, after.state@[p]@, b, before.buffers@[b].tree().initial)
    &&& forall|q: u64| q != p ==> #[trigger] after.panes@[q] == before.panes@[q]
    &&& forall|q: u64| q != p ==> #[trigger] after.state@[q] == before.state@[q]
}

/// After the place of the focused pane was kept in its jump list.
pub open spec fn place_kept(before: Workspace, after: Workspace) -> bool {
    let f = before.focused.0;
    &&& after.jumps@.dom() == before.jumps@.dom()
    &&& after.jumps@[f]@ == before.jumps@[f]@.pushed((before.here().selections@, before.shown()))
    &&& forall|q: u64| q != f ==> #[trigger] after.jumps@[q] == before.jumps@[q]
}

/// After the buffer `b` was closed: the panes that showed it turn to the one used last of
/// the others, and no pane remembers anything of it. The only buffer is emptied instead.
pub open spec fn closed(before: Workspace, after: Workspace, b: u64) -> bool {
    match last_other(before.buffers.used(), b) {
        Some(next) => {
            &&& after.focused == before.focused
            &&& after.pane_ids == before.pane_ids
            &&& after.transient == before.transient
            &&& after.panes@.dom() == before.panes@.dom()
            &&& after.buffers@ == before.buffers@.remove(b)
            &&& after.buffers.opened() == without(before.buffers.opened(), b)
            &&& after.buffers.used() == without(before.buffers.used(), b)
            &&& before.shown() == b ==> after.shown() == next
            &&& forall|p: u64| #[trigger]
                before.panes@.contains_key(p) ==> {
                    let shows = before.panes@[p].buffer_id.0;
                    &&& after.panes@[p]@ == (if shows == b {
                        before.panes@[p]@.turned_to(next)
                    } else {
                        before.panes@[p]@
                    }).forgetting(b)
                    &&& after.jumps@[p]@ == before.jumps@[p]@.pruned(b)
                    &&& shows != b ==> after.state@[p]@ == before.state@[p]@.remove(b)
                    &&& shows == b ==> seeded(
                        before.state@[p]@.remove(b),
                        after.state@[p]@,
                        next,
                        before.buffers@[next].tree().initial,
                    )
                }
        },
        None => {
            &&& after.buffers@[b].is_scratch()
            &&& replaced_by(before, after, b, after.buffers@[b])
        },
    }
}

/// `new` is `old_states` with a fresh state for buffer `b`, unless there was one.
pub open spec fn seeded(
    old_states: Map<u64, PaneBufferState>,
    new: Map<u64, PaneBufferState>,
    b: u64,
    initial: Sels,
) -> bool {
    if old_states.contains_key(b) {
        new == old_states
    } else {
        &&& new.contains_key(b)
        &&& new[b].fresh(initial)
        &&& new == old_states.insert(b, new[b])
    }
}

impl Workspace {
    /// A workspace with one pane that shows `doc`.
    pub fn new(doc: Buffer, width: u16, height: u16, jump_capacity: usize) -> (r: Workspace)
        ensures
            r.wf(),
            r.document() == doc,
            r.here().fresh(doc.tree().initial),
            r.panes@.dom() == set![r.focused.0],
            r.buffers@.dom() == set![r.shown()],
            r.panes@[r.focused.0]@.viewport == (Viewport {
                scroll: crate::pane_state::no_scroll(),
                width,
                height,
            }),
            r.jumps@[r.focused.0]@ == (Jumps {
                entries: Seq::empty(),
                cursor: 0,
                capacity: jump_capacity as nat,
            }),
            r.transient@[r.focused.0].pre_search_sels is None,
            r.transient@[r.focused.0].pre_select_sels is None,
            !r.transient@[r.focused.0].search_extend,
            r.panes@[r.focused.0].saved@ == Map::<u64, Scroll>::empty(),
    {
        let mut pane_ids = IdPool::new();
        let mut buffer_ids = IdPool::new();
        let p = pane_ids.insert();
        let b = buffer_ids.insert();
        let seed = fresh_from_buf(&doc);
        let mut buffers = BufferStore::new();
        buffers.open(BufferId(b), doc);
        let mut states: SlotTable<PaneBufferState> = SlotTable::new();
        states.insert(b, seed);
        let mut state: SlotTable<SlotTable<PaneBufferState>> = SlotTable::new();
        state.insert(p, states);
        let mut transient: SlotTable<PaneTransient> = SlotTable::new();
        transient.insert(p, PaneTransient::default());
        let mut jumps: SlotTable<JumpList> = SlotTable::new();
        jumps.insert(p, JumpList::new(jump_capacity));
        let mut panes: SlotTable<Pane> = SlotTable::new();
        let viewport = Viewport {
            scroll: Scroll { top_line: 0, top_row_offset: 0, horizontal_offset: 0 },
            width,
            height,
        };
        panes.insert(p, Pane { buffer_id: BufferId(b), viewport, saved: SlotTable::new() });
        let r = Workspace {
            pane_ids,
            buffer_ids,
            panes,
            buffers,
            state,
            transient,
            jumps,
            focused: PaneId(p),
        };
        proof {
            assert(r.panes@.dom() =~= set![p]);
            assert(r.buffers@.dom() =~= set![b]);
            assert(r.state@.dom() =~= set![p]);
            assert(r.transient@.dom() =~= set![p]);
            assert(r.jumps@.dom() =~= set![p]);
            assert(r.pane_ids@ =~= set![p]);
            assert(r.buffer_ids@ =~= set![b]);
        }
        r
    }

    /// The buffer that the focused pane shows.
    pub fn focused_buffer_id(&self) -> (r: BufferId)
        requires
            self.wf(),
        ensures
            r.0 == self.shown(),
            valid_id(r.0),
            valid_id(self.focused.0),
    {
        self.pane_ids.check_ids();
        self.buffers.check_orders();
        assert(self.pane_ids@.contains(self.focused.0));
        self.panes.get(self.focused.0).unwrap().buffer_id
    }

    /// The buffer that the focused pane shows, itself.
    pub fn doc(&self) -> (r: &Buffer)
        requires
            self.wf(),
        ensures
            *r == self.document(),
    {
        let b = self.focused_buffer_id();
        self.buffers.get(b)
    }

    /// What the focused pane keeps of the buffer it shows.
    pub fn pane_state(&self) -> (r: &PaneBufferState)
        requires
            self.wf(),
        ensures
            *r == self.here(),
    {
        let b = self.focused_buffer_id();
        self.state.get(self.focused.0).unwrap().get(b.0).unwrap()
    }

    /// The selections of the focused pane.
    pub fn current_selections(&self) -> (r: &SelectionSet)
        requires
            self.wf(),
        ensures
            r@ == self.here().selections@,
    {
        &self.pane_state().selections
    }

    /// Exchanges what the focused pane keeps of its buffer and `s`.
    pub fn swap_here(&mut self, s: &mut PaneBufferState)
        requires
            old(self).wf(),
        ensures
            final(self).wf(),
            *final(s) == old(self).here(),
            final(self).here() == *old(s),
            final(self).panes == old(self).panes,
            same_but_panes(*final(self), *old(self)),
            final(self).state@.dom() == old(self).state@.dom(),
            final(self).state@[old(self).focused.0]@ == old(
                self,
            ).state@[old(self).focused.0]@.insert(old(self).shown(), *old(s)),
            forall|p: u64|
                p != old(self).focused.0 ==> #[trigger] final(self).state@[p] == old(
                    self,
                ).state@[p],
    {
        let b = self.focused_buffer_id();
        let p = self.focused.0;
        let ghost o = *self;
        let mut states: SlotTable<PaneBufferState> = SlotTable::new();
        self.state.swap(p, &mut states);
        states.swap(b.0, s);
        self.state.swap(p, &mut states);
        proof {
            assert(self.state@.dom() =~= o.state@.dom());
            assert(self.state@[p]@.dom() =~= o.state@[p]@.dom());
            assert forall|q: u64| #[trigger] self.panes@.contains_key(q) implies self.pane_ok(
                q,
            ) by {
                assert(o.pane_ok(q));
            }
        }
    }

    /// Selects `sels` in the focused pane.
    pub fn set_current_selections(&mut self, sels: SelectionSet)
        requires
            old(self).wf(),
        ensures
            final(self).wf(),
            final(self).here() == (PaneBufferState { selections: sels, ..old(self).here() }),
            final(self).panes == old(self).panes,
            same_but_panes(*final(self), *old(self)),
            forall|p: u64|
                p != old(self).focused.0 ==> #[trigger] final(self).state@[p] == old(
                    self,
                ).state@[p],
            final(self).state@.dom() == old(self).state@.dom(),
            final(self).state@[old(self).focused.0]@ == old(
                self,
            ).state@[old(self).focused.0]@.insert(old(self).shown(), final(self).here()),
    {
        let mut s = PaneBufferState::default();
        self.swap_here(&mut s);
        s.selections = sels;
        let ghost mid = self.state@[self.focused.0]@;
        self.swap_here(&mut s);
        proof {
            let f = old(self).focused.0;
            let o = old(self).state@[f]@;
            let k = old(self).shown();
            assert(self.state@[f]@ =~= o.insert(k, self.here()));
        }
    }

    /// Exchanges the buffer that the focused pane shows and `b`.
    pub fn swap_doc(&mut self, b: &mut Buffer)
        requires
            old(self).wf(),
        ensures
            final(self).wf(),
            *final(b) == old(self).document(),
            final(self).document() == *old(b),
            final(self).buffers@ == old(self).buffers@.insert(old(self).shown(), *old(b)),
            final(self).buffers.opened() == old(self).buffers.opened(),
            final(self).buffers.used() == old(self).buffers.used(),
            final(self).pane_ids == old(self).pane_ids,
            final(self).buffer_ids == old(self).buffer_ids,
            final(self).panes == old(self).panes,
            final(self).state == old(self).state,
            final(self).transient == old(self).transient,
            final(self).jumps == old(self).jumps,
            final(self).focused == old(self).focused,
    {
        let id = self.focused_buffer_id();
        let ghost o = *self;
        self.buffers.swap(id, b);
        proof {
            assert(self.buffers@.dom() =~= o.buffers@.dom());
            assert forall|q: u64| #[trigger] self.panes@.contains_key(q) implies self.pane_ok(
                q,
            ) by {
                assert(o.pane_ok(q));
            }
        }
    }

    /// Opens `doc` under a new identifier. The focused pane gets a state for it, but goes
    /// on showing what it shows.
    pub fn open_buffer(&mut self, doc: Buffer) -> (r: BufferId)
        requires
            old(self).wf(),
            old(self).buffer_ids@.len() < 0xffff_fffe,
        ensures
            final(self).wf(),
            valid_id(r.0),
            !old(self).buffers@.contains_key(r.0),
            final(self).buffers@ == old(self).buffers@.insert(r.0, doc),
            opened_as(*old(self), *final(self), r.0),
    {
        let ghost o = *self;
        self.pane_ids.check_ids();
        self.buffer_ids.check_ids();
        let p = self.focused.0;
        assert(self.pane_ids@.contains(p));
        let b = self.buffer_ids.insert();
        let seed = fresh_from_buf(&doc);
        proof {
            assert forall|k: u64| o.buffers@.contains_key(k) implies #[trigger] slot_number(k)
                != slot_number(b) by {
                assert(o.buffer_ids@.contains(k));
            }
        }
        self.buffers.open(BufferId(b), doc);
        let mut states: SlotTable<PaneBufferState> = SlotTable::new();
        self.state.swap(p, &mut states);
        proof {
            assert(o.pane_ok(p));
            assert forall|k: u64| states@.contains_key(k) && k != b implies #[trigger] slot_number(
                k,
            ) != slot_number(b) by {
                assert(o.state@[p]@.dom().contains(k));
                assert(o.buffers@.dom().contains(k));
            }
        }
        states.insert(b, seed);
        self.state.swap(p, &mut states);
        proof {
            assert(self.buffers@.dom() =~= o.buffers@.dom().insert(b));
            assert(self.state@.dom() =~= o.state@.dom());
            assert forall|q: u64| #[trigger] self.panes@.contains_key(q) implies self.pane_ok(
                q,
            ) by {
                assert(o.pane_ok(q));
            }
        }
        BufferId(b)
    }

    /// Finds the open buffer of a file, or opens one from what was read of it. `read` is
    /// the file's content and what is known of it, or why it could not be read; it is only
    /// looked at where no buffer is open. The flag tells whether a buffer was opened.
    pub fn open_or_dedup(
        &mut self,
        canonical: &str,
        read: Result<(String, FileMeta), String>,
    ) -> (r: Result<(BufferId, bool), String>)
        requires
            old(self).wf(),
            old(self).buffer_ids@.len() < 0xffff_fffe,
            read matches Ok(f) ==> f.1.resolved_path.base() is Some,
        ensures
            final(self).wf(),
            ({
                let found = exists|k: u64|
                    #![trigger old(self).buffers@.contains_key(k)]
                    old(self).buffers@.contains_key(k) && old(self).buffers@[k].path is Some
                        && old(self).buffers@[k].path->0@ == canonical@;
                match r {
                    Ok((id, true)) => {
                        &&& !found
                        &&& read is Ok
                        &&& !old(self).buffers@.contains_key(id.0)
                        &&& final(self).buffers@ == old(self).buffers@.insert(
                            id.0,
                            final(self).buffers@[id.0],
                        )
                        &&& final(self).buffers@[id.0].is_of_file(read->Ok_0.0@, read->Ok_0.1)
                        &&& opened_as(*old(self), *final(self), id.0)
                    },
                    Ok((id, false)) => {
                        &&& found
                        &&& *final(self) == *old(self)
                        &&& old(self).buffers@.contains_key(id.0)
                        &&& old(self).buffers@[id.0].path is Some
                        &&& old(self).buffers@[id.0].path->0@ == canonical@
                        &&& first_at(
                            old(self).buffers.opened(),
                            old(self).buffers@,
                            canonical@,
                            id.0,
                        )
                    },
                    Err(e) => !found && read == Err::<(String, FileMeta), String>(e)
                        && *final(self) == *old(self),
                }
            }),
    {
        if let Some(existing) = self.buffers.find_by_path(canonical) {
            return Ok((existing, false));
        }
        match read {
            Ok((content, meta)) => {
                let doc = Buffer::from_file(content.as_str(), meta);
                let id = self.open_buffer(doc);
                Ok((id, true))
            },
            Err(e) => Err(e),
        }
    }

    /// Turns the pane `pid` to `target`. It is scrolled as it was left there, and gets a
    /// fresh state where it has never shown `target`.
    fn redirect_pane(&mut self, pid: PaneId, target: BufferId)
        requires
            old(self).wf(),
            old(self).panes@.contains_key(pid.0),
            old(self).buffers@.contains_key(target.0),
        ensures
            final(self).wf(),
            same_but_panes(*final(self), *old(self)),
            final(self).panes@.dom() == old(self).panes@.dom(),
            final(self).state@.dom() == old(self).state@.dom(),
            final(self).panes@[pid.0]@ == old(self).panes@[pid.0]@.turned_to(target.0),
            seeded(
                old(self).state@[pid.0]@,
                final(self).state@[pid.0]@,
                target.0,
                old(self).buffers@[target.0].tree().initial,
            ),
            forall|p: u64|
                p != pid.0 ==> #[trigger] final(self).panes@[p] == old(self).panes@[p],
            forall|p: u64|
                p != pid.0 ==> #[trigger] final(self).state@[p] == old(self).state@[p],
    {
        let ghost o = *self;
        self.pane_ids.check_ids();
        self.buffers.check_orders();
        assert(self.pane_ids@.contains(pid.0));
        assert(o.pane_ok(pid.0));
        let mut pane = Pane {
            buffer_id: target,
            viewport: Viewport {
                scroll: Scroll { top_line: 0, top_row_offset: 0, horizontal_offset: 0 },
                width: 0,
                height: 0,
            },
            saved: SlotTable::new(),
        };
        self.panes.swap(pid.0, &mut pane);
        proof {
            let b = pane.buffer_id.0;
            assert forall|k: u64| pane.saved@.contains_key(k) && k != b implies #[trigger] slot_number(
                k,
            ) != slot_number(b) by {
                assert(o.panes@[pid.0].saved@.dom().contains(k));
                assert(o.buffers@.dom().contains(k) && o.buffers@.dom().contains(b));
            }
        }
        pane.turn_to(target);
        let ghost turned = pane@;
        self.panes.swap(pid.0, &mut pane);
        let mut states: SlotTable<PaneBufferState> = SlotTable::new();
        self.state.swap(pid.0, &mut states);
        if !states.contains(target.0) {
            let seed = fresh_from_buf(self.buffers.get(target));
            proof {
                assert forall|k: u64| states@.contains_key(k) && k
                    != target.0 implies #[trigger] slot_number(k) != slot_number(target.0) by {
                    assert(o.state@[pid.0]@.dom().contains(k));
                    assert(o.buffers@.dom().contains(k) && o.buffers@.dom().contains(target.0));
                }
            }
            states.insert(target.0, seed);
        }
        self.state.swap(pid.0, &mut states);
        proof {
            assert(self.state@.dom() =~= o.state@.dom());
            assert(self.panes@.dom() =~= o.panes@.dom());
            assert(self.panes@[pid.0]@ == turned);
            assert forall|q: u64| #[trigger] self.panes@.contains_key(q) implies self.pane_ok(
                q,
            ) by {
                assert(o.pane_ok(q));
                if q == pid.0 {
                    assert(self.panes@[q].saved@ == turned.saved);
                }
            }
        }
    }

    /// Turns the pane `pid` to `target`, which is then the buffer used last; see [`turned`].
    pub fn switch_pane_to_buffer(&mut self, pid: PaneId, target: BufferId)
        requires
            old(self).wf(),
            old(self).panes@.contains_key(pid.0),
            old(self).buffers@.contains_key(target.0),
        ensures
            final(self).wf(),
            turned(*old(self), *final(self), pid.0, target.0),
            final(self).jumps == old(self).jumps,
    {
        self.redirect_pane(pid, target);
        let ghost mid = *self;
        self.buffers.touch_mru(target);
        proof {
            assert forall|q: u64| #[trigger] self.panes@.contains_key(q) implies self.pane_ok(
                q,
            ) by {
                assert(mid.pane_ok(q));
            }
        }
    }

    /// The place where the focused pane is.
    pub fn current_jump_entry(&self) -> (r: JumpEntry)
        requires
            self.wf(),
        ensures
            r@ == (self.here().selections@, self.shown()),
    {
        let b = self.focused_buffer_id();
        JumpEntry { selections: self.current_selections().clone(), buffer: b }
    }

    /// Keeps `entry` in the jump list of the focused pane.
    pub fn push_jump(&mut self, entry: JumpEntry)
        requires
            old(self).wf(),
        ensures
            final(self).wf(),
            final(self).jumps@.dom() == old(self).jumps@.dom(),
            final(self).jumps@[old(self).focused.0]@ == old(
                self,
            ).jumps@[old(self).focused.0]@.pushed(entry@),
            forall|p: u64|
                p != old(self).focused.0 ==> #[trigger] final(self).jumps@[p] == old(
                    self,
                ).jumps@[p],
            final(self).pane_ids == old(self).pane_ids,
            final(self).buffer_ids == old(self).buffer_ids,
            final(self).panes == old(self).panes,
            final(self).buffers == old(self).buffers,
            final(self).state == old(self).state,
            final(self).transient == old(self).transient,
            final(self).focused == old(self).focused,
    {
        let ghost o = *self;
        let _ = self.focused_buffer_id();
        let p = self.focused.0;
        let mut list = JumpList::new(0);
        self.jumps.swap(p, &mut list);
        list.push(entry);
        self.jumps.swap(p, &mut list);
        proof {
            assert(self.jumps@.dom() =~= o.jumps@.dom());
            assert forall|q: u64| #[trigger] self.panes@.contains_key(q) implies self.pane_ok(
                q,
            ) by {
                assert(o.pane_ok(q));
            }
        }
    }

    /// Turns the focused pane to `target` and keeps the place it came from in its jump
    /// list.
    pub fn switch_to_buffer_with_jump(&mut self, target: BufferId)
        requires
            old(self).wf(),
            old(self).buffers@.contains_key(target.0),
        ensures
            final(self).wf(),
            turned(*old(self), *final(self), old(self).focused.0, target.0),
            place_kept(*old(self), *final(self)),
    {
        let entry = self.current_jump_entry();
        self.push_jump(entry);
        self.switch_pane_to_buffer(self.focused, target);
    }

    /// Forgets everything that panes keep of buffer `id`.
    fn forget_buffer_in_all_panes(&mut self, id: BufferId, states_too: bool)
        requires
            valid_id(id.0),
            forall|p: u64| #[trigger] old(self).panes@.contains_key(p) ==> valid_id(p),
            old(self).state@.dom() == old(self).panes@.dom(),
            old(self).jumps@.dom() == old(self).panes@.dom(),
        ensures
            final(self).pane_ids == old(self).pane_ids,
            final(self).buffer_ids == old(self).buffer_ids,
            final(self).buffers == old(self).buffers,
            final(self).transient == old(self).transient,
            final(self).focused == old(self).focused,
            final(self).panes@.dom() == old(self).panes@.dom(),
            final(self).state@.dom() == old(self).state@.dom(),
            final(self).jumps@.dom() == old(self).jumps@.dom(),
            forall|p: u64| #[trigger]
                old(self).panes@.contains_key(p) ==> {
                    &&& final(self).panes@[p]@ == old(self).panes@[p]@.forgetting(id.0)
                    &&& final(self).state@[p]@ == (if states_too {
                        old(self).state@[p]@.remove(id.0)
                    } else {
                        old(self).state@[p]@
                    })
                    &&& final(self).jumps@[p]@ == old(self).jumps@[p]@.pruned(id.0)
                },
    {
        let ghost o = *self;
        let ids = self.panes.ids();
        let n = ids.len();
        let mut i: usize = 0;
        while i < n
            invariant
                i <= n == ids@.len(),
                valid_id(id.0),
                ids@.no_duplicates(),
                forall|k: u64| ids@.contains(k) <==> #[trigger] o.panes@.contains_key(k),
                forall|p: u64| #[trigger] o.panes@.contains_key(p) ==> valid_id(p),
                o.state@.dom() == o.panes@.dom(),
                o.jumps@.dom() == o.panes@.dom(),
                self.pane_ids == o.pane_ids,
                self.buffer_ids == o.buffer_ids,
                self.buffers == o.buffers,
                self.transient == o.transient,
                self.focused == o.focused,
                self.panes@.dom() == o.panes@.dom(),
                self.state@.dom() == o.state@.dom(),
                self.jumps@.dom() == o.jumps@.dom(),
                forall|p: u64| #[trigger]
                    o.panes@.contains_key(p) ==> {
                        if ids@.take(i as int).contains(p) {
                            &&& self.panes@[p]@ == o.panes@[p]@.forgetting(id.0)
                            &&& self.state@[p]@ == (if states_too {
                                o.state@[p]@.remove(id.0)
                            } else {
                                o.state@[p]@
                            })
                            &&& self.jumps@[p]@ == o.jumps@[p]@.pruned(id.0)
                        } else {
                            &&& self.panes@[p] == o.panes@[p]
                            &&& self.state@[p] == o.state@[p]
                            &&& self.jumps@[p] == o.jumps@[p]
                        }
                    },
            decreases n - i,
        {
            let p = ids[i];
            assert(ids@.contains(p));
            assert(o.panes@.contains_key(p));
            assert(!ids@.take(i as int).contains(p));
            let ghost before = *self;
            let mut pane = Pane {
                buffer_id: id,
                viewport: Viewport {
                    scroll: Scroll { top_line: 0, top_row_offset: 0, horizontal_offset: 0 },
                    width: 0,
                    height: 0,
                },
                saved: SlotTable::new(),
            };
            self.panes.swap(p, &mut pane);
            pane.forget_buffer(id);
            self.panes.swap(p, &mut pane);
            if states_too {
                let mut states: SlotTable<PaneBufferState> = SlotTable::new();
                self.state.swap(p, &mut states);
                let _ = states.remove(id.0);
                self.state.swap(p, &mut states);
            }
            let mut list = JumpList::new(0);
            self.jumps.swap(p, &mut list);
            list.prune_buffer(id);
            self.jumps.swap(p, &mut list);
            proof {
                assert(self.panes@.dom() =~= o.panes@.dom());
                assert(self.state@.dom() =~= o.state@.dom());
                assert(self.jumps@.dom() =~= o.jumps@.dom());
                assert forall|q: u64|
                    ids@.take(i + 1).contains(q) <==> ids@.take(i as int).contains(q) || q == p by {
                    lemma_take_contains(ids@, i as int, q);
                }
            }
            i = i + 1;
        }
        proof {
            assert(ids@.take(n as int) =~= ids@);
        }
    }

    /// Shows `new_doc` in the place of buffer `id`: the panes that show it get fresh
    /// states, and nothing remembers the old text.
    pub fn replace_buffer_in_place(&mut self, id: BufferId, new_doc: Buffer)
        requires
            old(self).wf(),
            old(self).buffers@.contains_key(id.0),
            new_doc.search_pattern is None,
        ensures
            final(self).wf(),
            replaced_by(*old(self), *final(self), id.0, new_doc),
    {
        let ghost o = *self;
        self.pane_ids.check_ids();
        self.buffers.check_orders();
        let ghost initial = new_doc.tree().initial;
        let mut doc = new_doc;
        self.buffers.swap(id, &mut doc);
        assert(self.buffers@.dom() =~= o.buffers@.dom());
        let ids = self.panes.ids();
        let n = ids.len();
        let mut i: usize = 0;
        while i < n
            invariant
                i <= n == ids@.len(),
                o.wf(),
                valid_id(id.0),
                ids@.no_duplicates(),
                forall|k: u64| ids@.contains(k) <==> #[trigger] o.panes@.contains_key(k),
                forall|p: u64| #[trigger] o.panes@.contains_key(p) ==> valid_id(p),
                slots_apart(o.buffers@.dom()),
                o.buffers@.contains_key(id.0),
                self.pane_ids == o.pane_ids,
                self.buffer_ids == o.buffer_ids,
                self.buffers@ == o.buffers@.insert(id.0, new_doc),
                self.buffers.opened() == o.buffers.opened(),
                self.buffers.used() == o.buffers.used(),
                self.transient == o.transient,
                self.focused == o.focused,
                self.panes == o.panes,
                self.jumps == o.jumps,
                self.state@.dom() == o.state@.dom(),
                initial == new_doc.tree().initial,
                forall|p: u64| #[trigger]
                    o.panes@.contains_key(p) ==> {
                        if ids@.take(i as int).contains(p) && o.panes@[p].buffer_id.0 == id.0 {
                            &&& self.state@[p]@ == o.state@[p]@.insert(
                                id.0,
                                self.state@[p]@[id.0],
                            )
                            &&& self.state@[p]@[id.0].fresh(initial)
                        } else {
                            self.state@[p] == o.state@[p]
                        }
                    },
            decreases n - i,
        {
            let p = ids[i];
            assert(ids@.contains(p));
            assert(o.panes@.contains_key(p));
            assert(o.pane_ok(p));
            let shows = self.panes.get(p).unwrap().buffer_id;
            if shows.0 == id.0 {
                let seed = fresh_from_buf(self.buffers.get(id));
                let mut states: SlotTable<PaneBufferState> = SlotTable::new();
                assert(!ids@.take(i as int).contains(p));
                self.state.swap(p, &mut states);
                proof {
                    assert forall|k: u64| states@.contains_key(k) && k
                        != id.0 implies #[trigger] slot_number(k) != slot_number(id.0) by {
                        assert(o.state@[p]@.dom().contains(k));
                        assert(o.buffers@.dom().contains(k) && o.buffers@.dom().contains(id.0));
                    }
                }
                states.insert(id.0, seed);
                self.state.swap(p, &mut states);
            }
            proof {
                assert(self.state@.dom() =~= o.state@.dom());
                assert forall|q: u64|
                    ids@.take(i + 1).contains(q) <==> ids@.take(i as int).contains(q) || q == p by {
                    lemma_take_contains(ids@, i as int, q);
                }
            }
            i = i + 1;
        }
        assert(ids@.take(n as int) =~= ids@);
        let ghost mid = *self;
        self.forget_buffer_in_all_panes(id, false);
        proof {
            assert(self.buffers@.dom() =~= o.buffers@.dom());
            assert forall|q: u64| #[trigger] self.panes@.contains_key(q) implies self.pane_ok(
                q,
            ) by {
                assert(o.panes@.contains_key(q));
                assert(o.pane_ok(q));
                assert(self.panes@[q]@ == o.panes@[q]@.forgetting(id.0));
                assert(self.state@[q]@ == mid.state@[q]@);
            }
        }
    }

    /// Closes buffer `id`. The panes that show it turn to the most recently used other
    /// buffer; where there is none, an empty buffer takes its place. Gives the buffer
    /// that the focused pane shows then.
    pub fn close_buffer(&mut self, id: BufferId) -> (r: BufferId)
        requires
            old(self).wf(),
            old(self).buffers@.contains_key(id.0),
        ensures
            final(self).wf(),
            r.0 == final(self).shown(),
            closed(*old(self), *final(self), id.0),
    {
        let ghost o = *self;
        self.pane_ids.check_ids();
        self.buffers.check_orders();
        proof {
            lemma_last_other(o.buffers.used(), id.0);
        }
        match self.buffers.mru_excluding(id) {
            Some(next) => {
                assert(o.buffers.used().contains(next.0));
                assert(o.buffers@.contains_key(next.0));
                let ids = self.panes.ids();
                let n = ids.len();
                let mut i: usize = 0;
                while i < n
                    invariant
                        i <= n == ids@.len(),
                        o.wf(),
                        self.wf(),
                        ids@.no_duplicates(),
                        forall|k: u64| ids@.contains(k) <==> #[trigger] o.panes@.contains_key(k),
                        forall|p: u64| #[trigger] o.panes@.contains_key(p) ==> valid_id(p),
                        o.buffers@.contains_key(next.0),
                        next.0 != id.0,
                        same_but_panes(*self, o),
                        self.panes@.dom() == o.panes@.dom(),
                        self.state@.dom() == o.state@.dom(),
                        forall|p: u64| #[trigger]
                            o.panes@.contains_key(p) ==> {
                                if ids@.take(i as int).contains(p) && o.panes@[p].buffer_id.0
                                    == id.0 {
                                    &&& self.panes@[p]@ == o.panes@[p]@.turned_to(next.0)
                                    &&& seeded(
                                        o.state@[p]@,
                                        self.state@[p]@,
                                        next.0,
                                        o.buffers@[next.0].tree().initial,
                                    )
                                } else {
                                    &&& self.panes@[p] == o.panes@[p]
                                    &&& self.state@[p] == o.state@[p]
                                }
                            },
                    decreases n - i,
                {
                    let p = ids[i];
                    assert(ids@.contains(p));
                    assert(o.panes@.contains_key(p));
                    assert(!ids@.take(i as int).contains(p));
                    let shows = self.panes.get(p).unwrap().buffer_id;
                    if shows.0 == id.0 {
                        self.redirect_pane(PaneId(p), next);
                    }
                    proof {
                        assert forall|q: u64|
                            ids@.take(i + 1).contains(q) <==> ids@.take(i as int).contains(q) || q
                                == p by {
                            lemma_take_contains(ids@, i as int, q);
                        }
                    }
                    i = i + 1;
                }
                assert(ids@.take(n as int) =~= ids@);
                let ghost mid = *self;
                let _ = self.buffers.close(id);
                self.buffer_ids.check_ids();
                assert(self.buffer_ids@.contains(id.0));
                self.buffer_ids.remove(id.0);
                self.forget_buffer_in_all_panes(id, true);
                proof {
                    assert(self.buffers@.dom() =~= o.buffers@.dom().remove(id.0));
                    assert(self.transient@.dom() == self.panes@.dom());
                    assert forall|q: u64| #[trigger] self.panes@.contains_key(
                        q,
                    ) implies self.pane_ok(q) by {
                        assert(o.panes@.contains_key(q));
                        assert(mid.panes@.contains_key(q));
                        assert(o.pane_ok(q));
                        assert(mid.pane_ok(q));
                        assert(self.panes@[q]@ == mid.panes@[q]@.forgetting(id.0));
                    }
                    assert forall|p: u64| #[trigger] o.panes@.contains_key(p) && o.panes@[p].buffer_id.0
                        == id.0 implies seeded(
                        o.state@[p]@.remove(id.0),
                        self.state@[p]@,
                        next.0,
                        o.buffers@[next.0].tree().initial,
                    ) by {
                        assert(mid.panes@.contains_key(p));
                        let s0 = o.state@[p]@;
                        let s1 = mid.state@[p]@;
                        assert(self.state@[p]@ == s1.remove(id.0));
                        if !s0.contains_key(next.0) {
                            assert(s0.insert(next.0, s1[next.0]).remove(id.0) =~= s0.remove(
                                id.0,
                            ).insert(next.0, s1[next.0]));
                        }
                    }
                }
                self.focused_buffer_id()
            },
            None => {
                let scratch = Buffer::scratch();
                self.replace_buffer_in_place(id, scratch);
                proof {
                    assert(self.buffers@.dom() =~= o.buffers@.dom());
                    assert(o.buffers.used().contains(o.shown())) by {
                        assert(o.pane_ok(o.focused.0));
                    }
                }
                id
            },
        }
    }
}

proof fn lemma_take_contains(s: Seq<u64>, i: int, q: u64)
    requires
        0 <= i < s.len(),
    ensures
        s.take(i + 1).contains(q) <==> s.take(i).contains(q) || q == s[i],
{
    let a = s.take(i);
    let b = s.take(i + 1);
    if b.contains(q) {
        let j = choose|j: int| 0 <= j < b.len() && b[j] == q;
        if j < i {
            assert(a[j] == q);
        }
    }
    if a.contains(q) {
        let j = choose|j: int| 0 <= j < a.len() && a[j] == q;
        assert(b[j] == q);
    }
    if q == s[i] {
        assert(b[i] == q);
    }
}

/// There is always an open buffer: every pane shows one, and keeps a state for it.
pub proof fn law_every_pane_shows_a_buffer(ws: Workspace, p: u64)
    requires
        ws.wf(),
        ws.panes@.contains_key(p),
    ensures
        ws.buffers@.contains_key(ws.panes@[p].buffer_id.0),
        ws.state@[p]@.contains_key(ws.panes@[p].buffer_id.0),
        ws.buffers@.contains_key(ws.shown()),
{
    assert(ws.pane_ok(p));
    assert(ws.pane_ok(ws.focused.0));
}

/// From the buffer used last, switching to another one and then to the alternate buffer
/// leads back; and from there the alternate buffer is the other one again.
pub proof fn law_alternate_goes_back(used: Seq<u64>, a: u64, b: u64)
    requires
        used.len() > 0,
        used.last() == a,
        a != b,
    ensures
        ({
            let there = without(used, b).push(b);
            &&& last_other(there, b) == Some(a)
            &&& last_other(without(there, a).push(a), a) == Some(b)
        }),
{
    let there = without(used, b).push(b);
    assert(without(used, b) == without(used.drop_last(), b).push(a));
    assert(there.drop_last() =~= without(used, b));
    assert(without(used, b).last() == a);
    assert(last_other(without(used, b), b) == Some(a));
    let back = without(there, a);
    assert(back == without(there.drop_last(), a).push(b));
    assert(back.push(a).drop_last() =~= back);
    assert(last_other(back, a) == Some(b));
}

/// A pane that was turned to another buffer and back stands where it stood, with what was
/// selected there.
pub proof fn law_turning_there_and_back(
    start: Workspace,
    there: Workspace,
    back: Workspace,
    p: u64,
    b: u64,
)
    requires
        start.wf(),
        start.panes@.contains_key(p),
        b != start.panes@[p]@.buffer,
        turned(start, there, p, b),
        turned(there, back, p, start.panes@[p]@.buffer),
    ensures
        there.panes@[p]@.buffer == b,
        back.panes@[p]@.buffer == start.panes@[p]@.buffer,
        back.panes@[p]@.viewport == start.panes@[p]@.viewport,
        back.state@[p]@[start.panes@[p]@.buffer] == start.state@[p]@[start.panes@[p]@.buffer],
        back.buffers@ == start.buffers@,
        there.buffers.used().last() == b,
        back.buffers.used().last() == start.panes@[p]@.buffer,
{
    assert(start.pane_ok(p));
    crate::pane_state::law_pane_remembers_its_scroll(start.panes@[p]@, b);
}

/// What a closed buffer leaves: it is in neither order of the buffers, no jump list leads
/// to it and no pane shows it or knows anything of it. The other buffers are as they were.
pub proof fn law_closed_buffer_is_forgotten(
    before: Workspace,
    after: Workspace,
    b: u64,
    p: u64,
    k: u64,
)
    requires
        before.wf(),
        closed(before, after, b),
        before.buffers.used().contains(k) && k != b,
        before.panes@.contains_key(p),
    ensures
        !after.buffers@.contains_key(b),
        !after.buffers.opened().contains(b),
        !after.buffers.used().contains(b),
        after.buffers@.contains_key(k) == before.buffers@.contains_key(k),
        after.buffers@[k] == before.buffers@[k],
        after.panes@[p]@.buffer != b,
        before.panes@[p]@.buffer != b ==> after.panes@[p]@.buffer == before.panes@[p]@.buffer
            && after.panes@[p]@.viewport == before.panes@[p]@.viewport,
        !after.panes@[p]@.saved.contains_key(b),
        !after.state@[p]@.contains_key(b),
        forall|i: int|
            0 <= i < after.jumps@[p]@.entries.len() ==> (#[trigger] after.jumps@[p]@.entries[i]).1
                != b,
{
    lemma_last_other(before.buffers.used(), b);
    let u = before.buffers.used();
    let i = choose|i: int| 0 <= i < u.len() && u[i] == k;
    crate::buffer_store::law_last_other_is_the_last(u, b, i);
    assert(last_other(u, b) is Some);
    crate::buffer_store::lemma_without(before.buffers.opened(), b);
    crate::buffer_store::lemma_without(u, b);
    crate::pane_state::law_pruned_has_no_entry(before.jumps@[p]@, b);
}

/// A buffer that was opened comes last in both orders; no pane shows it yet, and the other
/// buffers' states are as they were.
pub proof fn law_opened_buffer_is_new(before: Workspace, after: Workspace, b: u64, p: u64)
    requires
        opened_as(before, after, b),
    ensures
        after.buffers.opened() == before.buffers.opened() + seq![b],
        after.buffers.used() == before.buffers.used() + seq![b],
        after.panes == before.panes,
        after.focused == before.focused,
        after.state@[after.focused.0]@.contains_key(b),
        forall|k: u64|
            k != b && before.state@[before.focused.0]@.contains_key(k)
                ==> #[trigger] after.state@[before.focused.0]@[k]
                == before.state@[before.focused.0]@[k],
        p != before.focused.0 ==> after.state@[p] == before.state@[p],
{
    assert(after.buffers.opened() =~= before.buffers.opened() + seq![b]);
    assert(after.buffers.used() =~= before.buffers.used() + seq![b]);
}

/// A buffer that is replaced in its place leaves the other buffers, both orders and the panes
/// that show them as they were. The panes that show it start afresh, and no jump leads to what
/// it was.
pub proof fn law_replacing_leaves_the_others(
    before: Workspace,
    after: Workspace,
    b: u64,
    doc: Buffer,
    k: u64,
    p: u64,
)
    requires
        replaced_by(before, after, b, doc),
        k != b,
        before.panes@.contains_key(p),
    ensures
        after.buffers@[b] == doc,
        after.buffers@.contains_key(k) == before.buffers@.contains_key(k),
        before.buffers@.contains_key(k) ==> after.buffers@[k] == before.buffers@[k],
        after.buffers.opened() == before.buffers.opened(),
        after.buffers.used() == before.buffers.used(),
        after.panes@[p]@.buffer == before.panes@[p]@.buffer,
        after.panes@[p]@.viewport == before.panes@[p]@.viewport,
        before.panes@[p]@.buffer != b ==> after.state@[p]@ == before.state@[p]@,
        before.panes@[p]@.buffer == b ==> after.state@[p]@[b].selections@ == doc.tree().initial,
        forall|i: int|
            0 <= i < after.jumps@[p]@.entries.len() ==> (#[trigger] after.jumps@[p]@.entries[i]).1
                != b,
{
    crate::pane_state::law_pruned_has_no_entry(before.jumps@[p]@, b);
}

} // verus!

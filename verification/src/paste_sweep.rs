//! Closing the paste sessions of all panes.

use crate::buffer::{same_file, Buffer, EditGroup};
use crate::buffer_store::BufferId;
use crate::changeset::inverted;
use crate::history::Edit;
use crate::ops::Workspace;
use crate::pane_state::PaneBufferState;
use crate::selection::Sels;
use crate::slots::SlotTable;
use vstd::prelude::*;

verus! {

/// The buffer after a group of edits was closed with `sels` selected.
pub open spec fn group_committed(before: Buffer, after: Buffer, group: EditGroup, sels: Sels) -> bool {
    &&& same_file(after, before)
    &&& after.doc() == before.doc()
    &&& after.generation() == before.generation()
    &&& after.settled()
    &&& match group.cs {
        None => after.tree() == before.tree() && after.revision() == before.revision(),
        Some(cs) => {
            &&& after.revision() == before.tree().count()
            &&& after.tree() == before.tree().recorded(
                Edit {
                    parent: before.revision(),
                    forward: cs@,
                    inverse: inverted(cs@, group.text_snapshot@),
                    before: group.pre_sels@,
                    after: sels,
                },
                before.doc(),
            )
        },
    }
}

impl Workspace {
    /// The pane `p` has a paste session open on buffer `b`.
    pub open spec fn pasting(&self, p: u64, b: u64) -> bool {
        self.panes@.contains_key(p) && self.state@[p]@.contains_key(b)
            && self.state@[p]@[b].paste_group is Some
    }

    /// The session of pane `p` on buffer `b` fits the buffer.
    pub open spec fn session_fits(&self, p: u64, b: u64) -> bool {
        self.buffers@[b].group_open(self.state@[p]@[b].paste_group->0)
            && self.buffers@[b].tree().count() < usize::MAX
    }

    /// Every open session fits its buffer, and no buffer has two.
    pub open spec fn sessions_ok(&self) -> bool {
        &&& forall|p: u64, b: u64| #[trigger] self.pasting(p, b) ==> self.session_fits(p, b)
        &&& forall|p: u64, q: u64, b: u64|
            #[trigger] self.pasting(p, b) && #[trigger] self.pasting(q, b) ==> p == q
    }

    /// Only buffers' histories and pane states differ.
    pub open spec fn same_frame(&self, after: Workspace) -> bool {
        &&& after.pane_ids == self.pane_ids
        &&& after.buffer_ids == self.buffer_ids
        &&& after.panes == self.panes
        &&& after.focused == self.focused
        &&& after.transient == self.transient
        &&& after.jumps == self.jumps
        &&& after.buffers.opened() == self.buffers.opened()
        &&& after.buffers.used() == self.buffers.used()
        &&& after.buffers@.dom() == self.buffers@.dom()
        &&& after.state@.dom() == self.state@.dom()
    }

    fn close_session(&mut self, p: u64, b: u64)
        requires
            old(self).wf(),
            old(self).panes@.contains_key(p),
            old(self).state@[p]@.contains_key(b),
            old(self).pasting(p, b) ==> old(self).session_fits(p, b),
        ensures
            final(self).wf(),
            old(self).same_frame(*final(self)),
            forall|q: u64| q != p ==> #[trigger] final(self).state@[q] == old(self).state@[q],
            final(self).state@[p]@ == old(self).state@[p]@.insert(
                b,
                (PaneBufferState { paste_group: None, ..old(self).state@[p]@[b] }),
            ),
            old(self).pasting(p, b) ==> group_committed(
                old(self).buffers@[b],
                final(self).buffers@[b],
                old(self).state@[p]@[b].paste_group->0,
                old(self).state@[p]@[b].selections@,
            ),
            final(self).buffers@ == old(self).buffers@.insert(b, final(self).buffers@[b]),
            !old(self).pasting(p, b) ==> final(self).buffers@ == old(self).buffers@,
    {
        let ghost o = *self;
        self.pane_ids.check_ids();
        self.buffers.check_orders();
        assert(self.pane_ids@.contains(p));
        assert(o.pane_ok(p));
        assert(o.state@[p]@.dom().contains(b));
        assert(o.buffers@.dom().contains(b));
        let mut states: SlotTable<PaneBufferState> = SlotTable::new();
        self.state.swap(p, &mut states);
        let mut s = PaneBufferState::default();
        states.swap(b, &mut s);
        if s.paste_group.is_some() {
            let mut doc = Buffer::scratch();
            self.buffers.swap(BufferId(b), &mut doc);
            let post = s.selections.clone();
            let mut group = s.paste_group.take();
            doc.commit_edit_group(&mut group, post);
            s.paste_group = group;
            self.buffers.swap(BufferId(b), &mut doc);
        }
        states.swap(b, &mut s);
        self.state.swap(p, &mut states);
        proof {
            assert(self.buffers@.dom() =~= o.buffers@.dom());
            assert(self.buffers@ =~= o.buffers@.insert(b, self.buffers@[b]));
            assert(self.state@.dom() =~= o.state@.dom());
            assert(self.state@[p]@ =~= o.state@[p]@.insert(
                b,
                (PaneBufferState { paste_group: None, ..o.state@[p]@[b] }),
            ));
            assert(self.state@[p]@.dom() =~= o.state@[p]@.dom());
            assert forall|q: u64| #[trigger] self.panes@.contains_key(q) implies self.pane_ok(
                q,
            ) by {
                assert(o.pane_ok(q));
            }
        }
    }

    fn close_sessions_of(&mut self, p: u64)
        requires
            old(self).wf(),
            old(self).panes@.contains_key(p),
            forall|b: u64| #[trigger] old(self).pasting(p, b) ==> old(self).session_fits(p, b),
        ensures
            final(self).wf(),
            old(self).same_frame(*final(self)),
            forall|q: u64| q != p ==> #[trigger] final(self).state@[q] == old(self).state@[q],
            final(self).state@[p]@.dom() == old(self).state@[p]@.dom(),
            forall|b: u64| #[trigger]
                old(self).state@[p]@.contains_key(b) ==> final(self).state@[p]@[b] == (
                PaneBufferState { paste_group: None, ..old(self).state@[p]@[b] }),
            forall|b: u64| #[trigger]
                old(self).pasting(p, b) ==> group_committed(
                    old(self).buffers@[b],
                    final(self).buffers@[b],
                    old(self).state@[p]@[b].paste_group->0,
                    old(self).state@[p]@[b].selections@,
                ),
            forall|b: u64|
                !old(self).pasting(p, b) ==> #[trigger] final(self).buffers@[b] == old(
                    self,
                ).buffers@[b],
    {
        let ghost o = *self;
        self.pane_ids.check_ids();
        assert(self.pane_ids@.contains(p));
        let ids = self.state.get(p).unwrap().ids();
        let n = ids.len();
        let mut i: usize = 0;
        while i < n
            invariant
                i <= n == ids@.len(),
                o == *old(self),
                ids@.no_duplicates(),
                forall|k: u64| ids@.contains(k) <==> #[trigger] o.state@[p]@.contains_key(k),
                o.panes@.contains_key(p),
                forall|b: u64| #[trigger] o.pasting(p, b) ==> o.session_fits(p, b),
                self.wf(),
                o.same_frame(*self),
                forall|q: u64| q != p ==> #[trigger] self.state@[q] == o.state@[q],
                self.state@[p]@.dom() == o.state@[p]@.dom(),
                forall|j: int|
                    0 <= j < i ==> self.state@[p]@[#[trigger] ids@[j]] == (PaneBufferState {
                        paste_group: None,
                        ..o.state@[p]@[ids@[j]]
                    }),
                forall|j: int|
                    i <= j < n ==> self.state@[p]@[#[trigger] ids@[j]] == o.state@[p]@[ids@[j]],
                forall|j: int|
                    0 <= j < i ==> (o.pasting(p, #[trigger] ids@[j]) ==> group_committed(
                        o.buffers@[ids@[j]],
                        self.buffers@[ids@[j]],
                        o.state@[p]@[ids@[j]].paste_group->0,
                        o.state@[p]@[ids@[j]].selections@,
                    )),
                forall|j: int|
                    i <= j < n ==> self.buffers@[#[trigger] ids@[j]] == o.buffers@[ids@[j]],
                forall|b: u64|
                    !o.pasting(p, b) ==> #[trigger] self.buffers@[b] == o.buffers@[b],
            decreases n - i,
        {
            let b = ids[i];
            let ghost mid = *self;
            proof {
                assert(ids@.contains(b));
                assert(o.state@[p]@.contains_key(b));
                assert(self.state@[p]@.dom().contains(b));
                assert(mid.state@[p]@[b] == o.state@[p]@[b]);
                assert(mid.buffers@[b] == o.buffers@[b]);
                assert(mid.pasting(p, b) == o.pasting(p, b));
                if o.pasting(p, b) {
                    assert(o.session_fits(p, b));
                }
            }
            self.close_session(p, b);
            i = i + 1;
            proof {
                assert(self.state@[p]@.dom() =~= o.state@[p]@.dom());
                assert forall|j: int| 0 <= j < i implies self.state@[p]@[#[trigger] ids@[j]] == (
                PaneBufferState { paste_group: None, ..o.state@[p]@[ids@[j]] }) by {
                    if j < i - 1 {
                        assert(ids@[j] != ids@[i - 1]);
                    }
                }
                assert forall|j: int| i <= j < n implies self.state@[p]@[#[trigger] ids@[j]]
                    == o.state@[p]@[ids@[j]] by {
                    assert(ids@[j] != ids@[i - 1]);
                }
                assert forall|j: int| i <= j < n implies self.buffers@[#[trigger] ids@[j]]
                    == o.buffers@[ids@[j]] by {
                    assert(ids@[j] != ids@[i - 1]);
                }
                assert forall|j: int|
                    0 <= j < i && o.pasting(p, #[trigger] ids@[j]) implies group_committed(
                    o.buffers@[ids@[j]],
                    self.buffers@[ids@[j]],
                    o.state@[p]@[ids@[j]].paste_group->0,
                    o.state@[p]@[ids@[j]].selections@,
                ) by {
                    if j < i - 1 {
                        assert(ids@[j] != ids@[i - 1]);
                        assert(self.buffers@[ids@[j]] == mid.buffers@[ids@[j]]);
                    }
                }
                assert forall|c: u64| !o.pasting(p, c) implies #[trigger] self.buffers@[c]
                    == o.buffers@[c] by {
                    if c != b {
                        assert(self.buffers@[c] == mid.buffers@[c]);
                    }
                }
            }
        }
        proof {
            assert forall|b: u64| #[trigger] o.state@[p]@.contains_key(b) implies self.state@[p]@[b]
                == (PaneBufferState { paste_group: None, ..o.state@[p]@[b] }) by {
                assert(ids@.contains(b));
                let j = choose|j: int| 0 <= j < ids@.len() && ids@[j] == b;
                assert(ids@[j] == b);
            }
            assert forall|b: u64| #[trigger] o.pasting(p, b) implies group_committed(
                o.buffers@[b],
                self.buffers@[b],
                o.state@[p]@[b].paste_group->0,
                o.state@[p]@[b].selections@,
            ) by {
                assert(o.state@[p]@.contains_key(b));
                assert(ids@.contains(b));
                let j = choose|j: int| 0 <= j < ids@.len() && ids@[j] == b;
                assert(ids@[j] == b);
            }
        }
    }

    /// Closes every open paste session, of all panes and buffers.
    pub fn commit_paste_session(&mut self)
        requires
            old(self).wf(),
            old(self).sessions_ok(),
        ensures
            final(self).wf(),
            old(self).same_frame(*final(self)),
            forall|p: u64, b: u64| !#[trigger] final(self).pasting(p, b),
            forall|p: u64| #[trigger]
                old(self).panes@.contains_key(p) ==> final(self).state@[p]@.dom() == old(
                    self,
                ).state@[p]@.dom(),
            forall|p: u64, b: u64|
                #![trigger final(self).state@[p]@[b]]
                old(self).panes@.contains_key(p) && old(self).state@[p]@.contains_key(b)
                    ==> final(self).state@[p]@[b] == (PaneBufferState {
                    paste_group: None,
                    ..old(self).state@[p]@[b]
                }),
            forall|p: u64, b: u64| #[trigger]
                old(self).pasting(p, b) ==> group_committed(
                    old(self).buffers@[b],
                    final(self).buffers@[b],
                    old(self).state@[p]@[b].paste_group->0,
                    old(self).state@[p]@[b].selections@,
                ),
            forall|b: u64|
                (forall|p: u64| !#[trigger] old(self).pasting(p, b)) ==> #[trigger] final(self).buffers@[b] == old(self).buffers@[b],
    {
        let ghost o = *self;
        let ids = self.panes.ids();
        let n = ids.len();
        let mut i: usize = 0;
        while i < n
            invariant
                i <= n == ids@.len(),
                o == *old(self),
                ids@.no_duplicates(),
                forall|k: u64| ids@.contains(k) <==> #[trigger] o.panes@.contains_key(k),
                o.sessions_ok(),
                self.wf(),
                o.same_frame(*self),
                forall|j: int|
                    0 <= j < n ==> self.state@[#[trigger] ids@[j]]@.dom()
                        == o.state@[ids@[j]]@.dom(),
                forall|j: int|
                    i <= j < n ==> self.state@[#[trigger] ids@[j]] == o.state@[ids@[j]],
                forall|j: int, b: u64|
                    #![trigger self.state@[ids@[j]]@[b]]
                    0 <= j < i && o.state@[ids@[j]]@.contains_key(b) ==> self.state@[ids@[j]]@[b]
                        == (PaneBufferState { paste_group: None, ..o.state@[ids@[j]]@[b] }),
                forall|j: int, b: u64|
                    0 <= j < i && #[trigger] o.pasting(ids@[j], b) ==> group_committed(
                        o.buffers@[b],
                        self.buffers@[b],
                        o.state@[ids@[j]]@[b].paste_group->0,
                        o.state@[ids@[j]]@[b].selections@,
                    ),
                forall|b: u64|
                    (forall|j: int| 0 <= j < i ==> !#[trigger] o.pasting(ids@[j], b))
                        ==> #[trigger] self.buffers@[b] == o.buffers@[b],
            decreases n - i,
        {
            let p = ids[i];
            let ghost mid = *self;
            proof {
                assert(ids@.contains(p));
                assert(o.panes@.contains_key(p));
                assert(mid.state@[ids@[i as int]] == o.state@[p]);
                assert forall|b: u64| #[trigger] mid.pasting(p, b) implies mid.session_fits(
                    p,
                    b,
                ) by {
                    assert(o.pasting(p, b));
                    assert forall|j: int| 0 <= j < i implies !#[trigger] o.pasting(ids@[j], b) by {
                        if o.pasting(ids@[j], b) {
                            assert(ids@[j] == p);
                            assert(ids@[j] != ids@[i as int]);
                        }
                    }
                    assert(mid.buffers@[b] == o.buffers@[b]);
                    assert(o.session_fits(p, b));
                }
            }
            self.close_sessions_of(p);
            i = i + 1;
            proof {
                assert forall|j: int| 0 <= j < n implies self.state@[#[trigger] ids@[j]]@.dom()
                    == o.state@[ids@[j]]@.dom() by {
                    if j != i - 1 {
                        assert(ids@[j] != ids@[i - 1]);
                    }
                }
                assert forall|j: int| i <= j < n implies self.state@[#[trigger] ids@[j]]
                    == o.state@[ids@[j]] by {
                    assert(ids@[j] != ids@[i - 1]);
                }
                assert forall|j: int, b: u64|
                    #![trigger self.state@[ids@[j]]@[b]]
                    0 <= j < i && o.state@[ids@[j]]@.contains_key(b) implies self.state@[ids@[j]]@[b]
                    == (PaneBufferState { paste_group: None, ..o.state@[ids@[j]]@[b] }) by {
                    if j < i - 1 {
                        assert(ids@[j] != ids@[i - 1]);
                        assert(self.state@[ids@[j]] == mid.state@[ids@[j]]);
                        assert(mid.state@[ids@[j]]@[b] == self.state@[ids@[j]]@[b]);
                    } else {
                        assert(mid.state@[p]@.contains_key(b));
                    }
                }
                assert forall|j: int, b: u64|
                    0 <= j < i && #[trigger] o.pasting(ids@[j], b) implies group_committed(
                    o.buffers@[b],
                    self.buffers@[b],
                    o.state@[ids@[j]]@[b].paste_group->0,
                    o.state@[ids@[j]]@[b].selections@,
                ) by {
                    if j < i - 1 {
                        assert(ids@[j] != ids@[i - 1]);
                        assert(!o.pasting(p, b));
                        assert(!mid.pasting(p, b));
                        assert(self.buffers@[b] == mid.buffers@[b]);
                    } else {
                        assert(mid.pasting(p, b));
                        assert forall|k: int| 0 <= k < i - 1 implies !#[trigger] o.pasting(
                            ids@[k],
                            b,
                        ) by {
                            if o.pasting(ids@[k], b) {
                                assert(ids@[k] != ids@[i - 1]);
                            }
                        }
                        assert(mid.buffers@[b] == o.buffers@[b]);
                    }
                }
                assert forall|b: u64|
                    (forall|j: int| 0 <= j < i ==> !#[trigger] o.pasting(ids@[j], b)) implies
                    #[trigger] self.buffers@[b] == o.buffers@[b] by {
                    assert(!o.pasting(ids@[i - 1], b));
                    assert(!mid.pasting(p, b));
                    assert(self.buffers@[b] == mid.buffers@[b]);
                    assert forall|j: int| 0 <= j < i - 1 implies !#[trigger] o.pasting(
                        ids@[j],
                        b,
                    ) by {}
                }
            }
        }
        proof {
            assert forall|p: u64| #[trigger] o.panes@.contains_key(p) implies self.state@[p]@.dom()
                == o.state@[p]@.dom() by {
                assert(ids@.contains(p));
                let j = choose|j: int| 0 <= j < ids@.len() && ids@[j] == p;
                assert(ids@[j] == p);
            }
            assert forall|p: u64, b: u64|
                #![trigger self.state@[p]@[b]]
                o.panes@.contains_key(p) && o.state@[p]@.contains_key(b) implies self.state@[p]@[b]
                == (PaneBufferState { paste_group: None, ..o.state@[p]@[b] }) by {
                assert(ids@.contains(p));
                let j = choose|j: int| 0 <= j < ids@.len() && ids@[j] == p;
                assert(self.state@[ids@[j]]@[b] == self.state@[p]@[b]);
            }
            assert forall|p: u64, b: u64| !#[trigger] self.pasting(p, b) by {
                if self.pasting(p, b) {
                    assert(o.panes@.contains_key(p));
                    assert(o.state@[p]@.dom().contains(b));
                    assert(self.state@[p]@[b].paste_group is None);
                }
            }
            assert forall|p: u64, b: u64| #[trigger] o.pasting(p, b) implies group_committed(
                o.buffers@[b],
                self.buffers@[b],
                o.state@[p]@[b].paste_group->0,
                o.state@[p]@[b].selections@,
            ) by {
                assert(ids@.contains(p));
                let j = choose|j: int| 0 <= j < ids@.len() && ids@[j] == p;
                assert(o.pasting(ids@[j], b));
            }
            assert forall|b: u64| (forall|p: u64| !#[trigger] o.pasting(p, b)) implies
                #[trigger] self.buffers@[b] == o.buffers@[b] by {
                assert forall|j: int| 0 <= j < n implies !#[trigger] o.pasting(ids@[j], b) by {}
            }
        }
    }
}

/// A group that is closed becomes one step of the history: from the revision that it was
/// opened on, undone to the selections of that time, and with the text left as it is. A
/// group in which nothing was changed leaves no step.
pub proof fn law_closed_group_is_one_step(
    before: Buffer,
    after: Buffer,
    group: EditGroup,
    sels: Sels,
)
    requires
        group_committed(before, after, group, sels),
    ensures
        after.doc() == before.doc(),
        group.cs is None ==> after.revision() == before.revision() && after.tree()
            == before.tree(),
        group.cs matches Some(cs) ==> ({
            let step = after.tree().edit(before.tree().count());
            &&& after.revision() == before.tree().count()
            &&& after.tree().count() == before.tree().count() + 1
            &&& step.parent == before.revision()
            &&& step.forward == cs@
            &&& step.before == group.pre_sels@
            &&& step.after == sels
        }),
{
}

} // verus!

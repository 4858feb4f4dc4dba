//! Editing the focused buffer: single edits, groups of edits, and insert mode.

use crate::auto_pairs::inside;
use crate::buffer::{edit_fits, matches_ordered, same_file, EditGroup, EditResult};
use crate::changeset::inverted;
use crate::focus::Focus;
use crate::grapheme::{
    between, end_inclusive, law_back_and_on, lemma_line_around, line_begin, next_boundary,
    next_grapheme_boundary, prev_boundary, prev_grapheme_boundary,
};
use crate::history::Edit;
use crate::ops::Workspace;
use crate::pane_state::PaneBufferState;
use crate::selection::{Selection, SelectionSet, Sels};
use crate::text::Text;
use vstd::prelude::*;
use vstd::string::*;

verus! {

/// Where selections collapse to.
#[derive(Debug, Clone, Copy, PartialEq, Eq, Structural)]
pub enum Landing {
    Start,
    Head,
    /// The last character of the cluster at the end.
    EndInclusive,
    /// The cluster behind the end, at most the last character of the text.
    Behind,
    /// One cluster before the head, in the same line.
    StepBack,
}

/// Where a selection collapses to.
pub open spec fn landing(text: Seq<char>, sel: Selection, to: Landing) -> int {
    match to {
        Landing::Start => sel.spec_start() as int,
        Landing::Head => sel.head as int,
        Landing::EndInclusive => end_inclusive(sel, text),
        Landing::Behind => {
            let next = next_boundary(text, sel.spec_end() as int);
            if next < text.len() - 1 {
                next
            } else {
                text.len() - 1
            }
        },
        Landing::StepBack => if sel.head > line_begin(text, sel.head as int) {
            prev_boundary(text, sel.head as int)
        } else {
            sel.head as int
        },
    }
}

/// Every selection collapsed.
pub open spec fn landed(text: Seq<char>, sels: Sels, to: Landing) -> Sels {
    Sels {
        sels: Seq::new(
            sels.sels.len(),
            |i: int|
                {
                    let at = landing(text, sels.sels[i], to) as usize;
                    Selection { anchor: at, head: at }
                },
        ),
        ..sels
    }
}

/// Appending again, after the cursor stepped back on leaving insert mode, goes to the place
/// where it was left, where that is between two clusters and not the start of a line.
pub proof fn law_append_returns(text: Seq<char>, sel: Selection)
    requires
        line_begin(text, sel.head as int) < sel.head < text.len(),
        between(text, sel.head as int),
    ensures
        ({
            let back = landing(text, sel, Landing::StepBack) as usize;
            let left = Selection { anchor: back, head: back };
            landing(text, left, Landing::Behind) == sel.head
        }),
{
    lemma_line_around(text, sel.head as int);
    law_back_and_on(text, sel.head as int);
}

fn land_one(text: &Text, sel: Selection, to: Landing) -> (r: usize)
    requires
        text@.len() > 0,
        to == Landing::StepBack ==> sel.head <= text@.len(),
    ensures
        r == landing(text@, sel, to),
{
    match to {
        Landing::Start => sel.start(),
        Landing::Head => sel.head,
        Landing::EndInclusive => sel.end_inclusive(text),
        Landing::Behind => {
            let next = next_grapheme_boundary(text, sel.end());
            let max: usize = text.len_chars() - 1;
            if next < max {
                next
            } else {
                max
            }
        },
        Landing::StepBack => {
            proof {
                lemma_line_around(text@, sel.head as int);
            }
            let line = text.char_to_line(sel.head);
            let start = text.line_to_char(line);
            if sel.head > start {
                prev_grapheme_boundary(text, sel.head)
            } else {
                sel.head
            }
        },
    }
}

/// Collapses every selection.
pub fn land(text: &Text, sels: &SelectionSet, to: Landing) -> (r: SelectionSet)
    requires
        text@.len() > 0,
        to == Landing::StepBack ==> inside(sels@, text@.len()),
    ensures
        r@ == landed(text@, sels@, to),
{
    let mut out: Vec<Selection> = Vec::new();
    let n = sels.len();
    let mut i: usize = 0;
    let _ = sels.primary();
    while i < n
        invariant
            i <= n == sels@.sels.len(),
            text@.len() > 0,
            to == Landing::StepBack ==> inside(sels@, text@.len()),
            out@ == landed(text@, sels@, to).sels.take(i as int),
        decreases n - i,
    {
        let sel = sels.get(i);
        out.push(Selection::collapsed(land_one(text, sel, to)));
        i = i + 1;
        assert(out@ =~= landed(text@, sels@, to).sels.take(i as int));
    }
    assert(out@ =~= landed(text@, sels@, to).sels);
    SelectionSet::from_vec(out, sels.primary_index())
}

impl Focus {
    /// No revision of the text is empty, and no match that is known ends before it starts.
    /// At most one group of edits is open, and it fits the buffer.
    pub open spec fn wf(self) -> bool {
        &&& self.text().len() > 0
        &&& forall|i: int|
            0 <= i < self.doc.tree().texts.len() ==> (#[trigger] self.doc.tree().texts[i]).len() > 0
        &&& matches_ordered(self.doc.search_matches@)
        &&& match self.here.edit_group {
            Some(g) => self.here.paste_group is None && self.doc.group_open(g),
            None => match self.here.paste_group {
                Some(g) => self.doc.group_open(g),
                None => self.doc.settled(),
            },
        }
    }

    /// No group of edits is open.
    pub open spec fn ungrouped(self) -> bool {
        self.here.edit_group is None && self.here.paste_group is None
    }

    /// Only the text, its history and the selections changed.
    pub open spec fn edited(self, after: Focus) -> bool {
        &&& same_file(after.doc, self.doc)
        &&& after == (Focus {
            doc: after.doc,
            here: PaneBufferState {
                selections: after.here.selections,
                edit_group: after.here.edit_group,
                paste_group: after.here.paste_group,
                ..self.here
            },
            ..self
        })
    }

    /// After a single edit: one more revision, with the result's text and selections.
    pub open spec fn after_edit(self, after: Focus, edit: EditResult) -> bool {
        &&& self.edited(after)
        &&& after.ungrouped()
        &&& after.doc.settled()
        &&& after.text() == edit.0@
        &&& after.sels() == edit.1@
        &&& after.doc.revision() == self.doc.tree().count()
        &&& after.doc.tree() == self.doc.tree().recorded(
            Edit {
                parent: self.doc.revision(),
                forward: edit.2@,
                inverse: inverted(edit.2@, self.text()),
                before: self.sels(),
                after: edit.1@,
            },
            edit.0@,
        )
        &&& after.doc.generation() == self.doc.generation() + 1
    }

    /// Applies an edit of the current text as a step of its own. A buffer that refuses
    /// edits stays as it is.
    pub fn apply_edit(&mut self, edit: EditResult)
        requires
            old(self).wf(),
            old(self).ungrouped(),
            old(self).doc.has_room(),
            edit_fits(old(self).doc.text, edit),
            edit.0@.len() > 0,
        ensures
            final(self).wf(),
            if old(self).doc.read_only {
                *final(self) == *old(self)
            } else {
                old(self).after_edit(*final(self), edit)
            },
    {
        if self.doc.read_only {
            return;
        }
        let sels = self.here.selections.clone();
        let ghost text = edit.0@;
        let ghost ending = edit.0.spec_line_ending();
        let ghost change = edit.2@;
        let ghost chosen = edit.1@;
        let cmd = move |_t: Text, _s: SelectionSet| -> (o: EditResult)
            ensures
                o.0@ == text,
                o.0.spec_line_ending() == ending,
                o.1@ == chosen,
                o.2@ == change,
            { edit };
        let (after, _) = self.doc.apply_edit(sels, cmd);
        self.here.selections = after;
    }

    /// After an edit that belongs to the open group.
    pub open spec fn after_grouped_edit(self, after: Focus, edit: EditResult) -> bool {
        &&& self.edited(after)
        &&& after.here.paste_group is None
        &&& after.here.edit_group is Some
        &&& after.doc.group_open(after.here.edit_group->0)
        &&& after.text() == edit.0@
        &&& after.sels() == edit.1@
        &&& after.doc.tree() == self.doc.tree()
        &&& after.doc.revision() == self.doc.revision()
        &&& after.doc.generation() == self.doc.generation() + 1
        &&& after.here.edit_group->0.text_snapshot == self.here.edit_group->0.text_snapshot
        &&& after.here.edit_group->0.pre_sels == self.here.edit_group->0.pre_sels
        &&& after.here.edit_group->0.cs is Some
    }

    /// Applies an edit of the current text as part of the open group. Without a group, and
    /// in a buffer that refuses edits, nothing happens.
    pub fn apply_edit_grouped(&mut self, edit: EditResult)
        requires
            old(self).wf(),
            old(self).doc.generation() < u64::MAX,
            edit_fits(old(self).doc.text, edit),
            edit.0@.len() > 0,
        ensures
            final(self).wf(),
            if old(self).doc.read_only || old(self).here.edit_group is None {
                *final(self) == *old(self)
            } else {
                old(self).after_grouped_edit(*final(self), edit)
            },
    {
        if self.doc.read_only || self.here.edit_group.is_none() {
            return;
        }
        let sels = self.here.selections.clone();
        let ghost text = edit.0@;
        let ghost ending = edit.0.spec_line_ending();
        let ghost change = edit.2@;
        let ghost chosen = edit.1@;
        let cmd = move |_t: Text, _s: SelectionSet| -> (o: EditResult)
            ensures
                o.0@ == text,
                o.0.spec_line_ending() == ending,
                o.1@ == chosen,
                o.2@ == change,
            { edit };
        let mut group = self.here.edit_group.take();
        let (after, _) = self.doc.apply_edit_grouped(sels, &mut group, cmd);
        self.here.edit_group = group;
        self.here.selections = after;
    }

    /// After the group of edits was closed: its edits are one step of the history.
    pub open spec fn after_commit(self, after: Focus, group: EditGroup) -> bool {
        &&& same_file(after.doc, self.doc)
        &&& after.text() == self.text()
        &&& after.doc.generation() == self.doc.generation()
        &&& match group.cs {
            None => after.doc.tree() == self.doc.tree() && after.doc.revision()
                == self.doc.revision(),
            Some(cs) => {
                &&& after.doc.revision() == self.doc.tree().count()
                &&& after.doc.tree() == self.doc.tree().recorded(
                    Edit {
                        parent: self.doc.revision(),
                        forward: cs@,
                        inverse: inverted(cs@, group.text_snapshot@),
                        before: group.pre_sels@,
                        after: self.sels(),
                    },
                    self.text(),
                )
            },
        }
    }

    /// Closes the group of insert mode, where one is open.
    pub fn commit_edit_group(&mut self)
        requires
            old(self).wf(),
            old(self).doc.tree().count() < usize::MAX,
        ensures
            final(self).wf(),
            match old(self).here.edit_group {
                Some(g) => {
                    &&& old(self).after_commit(*final(self), g)
                    &&& *final(self) == (Focus {
                        doc: final(self).doc,
                        here: PaneBufferState { edit_group: None, ..old(self).here },
                        ..*old(self)
                    })
                },
                None => *final(self) == *old(self),
            },
    {
        if self.here.edit_group.is_none() {
            return;
        }
        let post = self.here.selections.clone();
        let mut group = self.here.edit_group.take();
        self.doc.commit_edit_group(&mut group, post);
        self.here.edit_group = group;
    }

    /// Undoes the last step, and goes back to the selections from before it.
    pub fn cmd_undo(&mut self)
        requires
            old(self).wf(),
            old(self).ungrouped(),
            old(self).doc.generation() < u64::MAX,
        ensures
            final(self).wf(),
            final(self).ungrouped(),
            old(self).edited(*final(self)),
            final(self).doc.tree() == old(self).doc.tree(),
            if old(self).doc.read_only || old(self).doc.revision() == 0 {
                &&& final(self).text() == old(self).text()
                &&& final(self).sels() == old(self).sels()
                &&& final(self).doc.revision() == old(self).doc.revision()
                &&& final(self).doc.generation() == old(self).doc.generation()
            } else {
                let e = old(self).doc.tree().edit(old(self).doc.revision());
                &&& final(self).doc.revision() == e.parent
                &&& final(self).doc.generation() == old(self).doc.generation() + 1
                &&& final(self).text() == old(self).doc.tree().texts[e.parent as int]
                &&& final(self).sels() == e.before
            },
    {
        if self.doc.read_only {
            return;
        }
        proof {
            let t = self.doc.tree();
            if self.doc.revision() > 0 {
                assert(t.edit_ok(self.doc.revision()));
            }
        }
        match self.doc.undo() {
            Some((sels, _)) => {
                self.here.selections = sels;
            },
            None => {},
        }
    }

    /// Does the step that was undone last again, and goes to the selections from after it.
    pub fn cmd_redo(&mut self)
        requires
            old(self).wf(),
            old(self).ungrouped(),
            old(self).doc.generation() < u64::MAX,
        ensures
            final(self).wf(),
            final(self).ungrouped(),
            old(self).edited(*final(self)),
            final(self).doc.tree() == old(self).doc.tree(),
            ({
                let next = old(self).doc.tree().latest[old(self).doc.revision() as int];
                if old(self).doc.read_only || next is None {
                    &&& final(self).text() == old(self).text()
                    &&& final(self).sels() == old(self).sels()
                    &&& final(self).doc.revision() == old(self).doc.revision()
                    &&& final(self).doc.generation() == old(self).doc.generation()
                } else {
                    &&& final(self).doc.revision() == next->0
                    &&& final(self).doc.generation() == old(self).doc.generation() + 1
                    &&& final(self).text() == old(self).doc.tree().texts[next->0 as int]
                    &&& final(self).sels() == old(self).doc.tree().edit(next->0).after
                }
            }),
    {
        if self.doc.read_only {
            return;
        }
        proof {
            assert(self.doc.tree().latest_ok(self.doc.revision()));
        }
        match self.doc.redo() {
            Some((sels, _)) => {
                self.here.selections = sels;
            },
            None => {},
        }
    }
}

/// A pane that shows a buffer for the first time is valid, where the buffer is as it was made
/// of a text that is not empty.
pub proof fn law_fresh_focus_is_valid(w: Workspace, text: Seq<char>, initial: Sels)
    requires
        text.len() > 0,
        w.document().untouched(text, initial),
        w.here().fresh(initial),
    ensures
        w.focus().wf(),
{
}

/// An undo directly after an edit brings back the text and the selections from before it.
pub proof fn law_undo_restores_edit(before: Focus, edited: Focus, edit: EditResult)
    requires
        before.wf(),
        before.ungrouped(),
        before.after_edit(edited, edit),
    ensures
        ({
            let e = edited.doc.tree().edit(edited.doc.revision());
            &&& edited.doc.revision() > 0
            &&& e.parent == before.doc.revision()
            &&& edited.doc.tree().texts[e.parent as int] == before.text()
            &&& e.before == before.sels()
        }),
{
    let e = Edit {
        parent: before.doc.revision(),
        forward: edit.2@,
        inverse: inverted(edit.2@, before.text()),
        before: before.sels(),
        after: edit.1@,
    };
    crate::history::law_undo_and_redo_of_recorded(before.doc.tree(), e, edit.0@);
}

/// Collapsing selections makes a cursor of each, and leaves their number, their order and which is
/// primary.
pub proof fn law_landed_are_cursors(text: Seq<char>, sels: Sels, to: Landing)
    ensures
        landed(text, sels, to).sels.len() == sels.sels.len(),
        landed(text, sels, to).primary == sels.primary,
        forall|i: int|
            0 <= i < sels.sels.len() ==> (#[trigger] landed(text, sels, to).sels[i]).anchor
                == landed(text, sels, to).sels[i].head,
        forall|i: int|
            0 <= i < sels.sels.len() ==> (#[trigger] landed(text, sels, to).sels[i]).head
                == landing(text, sels.sels[i], to) as usize,
{
}

/// Where a selection collapses to: to its smaller end, to its head, to the last character that it
/// covers, or to the first one that it does not, but never past the last character of the text.
pub proof fn law_landings(text: Seq<char>, sel: Selection)
    requires
        sel.anchor < text.len(),
        sel.head < text.len(),
    ensures
        landing(text, sel, Landing::Start) <= sel.anchor,
        landing(text, sel, Landing::Start) <= sel.head,
        landing(text, sel, Landing::Start) == sel.anchor || landing(text, sel, Landing::Start)
            == sel.head,
        landing(text, sel, Landing::Head) == sel.head,
        sel.anchor <= landing(text, sel, Landing::EndInclusive) < text.len(),
        sel.head <= landing(text, sel, Landing::EndInclusive),
        landing(text, sel, Landing::Behind) <= text.len() - 1,
        landing(text, sel, Landing::EndInclusive) < text.len() - 1 ==> landing(
            text,
            sel,
            Landing::Behind,
        ) == landing(text, sel, Landing::EndInclusive) + 1,
        landing(text, sel, Landing::EndInclusive) == text.len() - 1 ==> landing(
            text,
            sel,
            Landing::Behind,
        ) == text.len() - 1,
{
    crate::grapheme::law_selection_ends_with_a_cluster(sel, text);
    crate::grapheme::law_boundary_stays(text, sel.spec_end() as int);
}

/// Stepping back goes one cluster to the left, and stays where it is at the start of a line.
pub proof fn law_stepping_back_stays_in_the_line(text: Seq<char>, sel: Selection)
    requires
        sel.head < text.len(),
    ensures
        ({
            let at = landing(text, sel, Landing::StepBack);
            let begin = line_begin(text, sel.head as int);
            &&& begin <= at <= sel.head
            &&& at == sel.head <==> sel.head == begin
            &&& sel.head > begin ==> at == prev_boundary(text, sel.head as int)
        }),
{
    lemma_line_around(text, sel.head as int);
    if sel.head > line_begin(text, sel.head as int) {
        crate::grapheme::law_prev_boundary_is_the_nearest(text, sel.head as int, 0);
    }
}

/// Undoing a group of edits goes back to the text and the selections from before the first of
/// them; a group without edits leaves no trace in the history.
pub proof fn law_undo_restores_group(open: Focus, closed: Focus, group: crate::buffer::EditGroup)
    requires
        open.doc.group_open(group),
        open.after_commit(closed, group),
    ensures
        closed.text() == open.text(),
        group.cs is None ==> closed.doc.tree() == open.doc.tree() && closed.doc.revision()
            == open.doc.revision(),
        group.cs is Some ==> {
            let e = closed.doc.tree().edit(closed.doc.revision());
            &&& closed.doc.tree().count() == open.doc.tree().count() + 1
            &&& closed.doc.revision() == open.doc.tree().count()
            &&& e.parent == open.doc.revision()
            &&& e.before == group.pre_sels@
            &&& e.after == open.sels()
            &&& crate::changeset::applied(e.inverse, open.text()) == group.text_snapshot@
            &&& crate::changeset::applied(e.forward, group.text_snapshot@) == open.text()
        },
{
    if let Some(cs) = group.cs {
        crate::changeset::law_invert_restores(cs@, group.text_snapshot@);
    }
}

/// An edit shows its text and its selections, is one more step of the history, and leaves the file
/// and the search alone.
pub proof fn law_edit_is_one_step(before: Focus, after: Focus, edit: EditResult)
    requires
        before.after_edit(after, edit),
    ensures
        after.text() == edit.0@,
        after.sels() == edit.1@,
        after.doc.tree().count() == before.doc.tree().count() + 1,
        after.doc.generation() == before.doc.generation() + 1,
        after.doc.path == before.doc.path,
        after.doc.saved_revision == before.doc.saved_revision,
        after.doc.search_pattern == before.doc.search_pattern,
        after.doc.language == before.doc.language,
        after.transient == before.transient,
        after.jumps == before.jumps,
        after.doc.tree().edit(after.doc.revision()).after == edit.1@,
{
}

} // verus!

//! Entering and leaving insert mode.

use crate::auto_pairs::{inside, InsertSession};
use crate::buffer::{edit_fits, EditGroup, EditResult};
use crate::changeset::Step;
use crate::dispatch::{Keys, Mode};
use crate::editing::{land, landed, Landing};
use crate::focus::Focus;
use crate::message_log::Severity;
use crate::modes::ModalV;
use crate::pane_state::PaneBufferState;
use crate::selection::{SelectionSet, Sels};
use crate::state::{EditorState, RepeatableAction};
use vstd::prelude::*;
use vstd::string::*;

verus! {

/// The session is fresh: nothing was typed yet.
pub open spec fn fresh_session(s: Option<InsertSession>, step_back: bool) -> bool {
    s is Some && s->0.keystrokes@.len() == 0 && s->0.step_back_on_exit == step_back
}

/// A group was opened on the text as it is. Undoing it goes back to the selections `sels`.
pub open spec fn group_begun(before: Focus, after: Focus, sels: Sels) -> bool {
    &&& after == (Focus {
        here: PaneBufferState { edit_group: after.here.edit_group, ..before.here },
        ..before
    })
    &&& after.here.edit_group is Some
    &&& after.here.edit_group->0.text_snapshot@ == before.text()
    &&& after.here.edit_group->0.pre_sels@ == sels
    &&& after.here.edit_group->0.cs is None
}

/// What entering insert mode does. A buffer that refuses edits stays in its mode, with a
/// warning. A group that is open already stays as it is. While a command is repeated, its
/// group goes back to the selections from before the command, and nothing is kept for
/// repetition.
pub open spec fn insert_begun(
    f: Focus,
    s: EditorState,
    g: Focus,
    t: EditorState,
    step_back: bool,
) -> bool {
    if f.doc.read_only {
        &&& g == f
        &&& t == (EditorState {
            messages: t.messages,
            insert_session: t.insert_session,
            ..s
        })
        &&& t.messages@ == s.messages@.reported(Severity::Warning, "Buffer is read-only"@)
        &&& marked(s.insert_session, t.insert_session, step_back)
    } else {
        &&& t == (EditorState {
            modal: t.modal,
            insert_session: t.insert_session,
            repeat_from: t.repeat_from,
            ..s
        })
        &&& t.modal@ == s.modal@.falling_back(Mode::Insert)
        &&& t.modal.minibuf == s.modal.minibuf
        &&& match (f.here.edit_group, s.repeat_from) {
            (Some(_), _) => {
                &&& g == f
                &&& t.repeat_from == s.repeat_from
                &&& marked(s.insert_session, t.insert_session, step_back)
            },
            (None, Some(sels)) => {
                &&& group_begun(f, g, sels@)
                &&& t.repeat_from is None
                &&& marked(s.insert_session, t.insert_session, step_back)
            },
            (None, None) => {
                &&& group_begun(f, g, f.sels())
                &&& t.repeat_from is None
                &&& fresh_session(t.insert_session, step_back)
            },
        }
    }
}

/// The session was marked to step back at its end, where that was asked for.
pub open spec fn marked(
    s: Option<InsertSession>,
    t: Option<InsertSession>,
    step_back: bool,
) -> bool {
    if step_back && s is Some {
        t is Some && t->0.keystrokes == s->0.keystrokes && t->0.step_back_on_exit
    } else {
        t == s
    }
}

impl EditorState {
    /// Notes that the cursors step back when the session ends.
    pub fn mark_insert_step_back(&mut self)
        ensures
            *final(self) == (EditorState {
                insert_session: final(self).insert_session,
                ..*old(self)
            }),
            marked(old(self).insert_session, final(self).insert_session, true),
    {
        match self.insert_session.take() {
            Some(s) => {
                self.insert_session = Some(
                    InsertSession { keystrokes: s.keystrokes, step_back_on_exit: true },
                );
            },
            None => {},
        }
    }
}

impl Focus {
    /// Enters insert mode: opens a group, so that all that is typed is one step of the
    /// history, and begins to keep the keys for repetition; see [`insert_begun`].
    pub fn begin_insert_session(&mut self, state: &mut EditorState)
        requires
            old(self).wf(),
            old(self).here.paste_group is None,
        ensures
            final(self).wf(),
            final(self).here.paste_group is None,
            insert_begun(*old(self), *old(state), *final(self), *final(state), false),
    {
        if self.doc.read_only {
            state.messages.report(Severity::Warning, "Buffer is read-only".to_owned());
            return;
        }
        if self.here.edit_group.is_none() {
            let pre = match state.repeat_from.take() {
                Some(sels) => sels,
                None => {
                    state.insert_session = Some(
                        InsertSession { keystrokes: Vec::new(), step_back_on_exit: false },
                    );
                    self.here.selections.clone()
                },
            };
            let mut group: Option<EditGroup> = None;
            self.doc.begin_edit_group(&mut group, pre);
            self.here.edit_group = group;
        }
        state.modal.keys.mode = Mode::Insert;
    }

    /// Selects `sels` and enters insert mode.
    fn insert_at(&mut self, state: &mut EditorState, sels: SelectionSet, step_back: bool)
        requires
            old(self).wf(),
            old(self).here.paste_group is None,
        ensures
            final(self).wf(),
            final(self).here.paste_group is None,
            inserted_at(*old(self), *old(state), *final(self), *final(state), sels@, step_back),
    {
        self.select(sels);
        let ghost mid = *self;
        self.begin_insert_session(state);
        let ghost s1 = *state;
        if step_back {
            state.mark_insert_step_back();
        }
        proof {
            assert(old(self).selecting(mid, sels@));
            assert(insert_begun(mid, *old(state), *self, *state, step_back));
        }
    }
}

/// After `sels` were selected and insert mode was entered there.
pub open spec fn inserted_at(
    f: Focus,
    s: EditorState,
    g: Focus,
    t: EditorState,
    sels: Sels,
    step_back: bool,
) -> bool {
    exists|mid: Focus| #[trigger]
        f.selecting(mid, sels) && insert_begun(mid, s, g, t, step_back)
}

impl Focus {
    /// Inserts before the selections.
    pub fn cmd_insert_before(&mut self, state: &mut EditorState)
        requires
            old(self).wf(),
            old(self).here.paste_group is None,
        ensures
            final(self).wf(),
            final(self).here.paste_group is None,
            inserted_at(
                *old(self),
                *old(state),
                *final(self),
                *final(state),
                landed(old(self).text(), old(self).sels(), Landing::Start),
                false,
            ),
    {
        let sels = land(&self.doc.text, &self.here.selections, Landing::Start);
        self.insert_at(state, sels, false);
    }

    /// Inserts one cluster on. `moved` are the selections moved to the right by one. At the
    /// end the cursors step back.
    pub fn cmd_insert_after(&mut self, state: &mut EditorState, moved: SelectionSet)
        requires
            old(self).wf(),
            old(self).here.paste_group is None,
        ensures
            final(self).wf(),
            final(self).here.paste_group is None,
            inserted_at(*old(self), *old(state), *final(self), *final(state), moved@, true),
    {
        self.insert_at(state, moved, true);
    }

    /// Inserts at the start of the lines. `moved` are the selections moved there.
    pub fn cmd_insert_at_line_start(&mut self, state: &mut EditorState, moved: SelectionSet)
        requires
            old(self).wf(),
            old(self).here.paste_group is None,
        ensures
            final(self).wf(),
            final(self).here.paste_group is None,
            inserted_at(*old(self), *old(state), *final(self), *final(state), moved@, false),
    {
        self.insert_at(state, moved, false);
    }

    /// Inserts at the end of the lines. `moved` are the selections moved behind the last
    /// cluster of their lines. At the end the cursors step back.
    pub fn cmd_insert_at_line_end(&mut self, state: &mut EditorState, moved: SelectionSet)
        requires
            old(self).wf(),
            old(self).here.paste_group is None,
        ensures
            final(self).wf(),
            final(self).here.paste_group is None,
            inserted_at(*old(self), *old(state), *final(self), *final(state), moved@, true),
    {
        self.insert_at(state, moved, true);
    }

    /// Inserts at the start of the selections.
    pub fn cmd_insert_at_selection_start(&mut self, state: &mut EditorState)
        requires
            old(self).wf(),
            old(self).here.paste_group is None,
        ensures
            final(self).wf(),
            final(self).here.paste_group is None,
            inserted_at(
                *old(self),
                *old(state),
                *final(self),
                *final(state),
                landed(old(self).text(), old(self).sels(), Landing::Start),
                false,
            ),
    {
        let sels = land(&self.doc.text, &self.here.selections, Landing::Start);
        self.insert_at(state, sels, false);
    }

    /// Inserts behind the selections, at most at the last character of the text. At the
    /// end the cursors step back.
    pub fn cmd_insert_at_selection_end(&mut self, state: &mut EditorState)
        requires
            old(self).wf(),
            old(self).here.paste_group is None,
        ensures
            final(self).wf(),
            final(self).here.paste_group is None,
            inserted_at(
                *old(self),
                *old(state),
                *final(self),
                *final(state),
                landed(old(self).text(), old(self).sels(), Landing::Behind),
                true,
            ),
    {
        let sels = land(&self.doc.text, &self.here.selections, Landing::Behind);
        self.insert_at(state, sels, true);
    }
}

/// After insert mode was entered and a line break was put in at `at`. A buffer that refuses
/// edits only gets the selections.
pub open spec fn line_opened(
    f: Focus,
    s: EditorState,
    g: Focus,
    t: EditorState,
    at: Sels,
    opened: EditResult,
) -> bool {
    exists|begun: Focus, mid: Focus|
        {
            &&& #[trigger] insert_begun(f, s, begun, t, false)
            &&& #[trigger] begun.selecting(mid, at)
            &&& if f.doc.read_only {
                g == mid
            } else {
                mid.after_grouped_edit(g, opened)
            }
        }
}

impl Focus {
    /// Opens a line below. `at` are the selections moved to the ends of their lines, and
    /// `opened` is a line break put in there. Both belong to the group of insert mode.
    pub fn cmd_open_line_below(
        &mut self,
        state: &mut EditorState,
        at: SelectionSet,
        opened: EditResult,
    )
        requires
            old(self).wf(),
            old(self).here.paste_group is None,
            old(self).doc.generation() < u64::MAX,
            edit_fits(old(self).doc.text, opened),
            opened.0@.len() > 0,
        ensures
            final(self).wf(),
            line_opened(*old(self), *old(state), *final(self), *final(state), at@, opened),
    {
        self.begin_insert_session(state);
        let ghost begun = *self;
        self.select(at);
        let ghost mid = *self;
        self.apply_edit_grouped(opened);
        proof {
            assert(insert_begun(*old(self), *old(state), begun, *state, false));
            assert(begun.selecting(mid, at@));
        }
    }

    /// Opens a line above. `at` are the selections moved to the starts of their lines,
    /// `opened` is a line break put in there, and `back` are the selections moved back
    /// onto it.
    pub fn cmd_open_line_above(
        &mut self,
        state: &mut EditorState,
        at: SelectionSet,
        opened: EditResult,
        back: SelectionSet,
    )
        requires
            old(self).wf(),
            old(self).here.paste_group is None,
            old(self).doc.generation() < u64::MAX,
            edit_fits(old(self).doc.text, opened),
            opened.0@.len() > 0,
        ensures
            final(self).wf(),
            exists|mid: Focus|
                line_opened(*old(self), *old(state), mid, *final(state), at@, opened)
                    && #[trigger] mid.selecting(*final(self), back@),
    {
        self.cmd_open_line_below(state, at, opened);
        let ghost mid = *self;
        self.select(back);
        assert(mid.selecting(*self, back@));
    }
}

/// The last repeatable command, once an insert session has ended: it got what was typed.
pub open spec fn typed_kept(
    before: Option<RepeatableAction>,
    session: Option<InsertSession>,
    after: Option<RepeatableAction>,
) -> bool {
    match before {
        Some(a) => after is Some && after->0 == (RepeatableAction {
            insert_keys: match session {
                Some(s) => s.keystrokes,
                None => a.insert_keys,
            },
            ..a
        }),
        None => after is None,
    }
}

/// The cursors step back at the end of this session.
pub open spec fn steps_back(session: Option<InsertSession>) -> bool {
    session is Some && session->0.step_back_on_exit
}

impl Focus {
    /// Leaves insert mode: what was typed becomes one step of the history, and is kept for
    /// the repetition of the command that led there.
    pub fn end_insert_session(&mut self, state: &mut EditorState)
        requires
            old(self).wf(),
            old(self).doc.tree().count() < usize::MAX,
            inside(old(self).sels(), old(self).text().len()),
        ensures
            final(self).wf(),
            final(self).here.edit_group is None,
            match old(self).here.edit_group {
                Some(g) => old(self).after_commit(*final(self), g),
                None => final(self).doc == old(self).doc,
            },
            *final(self) == (Focus {
                doc: final(self).doc,
                here: PaneBufferState {
                    edit_group: None,
                    selections: final(self).here.selections,
                    ..old(self).here
                },
                ..*old(self)
            }),
            final(self).sels() == (if steps_back(old(state).insert_session) {
                landed(old(self).text(), old(self).sels(), Landing::StepBack)
            } else {
                old(self).sels()
            }),
            *final(state) == (EditorState {
                modal: final(state).modal,
                insert_session: None,
                last_repeatable_action: final(state).last_repeatable_action,
                ..*old(state)
            }),
            final(state).modal@ == old(state).modal@.falling_back(Mode::Normal),
            final(state).modal.minibuf == old(state).modal.minibuf,
            typed_kept(
                old(state).last_repeatable_action,
                old(state).insert_session,
                final(state).last_repeatable_action,
            ),
    {
        let step_back = match &state.insert_session {
            Some(s) => s.step_back_on_exit,
            None => false,
        };
        self.commit_edit_group();
        match state.insert_session.take() {
            Some(session) => match state.last_repeatable_action.take() {
                Some(action) => {
                    state.last_repeatable_action = Some(
                        RepeatableAction {
                            command: action.command,
                            count: action.count,
                            char_arg: action.char_arg,
                            insert_keys: session.keystrokes,
                        },
                    );
                },
                None => {},
            },
            None => {},
        }
        if step_back {
            let sels = land(&self.doc.text, &self.here.selections, Landing::StepBack);
            self.select(sels);
        }
        state.modal.keys.mode = Mode::Normal;
    }

    /// Leaves insert mode; see [`Focus::end_insert_session`].
    pub fn cmd_exit_insert(&mut self, state: &mut EditorState)
        requires
            old(self).wf(),
            old(self).doc.tree().count() < usize::MAX,
            inside(old(self).sels(), old(self).text().len()),
        ensures
            final(self).wf(),
            final(self).here.edit_group is None,
            match old(self).here.edit_group {
                Some(g) => old(self).after_commit(*final(self), g),
                None => final(self).doc == old(self).doc,
            },
            *final(self) == (Focus {
                doc: final(self).doc,
                here: PaneBufferState {
                    edit_group: None,
                    selections: final(self).here.selections,
                    ..old(self).here
                },
                ..*old(self)
            }),
            final(self).sels() == (if steps_back(old(state).insert_session) {
                landed(old(self).text(), old(self).sels(), Landing::StepBack)
            } else {
                old(self).sels()
            }),
            *final(state) == (EditorState {
                modal: final(state).modal,
                insert_session: None,
                last_repeatable_action: final(state).last_repeatable_action,
                ..*old(state)
            }),
            final(state).modal@ == old(state).modal@.falling_back(Mode::Normal),
            final(state).modal.minibuf == old(state).modal.minibuf,
            typed_kept(
                old(state).last_repeatable_action,
                old(state).insert_session,
                final(state).last_repeatable_action,
            ),
    {
        self.end_insert_session(state);
    }

    /// Collapses every selection to its cursor, and leaves extend mode.
    pub fn cmd_collapse_and_exit_extend(&mut self, state: &mut EditorState)
        requires
            old(self).text().len() > 0,
        ensures
            old(self).selecting(
                *final(self),
                landed(old(self).text(), old(self).sels(), Landing::Head),
            ),
            *final(state) == (EditorState { modal: final(state).modal, ..*old(state) }),
            final(state).modal@ == old(state).modal@.falling_back(Mode::Normal),
    {
        state.modal.keys.mode = Mode::Normal;
        let sels = land(&self.doc.text, &self.here.selections, Landing::Head);
        self.select(sels);
    }
}

impl EditorState {
    /// Switches between normal and extend mode.
    pub fn cmd_toggle_extend(&mut self)
        ensures
            *final(self) == (EditorState { modal: final(self).modal, ..*old(self) }),
            final(self).modal@ == old(self).modal@.falling_back(
                if old(self).modal@.keys.mode == Mode::Extend {
                    Mode::Normal
                } else {
                    Mode::Extend
                },
            ),
    {
        self.modal.keys.mode = if self.modal.keys.mode == Mode::Extend {
            Mode::Normal
        } else {
            Mode::Extend
        };
    }

    /// Opens the input line for a command.
    pub fn cmd_command_mode(&mut self)
        ensures
            *final(self) == (EditorState { modal: final(self).modal, ..*old(self) }),
            final(self).modal@ == old(self).modal@.entering(Mode::Command).prompting(':'),
            final(self).modal.wf(),
    {
        self.modal.set_mode(Mode::Command);
        self.modal.open_prompt(':');
    }

    /// Asks for the repetition of the last repeatable command, with the count that was
    /// given now, or else the one it was given then.
    pub fn cmd_repeat(&mut self, count: usize)
        ensures
            *final(self) == (EditorState {
                pending_repeat: match old(self).last_repeatable_action {
                    Some(a) => Some(
                        if old(self).modal.keys.explicit_count {
                            count
                        } else {
                            a.count
                        },
                    ),
                    None => old(self).pending_repeat,
                },
                ..*old(self)
            }),
    {
        match &self.last_repeatable_action {
            Some(a) => {
                self.pending_repeat = Some(
                    if self.modal.keys.explicit_count {
                        count
                    } else {
                        a.count
                    },
                );
            },
            None => {},
        }
    }

    pub fn cmd_quit(&mut self)
        ensures
            *final(self) == (EditorState { should_quit: true, ..*old(self) }),
    {
        self.should_quit = true;
    }
}

impl Focus {
    /// Begins the repetition that was asked for: the command and its count come back, to be
    /// run once more, and the character that it was given is given again. Where it enters
    /// insert mode, the keys that were typed in it follow.
    pub fn begin_repeat(&self, state: &mut EditorState) -> (r: Option<(RepeatableAction, usize)>)
        ensures
            match (old(state).pending_repeat, old(state).last_repeatable_action) {
                (Some(n), Some(a)) => {
                    &&& r == Some((a, n))
                    &&& *final(state) == (EditorState {
                        modal: final(state).modal,
                        pending_repeat: None,
                        last_repeatable_action: None,
                        repeat_from: final(state).repeat_from,
                        ..*old(state)
                    })
                    &&& final(state).repeat_from is Some
                    &&& final(state).repeat_from->0@ == self.sels()
                    &&& final(state).modal@ == (ModalV {
                        keys: Keys { pending_char: a.char_arg, ..old(state).modal@.keys },
                        ..old(state).modal@
                    })
                },
                _ => r is None && *final(state) == (EditorState {
                    pending_repeat: None,
                    ..*old(state)
                }),
            },
    {
        match state.pending_repeat.take() {
            Some(n) => match state.last_repeatable_action.take() {
                Some(a) => {
                    state.modal.keys.pending_char = a.char_arg;
                    state.repeat_from = Some(self.here.selections.clone());
                    Some((a, n))
                },
                None => None,
            },
            None => None,
        }
    }

    /// Ends a repetition. Where the command entered insert mode, it is left, and all of it
    /// is one step of the history. The command can be repeated again.
    pub fn end_repeat(&mut self, state: &mut EditorState, action: RepeatableAction)
        requires
            old(self).wf(),
            old(self).doc.tree().count() < usize::MAX,
            inside(old(self).sels(), old(self).text().len()),
        ensures
            final(self).wf(),
            final(self).here.edit_group is None,
            match old(self).here.edit_group {
                Some(g) => old(self).after_commit(*final(self), g),
                None => final(self).doc == old(self).doc,
            },
            *final(self) == (Focus {
                doc: final(self).doc,
                here: PaneBufferState {
                    edit_group: None,
                    selections: final(self).here.selections,
                    ..old(self).here
                },
                ..*old(self)
            }),
            ({
                let typing = old(state).modal@.keys.mode == Mode::Insert;
                &&& final(self).sels() == (if typing && steps_back(old(state).insert_session) {
                    landed(old(self).text(), old(self).sels(), Landing::StepBack)
                } else {
                    old(self).sels()
                })
                &&& *final(state) == (EditorState {
                    modal: final(state).modal,
                    insert_session: if typing {
                        None
                    } else {
                        old(state).insert_session
                    },
                    last_repeatable_action: Some(action),
                    repeat_from: None,
                    ..*old(state)
                })
                &&& final(state).modal@ == (if typing {
                    old(state).modal@.falling_back(Mode::Normal)
                } else {
                    old(state).modal@
                })
            }),
    {
        if state.modal.keys.mode == Mode::Insert {
            self.end_insert_session(state);
        } else {
            self.commit_edit_group();
        }
        state.repeat_from = None;
        state.last_repeatable_action = Some(action);
    }
}

/// Repeating a command that enters insert mode, and leaving insert mode, is one step of the
/// history: undoing it goes back to the text and the selections from before the command.
pub proof fn law_repeat_is_one_step(
    start: Focus,
    state: EditorState,
    moved: Focus,
    begun: Focus,
    typing: EditorState,
    typed: Focus,
    after: Focus,
    cs: Seq<Step>,
)
    requires
        start.wf(),
        start.ungrouped(),
        !start.doc.read_only,
        state.repeat_from is Some,
        state.repeat_from->0@ == start.sels(),
        start.selecting(moved, moved.sels()),
        insert_begun(moved, state, begun, typing, false),
        typed.wf(),
        typed.doc.tree() == begun.doc.tree(),
        typed.doc.revision() == begun.doc.revision(),
        typed.here.edit_group is Some,
        typed.here.edit_group->0.text_snapshot == begun.here.edit_group->0.text_snapshot,
        typed.here.edit_group->0.pre_sels == begun.here.edit_group->0.pre_sels,
        typed.here.edit_group->0.cs is Some,
        typed.here.edit_group->0.cs->0@ == cs,
        typed.after_commit(after, typed.here.edit_group->0),
    ensures
        after.doc.tree().count() == start.doc.tree().count() + 1,
        ({
            let e = after.doc.tree().edit(after.doc.revision());
            &&& e.parent == start.doc.revision()
            &&& after.doc.tree().texts[e.parent as int] == start.text()
            &&& e.before == start.sels()
        }),
{
}

/// Insert mode is not entered in a buffer that refuses edits: the mode stays, nothing is selected or
/// opened, and a warning says why.
pub proof fn law_read_only_refuses_insert(
    f: Focus,
    s: EditorState,
    g: Focus,
    t: EditorState,
    step_back: bool,
)
    requires
        f.doc.read_only,
        insert_begun(f, s, g, t, step_back),
    ensures
        g == f,
        t.modal == s.modal,
        t.registers == s.registers,
        t.messages@ == s.messages@.reported(Severity::Warning, "Buffer is read-only"@),
{
}

/// Entering insert mode leaves the text and the selections. A group is open behind it, and where
/// none was and nothing is repeated, it goes back to the text and the selections of that moment,
/// and nothing counts as typed yet.
pub proof fn law_insert_begins_a_step(
    f: Focus,
    s: EditorState,
    g: Focus,
    t: EditorState,
    step_back: bool,
)
    requires
        !f.doc.read_only,
        insert_begun(f, s, g, t, step_back),
    ensures
        t.modal@.keys.mode == Mode::Insert,
        t.messages == s.messages,
        t.registers == s.registers,
        g.doc == f.doc,
        g.sels() == f.sels(),
        g.here.edit_group is Some,
        f.here.edit_group is Some ==> g.here.edit_group == f.here.edit_group,
        f.here.edit_group is None && s.repeat_from is None ==> {
            let group = g.here.edit_group->0;
            &&& group.text_snapshot@ == f.text()
            &&& group.pre_sels@ == f.sels()
            &&& group.cs is None
            &&& t.insert_session is Some
            &&& t.insert_session->0.keystrokes@.len() == 0
            &&& t.insert_session->0.step_back_on_exit == step_back
        },
        f.here.edit_group is None && s.repeat_from is Some ==> g.here.edit_group->0.pre_sels@
            == s.repeat_from->0@ && t.repeat_from is None,
{
}

/// Leaving insert mode gives the last command the keys that were typed, in the order they were
/// typed in, and changes nothing else of it. Where there was no session it keeps those from
/// before.
pub proof fn law_typed_keys_are_kept(
    a: RepeatableAction,
    session: InsertSession,
    after: Option<RepeatableAction>,
)
    ensures
        typed_kept(Some(a), Some(session), after) ==> {
            &&& after is Some
            &&& after->0.command == a.command
            &&& after->0.count == a.count
            &&& after->0.char_arg == a.char_arg
            &&& after->0.insert_keys@ == session.keystrokes@
        },
        typed_kept(Some(a), None, after) ==> after == Some(a),
        typed_kept(None, Some(session), after) ==> after is None,
{
}

/// The cursors step back at the end of a session that was marked to, and of no other.
pub proof fn law_marked_sessions_step_back(s: InsertSession, t: Option<InsertSession>)
    ensures
        marked(Some(s), t, true) ==> steps_back(t) && t->0.keystrokes@ == s.keystrokes@,
        marked(Some(s), t, false) ==> steps_back(t) == s.step_back_on_exit && t == Some(s),
        marked(None, t, true) ==> t is None,
        !steps_back(None),
        steps_back(Some(s)) == s.step_back_on_exit,
{
}

/// Opening a line enters insert mode and puts the line break in as part of its group, so that
/// undoing goes back to before both.
pub proof fn law_opened_line_is_part_of_the_insertion(
    f: Focus,
    s: EditorState,
    g: Focus,
    t: EditorState,
    at: Sels,
    opened: EditResult,
)
    requires
        line_opened(f, s, g, t, at, opened),
        !f.doc.read_only,
        f.here.edit_group is None,
        s.repeat_from is None,
    ensures
        t.modal@.keys.mode == Mode::Insert,
        g.text() == opened.0@,
        g.sels() == opened.1@,
        g.doc.tree() == f.doc.tree(),
        g.doc.revision() == f.doc.revision(),
        g.here.edit_group is Some,
        g.here.edit_group->0.text_snapshot@ == f.text(),
        g.here.edit_group->0.pre_sels@ == f.sels(),
{
    let (begun, mid) = choose|begun: Focus, mid: Focus|
        {
            &&& #[trigger] insert_begun(f, s, begun, t, false)
            &&& #[trigger] begun.selecting(mid, at)
            &&& if f.doc.read_only {
                g == mid
            } else {
                mid.after_grouped_edit(g, opened)
            }
        };
    law_insert_begins_a_step(f, s, begun, t, false);
}

} // verus!

//! Changes of mode, and the input line that some modes open.

use crate::dispatch::{KeyState, Keys, Mode};
use crate::minibuf::{Line, MiniBuffer};
use vstd::prelude::*;

verus! {

/// A change of mode that hooks are to be told of.
#[derive(Debug, Clone, Copy, PartialEq, Eq, Structural)]
pub struct ModeChange {
    pub from: Mode,
    pub to: Mode,
}

/// The changes of mode that hooks are to be told of, after one more. Staying in a mode is
/// no change.
pub open spec fn noted(changes: Seq<ModeChange>, from: Mode, to: Mode) -> Seq<ModeChange> {
    if from == to {
        changes
    } else {
        changes.push(ModeChange { from, to })
    }
}

/// Notes a change of mode for the hooks.
pub fn enqueue_mode_change(changes: &mut Vec<ModeChange>, old_mode: Mode, new_mode: Mode)
    ensures
        final(changes)@ == noted(old(changes)@, old_mode, new_mode),
{
    if old_mode != new_mode {
        changes.push(ModeChange { from: old_mode, to: new_mode });
    }
}

/// The state of the keyboard and of the input line.
#[derive(Debug)]
pub struct Modal {
    pub keys: KeyState,
    pub changes: Vec<ModeChange>,
    pub minibuf: Option<MiniBuffer>,
}

/// The state of the keyboard and of the input line, as a value.
#[verifier::ext_equal]
pub struct ModalV {
    pub keys: Keys,
    pub changes: Seq<ModeChange>,
    pub line: Option<Line>,
}

impl View for Modal {
    type V = ModalV;

    open spec fn view(&self) -> ModalV {
        ModalV {
            keys: self.keys@,
            changes: self.changes@,
            line: match self.minibuf {
                Some(m) => Some(m@),
                None => None,
            },
        }
    }
}

impl ModalV {
    /// Another mode, of which hooks are told.
    pub open spec fn entering(self, mode: Mode) -> ModalV {
        ModalV {
            keys: Keys { mode, ..self.keys },
            changes: noted(self.changes, self.keys.mode, mode),
            ..self
        }
    }

    /// Another mode, of which hooks are not told.
    pub open spec fn falling_back(self, mode: Mode) -> ModalV {
        ModalV { keys: Keys { mode, ..self.keys }, ..self }
    }

    /// An empty input line behind `prompt`.
    pub open spec fn prompting(self, prompt: char) -> ModalV {
        ModalV { line: Some(Line { prompt, before: Seq::empty(), after: Seq::empty() }), ..self }
    }

    /// No input line.
    pub open spec fn closed(self) -> ModalV {
        ModalV { line: None, ..self }
    }
}

impl Modal {
    /// The cursor of the input line stands between two characters.
    pub open spec fn wf(&self) -> bool {
        self.minibuf matches Some(m) ==> m.wf()
    }

    pub fn new(kitty_enabled: bool) -> (r: Modal)
        ensures
            r.wf(),
            r@ == (ModalV {
                keys: Keys::fresh(kitty_enabled),
                changes: Seq::empty(),
                line: None,
            }),
    {
        Modal { keys: KeyState::new(kitty_enabled), changes: Vec::new(), minibuf: None }
    }

    /// Changes the mode, and notes that for the hooks.
    pub fn set_mode(&mut self, mode: Mode)
        ensures
            final(self)@ == old(self)@.entering(mode),
            final(self).minibuf == old(self).minibuf,
    {
        enqueue_mode_change(&mut self.changes, self.keys.mode, mode);
        self.keys.mode = mode;
    }

    /// Opens an empty input line.
    pub fn open_prompt(&mut self, prompt: char)
        ensures
            final(self)@ == old(self)@.prompting(prompt),
            final(self).wf(),
    {
        self.minibuf = Some(MiniBuffer::new(prompt));
    }

    /// Closes the input line.
    pub fn close_minibuf(&mut self)
        ensures
            final(self)@ == old(self)@.closed(),
            final(self).wf(),
    {
        self.minibuf = None;
    }
}

/// Entering another mode changes the mode and tells the hooks of it, once; entering the mode that
/// one is in tells them nothing. Falling back into a mode tells them nothing either.
pub proof fn law_hooks_are_told_of_changes(m: ModalV, mode: Mode)
    ensures
        m.entering(mode).keys.mode == mode,
        m.entering(mode).keys == (Keys { mode, ..m.keys }),
        m.entering(mode).line == m.line,
        m.keys.mode == mode ==> m.entering(mode).changes == m.changes,
        m.keys.mode != mode ==> {
            let c = m.entering(mode).changes;
            &&& c.len() == m.changes.len() + 1
            &&& c.drop_last() == m.changes
            &&& c.last() == (ModeChange { from: m.keys.mode, to: mode })
        },
        m.falling_back(mode) == (ModalV { keys: Keys { mode, ..m.keys }, ..m }),
{
    if m.keys.mode != mode {
        let c = ModeChange { from: m.keys.mode, to: mode };
        assert(m.changes.push(c).drop_last() =~= m.changes);
    }
}

/// An input line that is opened is empty and shows its prompt; a closed one is gone. Neither
/// changes the mode.
pub proof fn law_prompt_opens_empty(m: ModalV, prompt: char)
    ensures
        m.prompting(prompt).line is Some,
        m.prompting(prompt).line->0.prompt == prompt,
        m.prompting(prompt).line->0.before.len() == 0,
        m.prompting(prompt).line->0.after.len() == 0,
        m.prompting(prompt).keys == m.keys,
        m.closed().line is None,
        m.closed().keys == m.keys,
        m.closed().changes == m.changes,
{
}

} // verus!

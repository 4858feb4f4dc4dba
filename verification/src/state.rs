//! What the editor keeps besides panes and buffers.

use crate::auto_pairs::InsertSession;
use crate::keys::KeyEvent;
use crate::message_log::Severity;
use crate::messages::{Messages, Shown};
use crate::dispatch::Keys;
use crate::modes::{Modal, ModalV};
use crate::register_ops::{clipboard_warning, write_clipboard, write_register};
use crate::registers::{texts, Held, KillRing, RegisterSet, Ring, CLIPBOARD_REGISTER};
use crate::search::{SearchDirection, SearchState};
use crate::selection::SelectionSet;
use vstd::prelude::*;
use vstd::string::*;

verus! {

/// A register that was named before a command.
#[derive(Debug, Clone, Copy, PartialEq, Eq, Structural)]
pub enum RegisterPrefix {
    /// The prefix key was pressed; the name comes next.
    AwaitingName,
    Selected(char),
}

/// A command that can be repeated.
#[derive(Debug)]
pub struct RepeatableAction {
    pub command: String,
    pub count: usize,
    /// The character that it was given.
    pub char_arg: Option<char>,
    /// What was typed in insert mode after it.
    pub insert_keys: Vec<KeyEvent>,
}

/// Whether a find command stops on the character or before it.
#[derive(Debug, Clone, Copy, PartialEq, Eq, Structural)]
pub enum FindKind {
    Inclusive,
    Exclusive,
}

/// The last find command.
#[derive(Debug, Clone, Copy, PartialEq, Eq, Structural)]
pub struct FindChar {
    pub ch: char,
    pub kind: FindKind,
}

/// What the editor keeps besides panes and buffers.
pub struct EditorState {
    pub modal: Modal,
    pub registers: RegisterSet,
    pub kill_ring: KillRing,
    pub register_prefix: Option<RegisterPrefix>,
    /// The name of the last command.
    pub last_command: Option<String>,
    /// What was pasted last.
    pub last_paste: Option<Vec<String>>,
    pub messages: Messages,
    pub search: SearchState,
    pub last_find: Option<FindChar>,
    pub last_repeatable_action: Option<RepeatableAction>,
    pub insert_session: Option<InsertSession>,
    /// The count with which the last repeatable command is to be repeated.
    pub pending_repeat: Option<usize>,
    /// While a command is repeated, and has not entered insert mode: the selections from
    /// before it.
    pub repeat_from: Option<SelectionSet>,
    pub should_quit: bool,
}

/// The register that was named, if any.
pub open spec fn named_register(p: Option<RegisterPrefix>) -> Option<char> {
    match p {
        Some(RegisterPrefix::Selected(c)) => Some(c),
        _ => None,
    }
}

/// The registers after `values` were written to `name`.
pub open spec fn register_written(
    before: RegisterSet,
    after: RegisterSet,
    name: char,
    values: Seq<Seq<char>>,
) -> bool {
    forall|c: char| #[trigger]
        after.held(c) == (if c == name {
            Some(Held::Text(values))
        } else {
            before.held(c)
        })
}

/// The messages after the clipboard was written to, where that was asked for.
pub open spec fn clipboard_reported(before: Shown, clip: Result<(), String>) -> Shown {
    match clip {
        Ok(_) => before,
        Err(e) => before.reported(Severity::Warning, clipboard_warning(e@)),
    }
}

impl EditorState {
    pub fn new(kitty_enabled: bool) -> (r: EditorState)
        ensures
            r.modal.wf(),
            r.modal@ == (ModalV {
                keys: Keys::fresh(kitty_enabled),
                changes: Seq::empty(),
                line: None,
            }),
            forall|c: char| #[trigger] r.registers.held(c) is None,
            r.kill_ring@ == (Ring { slots: Seq::empty(), cycle: None }),
            r.search.direction == SearchDirection::Forward,
            r.search.pre_search_sels is None,
            !r.search.extend,
            r.search.regex is None,
            r.search.forgotten(),
            r.register_prefix is None,
            r.last_command is None,
            r.last_paste is None,
            r.messages@ == (Shown { entries: Seq::empty(), seen: 0, status: None }),
            r.last_find is None,
            r.last_repeatable_action is None,
            r.insert_session is None,
            r.pending_repeat is None,
            r.repeat_from is None,
            !r.should_quit,
    {
        EditorState {
            modal: Modal::new(kitty_enabled),
            registers: RegisterSet::new(),
            kill_ring: KillRing::new(),
            register_prefix: None,
            last_command: None,
            last_paste: None,
            messages: Messages::new(),
            search: SearchState::default(),
            last_find: None,
            last_repeatable_action: None,
            insert_session: None,
            pending_repeat: None,
            repeat_from: None,
            should_quit: false,
        }
    }

    /// Takes the register that was named before the command. A prefix without a name is
    /// dropped.
    pub fn take_register_prefix(&mut self) -> (r: Option<char>)
        ensures
            r == named_register(old(self).register_prefix),
            *final(self) == (EditorState { register_prefix: None, ..*old(self) }),
    {
        match self.register_prefix.take() {
            Some(RegisterPrefix::Selected(c)) => Some(c),
            _ => None,
        }
    }

    /// Writes `values` to the register `name`. `clip` is what came of writing them to the
    /// system clipboard, should the register be the one that stands for it.
    pub fn write_register(&mut self, clip: &Result<(), String>, name: char, values: Vec<String>)
        ensures
            register_written(
                old(self).registers,
                final(self).registers,
                name,
                texts(values@),
            ),
            final(self).messages@ == (if name == CLIPBOARD_REGISTER {
                clipboard_reported(old(self).messages@, *clip)
            } else {
                old(self).messages@
            }),
            *final(self) == (EditorState {
                registers: final(self).registers,
                messages: final(self).messages,
                ..*old(self)
            }),
    {
        match write_register(&mut self.registers, clip, name, values) {
            Some(w) => self.messages.report(Severity::Warning, w),
            None => {},
        }
    }

    /// Writes `values` to the register of the clipboard; `clip` is what came of writing
    /// them to the system clipboard.
    pub fn write_clipboard(&mut self, clip: &Result<(), String>, values: &Vec<String>)
        ensures
            register_written(
                old(self).registers,
                final(self).registers,
                CLIPBOARD_REGISTER,
                texts(values@),
            ),
            final(self).messages@ == clipboard_reported(old(self).messages@, *clip),
            *final(self) == (EditorState {
                registers: final(self).registers,
                messages: final(self).messages,
                ..*old(self)
            }),
    {
        match write_clipboard(&mut self.registers, clip, values) {
            Some(w) => self.messages.report(Severity::Warning, w),
            None => {},
        }
    }
}

/// A register that was named is the one that comes of it; while its name is awaited there is none.
pub proof fn law_named_register(c: char)
    ensures
        named_register(Some(RegisterPrefix::Selected(c))) == Some(c),
        named_register(Some(RegisterPrefix::AwaitingName)) is None,
        named_register(None) is None,
{
}

/// What is written to a register is read from it, and no other register changes.
pub proof fn law_written_register_is_read(
    before: RegisterSet,
    after: RegisterSet,
    name: char,
    values: Seq<Seq<char>>,
    other: char,
)
    requires
        register_written(before, after, name, values),
        other != name,
    ensures
        after.held(name) == Some(Held::Text(values)),
        after.held(other) == before.held(other),
{
}

/// A clipboard that could be written to says nothing; one that could not is warned of.
pub proof fn law_clipboard_failures_are_reported(before: Shown, e: String)
    ensures
        clipboard_reported(before, Ok(())) == before,
        clipboard_reported(before, Err(e)) == before.reported(
            Severity::Warning,
            clipboard_warning(e@),
        ),
{
}

} // verus!

//! What scripts ask of the editor.

use crate::buffer::FileMeta;
use crate::buffer_store::BufferId;
use crate::command::{Cmd, MappableCommand};
use crate::execute::{cursor_inside, cursor_line, is_native};
use crate::focus::Focus;
use crate::paths::FilePath;
use crate::ops::{closed, opened_as, place_kept, turned, Workspace};
use crate::registry::CommandRegistry;
use crate::search::MotionMode;
use crate::strings::{concat2, concat3, decimal, decimal_string};
use crate::typed_buffers::{found_at, nothing_at};
use vstd::prelude::*;
use vstd::string::*;

verus! {

/// The modes that scripts bind keys in.
#[derive(Debug, Clone, Copy, PartialEq, Eq, Structural)]
pub enum ScriptBindMode {
    Normal,
    Extend,
    Insert,
}

/// The keymap that a script's mode stands for.
pub fn to_editor_bind_mode(mode: ScriptBindMode) -> (r: crate::keymap::BindMode)
    ensures
        r == (match mode {
            ScriptBindMode::Normal => crate::keymap::BindMode::Normal,
            ScriptBindMode::Extend => crate::keymap::BindMode::Extend,
            ScriptBindMode::Insert => crate::keymap::BindMode::Insert,
        }),
{
    match mode {
        ScriptBindMode::Normal => crate::keymap::BindMode::Normal,
        ScriptBindMode::Extend => crate::keymap::BindMode::Extend,
        ScriptBindMode::Insert => crate::keymap::BindMode::Insert,
    }
}

/// Whether a command runs at once when a script calls it; an error where there is no such
/// command.
pub fn command_is_native(registry: &CommandRegistry, name: &str) -> (r: Result<bool, String>)
    ensures
        match registry.mappable(name@) {
            Some(c) => r == Ok::<bool, String>(c.native()),
            None => r is Err && r->Err_0@ == "unknown command: "@ + name@,
        },
{
    match registry.get_mappable(name) {
        Some(c) => Ok(is_native(c)),
        None => Err(concat2("unknown command: ", name)),
    }
}

/// What a native command is.
#[derive(Debug, Clone, Copy, PartialEq, Eq, Structural)]
pub enum NativeKind {
    Motion,
    Selection,
    Edit,
    EditorCmd,
}

/// The kind of a native command.
pub open spec fn kind_of(c: Cmd) -> NativeKind {
    match c {
        Cmd::Motion { .. } => NativeKind::Motion,
        Cmd::Selection { .. } => NativeKind::Selection,
        Cmd::Edit { .. } => NativeKind::Edit,
        _ => NativeKind::EditorCmd,
    }
}

/// Finds how a native command is run that a script calls; an error where there is no such
/// command. Only native commands are called like this: see [`command_is_native`].
pub fn run_command_sync(registry: &CommandRegistry, name: &str, extend: bool) -> (r: Result<
    (NativeKind, MotionMode),
    String,
>)
    requires
        registry.mappable(name@) matches Some(c) ==> c.native(),
    ensures
        match registry.mappable(name@) {
            Some(c) => r == Ok::<(NativeKind, MotionMode), String>(
                (
                    kind_of(c),
                    if extend {
                        MotionMode::Extend
                    } else {
                        MotionMode::Move
                    },
                ),
            ),
            None => r is Err && r->Err_0@ == "unknown command: "@ + name@,
        },
{
    let mode = if extend {
        MotionMode::Extend
    } else {
        MotionMode::Move
    };
    match registry.get_mappable(name) {
        Some(c) => {
            let kind = match c {
                MappableCommand::Motion { .. } => NativeKind::Motion,
                MappableCommand::Selection { .. } => NativeKind::Selection,
                MappableCommand::Edit { .. } => NativeKind::Edit,
                _ => NativeKind::EditorCmd,
            };
            Ok((kind, mode))
        },
        None => Err(concat2("unknown command: ", name)),
    }
}

/// How an identifier is shown: its slot and its version.
pub open spec fn id_text(id: u64) -> Seq<char> {
    "BufferId("@ + decimal((id % 0x1_0000_0000) as nat) + "v"@ + decimal(
        (id / 0x1_0000_0000) as nat,
    ) + ")"@
}

fn show_id(id: u64) -> (r: String)
    ensures
        r@ == id_text(id),
{
    let index: u32 = (id % 0x1_0000_0000) as u32;
    let version: u32 = (id / 0x1_0000_0000) as u32;
    let head = concat3("BufferId(", decimal_string(index as usize).as_str(), "v");
    concat3(head.as_str(), decimal_string(version as usize).as_str(), ")")
}

impl Workspace {
    /// Closes a buffer for a script; an error where it is not open. The buffer that the
    /// focused pane shows then comes back.
    pub fn host_close_buffer(&mut self, id: BufferId) -> (r: Result<BufferId, String>)
        requires
            old(self).wf(),
        ensures
            final(self).wf(),
            if old(self).buffers@.contains_key(id.0) {
                &&& r is Ok
                &&& r->Ok_0.0 == final(self).shown()
                &&& closed(*old(self), *final(self), id.0)
            } else {
                &&& r is Err
                &&& r->Err_0@ == "close-buffer!: buffer "@ + id_text(id.0) + " does not exist"@
                &&& *final(self) == *old(self)
            },
    {
        self.buffers.check_orders();
        if self.buffers.try_get(id).is_none() {
            return Err(
                concat3("close-buffer!: buffer ", show_id(id.0).as_str(), " does not exist"),
            );
        }
        Ok(self.close_buffer(id))
    }

    /// Turns the focused pane to a buffer for a script.
    pub fn host_switch_to_buffer(&mut self, target: BufferId)
        requires
            old(self).wf(),
            old(self).buffers@.contains_key(target.0),
        ensures
            final(self).wf(),
            final(self).shown() == target.0,
            turned(*old(self), *final(self), old(self).focused.0, target.0),
            place_kept(*old(self), *final(self)),
    {
        self.switch_to_buffer_with_jump(target);
    }

    /// Whether a buffer is open.
    pub fn buffer_exists(&self, id: BufferId) -> (r: bool)
        ensures
            r == self.buffers@.contains_key(id.0),
    {
        self.buffers.try_get(id).is_some()
    }

    /// The path of a buffer that is open and has one.
    pub fn buffer_path(&self, id: BufferId) -> (r: Option<&FilePath>)
        ensures
            match r {
                Some(p) => self.buffers@.contains_key(id.0) && self.buffers@[id.0].path == Some(*p),
                None => !(self.buffers@.contains_key(id.0) && self.buffers@[id.0].path is Some),
            },
    {
        match self.buffers.try_get(id) {
            Some(b) => b.path(),
            None => None,
        }
    }

    /// The name that a buffer is shown under, if it is open.
    pub fn buffer_display_name(&self, id: BufferId) -> (r: Option<String>)
        ensures
            match r {
                Some(n) => self.buffers@.contains_key(id.0) && n@
                    == self.buffers@[id.0].spec_display_name(),
                None => !self.buffers@.contains_key(id.0),
            },
    {
        match self.buffers.try_get(id) {
            Some(b) => Some(b.display_name()),
            None => None,
        }
    }

    /// Whether a buffer has changes that are not saved, if it is open.
    pub fn buffer_is_dirty(&self, id: BufferId) -> (r: Option<bool>)
        ensures
            r == (if self.buffers@.contains_key(id.0) {
                Some(self.buffers@[id.0].dirty())
            } else {
                None
            }),
    {
        match self.buffers.try_get(id) {
            Some(b) => Some(b.is_dirty()),
            None => None,
        }
    }

    /// The language of a buffer that is open and has one.
    pub fn buffer_stored_language(&self, id: BufferId) -> (r: Option<String>)
        ensures
            match r {
                Some(l) => self.buffers@.contains_key(id.0) && self.buffers@[id.0].language is Some
                    && self.buffers@[id.0].language->0@ == l@,
                None => !(self.buffers@.contains_key(id.0) && self.buffers@[id.0].language is Some),
            },
    {
        match self.buffers.try_get(id) {
            Some(b) => match &b.language {
                Some(l) => Some(l.clone()),
                None => None,
            },
            None => None,
        }
    }

    /// Opens a file for a script, without showing it. `canonical` is its path with links
    /// resolved, or why that failed; `read` is what was read of it, or why that failed.
    pub fn host_open_buffer(
        &mut self,
        path: &str,
        canonical: Result<String, String>,
        read: Result<(String, FileMeta), String>,
    ) -> (r: Result<BufferId, String>)
        requires
            old(self).wf(),
            old(self).buffer_ids@.len() < 0xffff_fffe,
            read matches Ok(f) ==> f.1.resolved_path.base() is Some,
        ensures
            final(self).wf(),
            match canonical {
                Err(e) => {
                    &&& r is Err
                    &&& r->Err_0@ == "open-buffer!: "@ + path@ + ": "@ + e@
                    &&& *final(self) == *old(self)
                },
                Ok(c) => if !nothing_at(old(self).buffers@, c@) {
                    &&& r is Ok
                    &&& *final(self) == *old(self)
                    &&& found_at(old(self).buffers, c@, r->Ok_0.0)
                } else {
                    match read {
                        Err(e) => {
                            &&& r is Err
                            &&& r->Err_0@ == "open-buffer!: "@ + c@ + ": "@ + e@
                            &&& *final(self) == *old(self)
                        },
                        Ok((content, meta)) => {
                            &&& r is Ok
                            &&& !old(self).buffers@.contains_key(r->Ok_0.0)
                            &&& final(self).buffers@ == old(self).buffers@.insert(
                                r->Ok_0.0,
                                final(self).buffers@[r->Ok_0.0],
                            )
                            &&& final(self).buffers@[r->Ok_0.0].is_of_file(content@, meta)
                            &&& opened_as(*old(self), *final(self), r->Ok_0.0)
                        },
                    }
                },
            },
    {
        let c = match canonical {
            Ok(c) => c,
            Err(e) => {
                let head = concat3("open-buffer!: ", path, ": ");
                return Err(concat2(head.as_str(), e.as_str()));
            },
        };
        match self.open_or_dedup(c.as_str(), read) {
            Ok((id, _)) => Ok(id),
            Err(e) => {
                let head = concat3("open-buffer!: ", c.as_str(), ": ");
                Err(concat2(head.as_str(), e.as_str()))
            },
        }
    }
}

impl Focus {
    /// The line of the primary cursor, counted from one.
    pub fn current_line_number(&self) -> (r: usize)
        requires
            cursor_inside(*self),
        ensures
            r == cursor_line(*self) + 1,
    {
        let primary = self.here.selections.primary();
        proof {
            crate::grapheme::lemma_newlines_bound(self.text().take(primary.head as int));
            crate::text::lemma_newlines_take(self.text(), primary.head as int);
        }
        let lines = self.doc.text.len_lines();
        let line = self.doc.text.char_to_line(primary.head);
        assert(line < lines);
        line + 1
    }

    /// The position of the primary cursor.
    pub fn cursor_char_index(&self) -> (r: usize)
        ensures
            r == self.primary().head,
    {
        self.here.selections.primary().head
    }
}

/// What went wrong with attaching a grammar.
pub fn grammar_error(name: &str, error: &str) -> (r: String)
    ensures
        r@ == "register-grammar! '"@ + name@ + "': "@ + error@,
{
    let head = concat3("register-grammar! '", name, "': ");
    concat2(head.as_str(), error)
}

/// What went wrong with the elements of one part of the status line.
pub fn statusline_error(section: &str, error: &str) -> (r: String)
    ensures
        r@ == "configure-statusline! "@ + section@ + ": "@ + error@,
{
    let head = concat3("configure-statusline! ", section, ": ");
    concat2(head.as_str(), error)
}

/// Motions, selections and edits are told apart; every other native command works on the editor
/// as a whole.
pub proof fn law_kinds_of_native_commands(c: Cmd)
    ensures
        kind_of(c) == NativeKind::Motion <==> c is Motion,
        kind_of(c) == NativeKind::Selection <==> c is Selection,
        kind_of(c) == NativeKind::Edit <==> c is Edit,
        c is EditorCmd ==> kind_of(c) == NativeKind::EditorCmd,
{
}

/// An identifier is shown by its slot and, behind a `v`, its version.
pub proof fn law_identifiers_are_shown(slot: u32, version: u32, id: u64)
    requires
        id == version * 0x1_0000_0000 + slot,
    ensures
        id_text(id) == "BufferId("@ + decimal(slot as nat) + "v"@ + decimal(version as nat) + ")"@,
{
    assert(id % 0x1_0000_0000 == slot && id / 0x1_0000_0000 == version) by (nonlinear_arith)
        requires
            id == version * 0x1_0000_0000 + slot,
            0 <= slot < 0x1_0000_0000,
    ;
}

} // verus!

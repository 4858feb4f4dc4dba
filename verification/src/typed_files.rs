//! Typed commands on files: opening, reloading, writing, quitting.

use crate::buffer::{same_document, Buffer, BufferOverrides, FileMeta, WrapMode};
use crate::buffer_store::{last_other, BufferId, BufferStore};
use crate::message_log::Severity;
use crate::messages::{fails, CommandError, Messages, Shown};
use crate::ops::{closed, opened_as, replaced_by, Workspace};
use crate::pane_state::{Scroll, Viewport};
use crate::paths::FilePath;
use crate::state::EditorState;
use crate::strings::{concat2, concat3, decimal, decimal_string};
use crate::text::{closed_lines, newlines, with_cr, without_cr, LineEnding};
use crate::typed_buffers::{find_buffer_by_path_arg, found_at, nothing_at};
use vstd::prelude::*;
use vstd::string::*;

verus! {

/// "`path`: `error`".
pub open spec fn path_error(path: Seq<char>, error: Seq<char>) -> Seq<char> {
    path + ": "@ + error
}

fn path_failure(path: &str, error: &str) -> (r: CommandError)
    ensures
        r.message@ == path_error(path@, error@),
{
    CommandError { message: concat3(path, ": ", error) }
}

/// After the buffer `b` was opened and the focused pane turned to it.
pub open spec fn opened_and_shown(before: Workspace, after: Workspace, b: u64) -> bool {
    exists|mid: Workspace| #[trigger]
        opened_as(before, mid, b) && mid.buffers@ == after.buffers@ && mid.shows_now(after, b)
}

impl Workspace {
    /// Opens the file `path` in the focused pane. Where a buffer of the file is open, the
    /// pane turns to it, even when the file is gone. `canonical` is the path with links
    /// resolved, or why that failed, `absolute` the absolute path, and `read` what was read
    /// of the file, or why that failed; it is only looked at where no buffer is open. The
    /// buffer comes back.
    pub fn typed_edit(
        &mut self,
        messages: &mut Messages,
        path: &str,
        canonical: Result<FilePath, String>,
        absolute: Option<&str>,
        read: Result<(String, FileMeta), String>,
    ) -> (r: Result<BufferId, CommandError>)
        requires
            old(self).wf(),
            old(self).buffer_ids@.len() < 0xffff_fffe,
            read matches Ok(f) ==> f.1.resolved_path.base() is Some,
        ensures
            final(self).wf(),
            ({
                let open_there = (canonical is Ok && !nothing_at(
                    old(self).buffers@,
                    canonical->Ok_0@,
                )) || (absolute is Some && !nothing_at(old(self).buffers@, absolute->0@));
                if open_there {
                    &&& r is Ok
                    &&& if canonical is Ok && !nothing_at(old(self).buffers@, canonical->Ok_0@) {
                        found_at(old(self).buffers, canonical->Ok_0@, r->Ok_0.0)
                    } else {
                        found_at(old(self).buffers, absolute->0@, r->Ok_0.0)
                    }
                    &&& old(self).shows_now(*final(self), r->Ok_0.0)
                    &&& final(messages)@ == old(messages)@
                } else {
                    match canonical {
                        Err(e) => {
                            &&& fails(r, path_error(path@, e@))
                            &&& *final(self) == *old(self)
                            &&& final(messages)@ == old(messages)@
                        },
                        Ok(c) => match read {
                            Err(e) => {
                                &&& fails(r, path_error(path@, e@))
                                &&& *final(self) == *old(self)
                                &&& final(messages)@ == old(messages)@
                            },
                            Ok((content, meta)) => {
                                &&& r is Ok
                                &&& !old(self).buffers@.contains_key(r->Ok_0.0)
                                &&& final(self).shown() == r->Ok_0.0
                                &&& final(self).document().is_of_file(content@, meta)
                                &&& final(self).buffers@ == old(self).buffers@.insert(
                                    r->Ok_0.0,
                                    final(self).document(),
                                )
                                &&& opened_and_shown(*old(self), *final(self), r->Ok_0.0)
                                &&& final(messages)@ == old(messages)@.reported(
                                    Severity::Info,
                                    "Opened "@ + (match c.base() {
                                        Some(n) => n,
                                        None => path@,
                                    }),
                                )
                            },
                        },
                    }
                }
            }),
    {
        let known: Option<&str> = match &canonical {
            Ok(c) => Some(c.as_str()),
            Err(_) => None,
        };
        if let Some(bid) = find_buffer_by_path_arg(&self.buffers, known, absolute) {
            self.show_buffer(bid);
            return Ok(bid);
        }
        let c = match canonical {
            Ok(c) => c,
            Err(e) => {
                return Err(path_failure(path, e.as_str()));
            },
        };
        match self.open_or_dedup(c.as_str(), read) {
            Ok((bid, is_new)) => {
                if is_new {
                    let name = match c.file_name() {
                        Some(n) => n,
                        None => path.to_owned(),
                    };
                    let ghost mid = *self;
                    self.show_buffer(bid);
                    proof {
                        assert(mid.pane_ok(mid.focused.0));
                        assert(opened_as(*old(self), mid, bid.0));
                    }
                    messages.report(Severity::Info, concat2("Opened ", name.as_str()));
                } else {
                    self.show_buffer(bid);
                }
                Ok(bid)
            },
            Err(e) => Err(path_failure(path, e.as_str())),
        }
    }

    /// Reads the file of the focused buffer again. Without a file, only a forced reload
    /// does something: it empties the buffer. Changes that are not saved are only dropped
    /// by force. `read` is what was read of the file, or why that failed; it is only looked
    /// at where the file is to be read.
    pub fn typed_reload(
        &mut self,
        messages: &mut Messages,
        force: bool,
        read: Result<(String, FileMeta), String>,
    ) -> (r: Result<(), CommandError>)
        requires
            old(self).wf(),
            read matches Ok(f) ==> f.1.resolved_path.base() is Some,
        ensures
            final(self).wf(),
            match old(self).document().path {
                None => {
                    &&& final(messages)@ == old(messages)@
                    &&& if force {
                        &&& r is Ok
                        &&& final(self).document().is_scratch()
                        &&& replaced_by(
                            *old(self),
                            *final(self),
                            old(self).shown(),
                            final(self).document(),
                        )
                    } else {
                        fails(r, "no file name"@) && *final(self) == *old(self)
                    }
                },
                Some(path) => if old(self).document().dirty() && !force {
                    &&& fails(r, "unsaved changes (use :e! to force)"@)
                    &&& *final(self) == *old(self)
                    &&& final(messages)@ == old(messages)@
                } else {
                    match read {
                        Ok((content, meta)) => {
                            &&& r is Ok
                            &&& final(self).document().is_of_file(content@, meta)
                            &&& replaced_by(
                                *old(self),
                                *final(self),
                                old(self).shown(),
                                final(self).document(),
                            )
                            &&& final(messages)@ == old(messages)@.reported(
                                Severity::Info,
                                "Reloaded "@ + (match path.base() {
                                    Some(n) => n,
                                    None => ""@,
                                }),
                            )
                        },
                        Err(e) => {
                            &&& fails(r, path_error(path@, e@))
                            &&& *final(self) == *old(self)
                            &&& final(messages)@ == old(messages)@
                        },
                    }
                },
            },
    {
        let ghost o = *self;
        let id = self.focused_buffer_id();
        assert(o.pane_ok(o.focused.0));
        let path: FilePath = match &self.doc().path {
            Some(p) => p.clone(),
            None => {
                if force {
                    self.replace_buffer_in_place(id, Buffer::scratch());
                    return Ok(());
                }
                return Err(CommandError::new("no file name"));
            },
        };
        if self.doc().is_dirty() && !force {
            return Err(CommandError::new("unsaved changes (use :e! to force)"));
        }
        match read {
            Ok((content, meta)) => {
                let doc = Buffer::from_file(content.as_str(), meta);
                self.replace_buffer_in_place(id, doc);
                let name = match path.file_name() {
                    Some(n) => n,
                    None => String::new(),
                };
                proof {
                    reveal_strlit("");
                    assert(Seq::<char>::empty() =~= ""@);
                }
                messages.report(Severity::Info, concat2("Reloaded ", name.as_str()));
                Ok(())
            },
            Err(e) => Err(path_failure(path.as_str(), e.as_str())),
        }
    }

    /// Closes the focused buffer. Changes that are not saved are only dropped by force.
    pub fn typed_buffer_delete(&mut self, force: bool) -> (r: Result<(), CommandError>)
        requires
            old(self).wf(),
        ensures
            final(self).wf(),
            if old(self).document().dirty() && !force {
                fails(r, "unsaved changes (use :bd! to force)"@) && *final(self) == *old(self)
            } else {
                &&& r is Ok
                &&& closed(*old(self), *final(self), old(self).shown())
            },
    {
        if self.doc().is_dirty() && !force {
            return Err(CommandError::new("unsaved changes (use :bd! to force)"));
        }
        let id = self.focused_buffer_id();
        assert(self.pane_ok(self.focused.0));
        let _ = self.close_buffer(id);
        Ok(())
    }
}

/// Whether a buffer is worth staying for: it has a file, or can be edited.
pub open spec fn worth_staying(b: Buffer) -> bool {
    b.path is Some || !b.read_only
}

/// Some open buffer besides `current` is worth staying for.
pub open spec fn others_open(store: BufferStore, current: u64) -> bool {
    exists|i: int|
        0 <= i < store.opened().len() && #[trigger] store.opened()[i] != current && worth_staying(
            store@[store.opened()[i]],
        )
}

/// Some open buffer has changes that are not saved.
pub open spec fn some_dirty(store: BufferStore) -> bool {
    exists|i: int|
        0 <= i < store.opened().len() && store@[#[trigger] store.opened()[i]].dirty()
}

fn any_other_real(store: &BufferStore, current: BufferId) -> (r: bool)
    ensures
        r == others_open(*store, current.0),
{
    let ids = store.ids();
    let n = ids.len();
    let mut i: usize = 0;
    while i < n
        invariant
            i <= n == ids@.len(),
            store.opened() == ids@.map_values(|b: BufferId| b.0),
            forall|j: int| 0 <= j < ids@.len() ==> store@.contains_key((#[trigger] ids@[j]).0),
            forall|j: int|
                0 <= j < i ==> #[trigger] store.opened()[j] == current.0 || !worth_staying(
                    store@[store.opened()[j]],
                ),
        decreases n - i,
    {
        let id = ids[i];
        assert(store.opened()[i as int] == id.0);
        let b = store.get(id);
        if id.0 != current.0 && (b.path.is_some() || !b.read_only) {
            return true;
        }
        i = i + 1;
    }
    false
}

fn any_dirty(store: &BufferStore) -> (r: bool)
    ensures
        r == some_dirty(*store),
{
    let ids = store.ids();
    let n = ids.len();
    let mut i: usize = 0;
    while i < n
        invariant
            i <= n == ids@.len(),
            store.opened() == ids@.map_values(|b: BufferId| b.0),
            forall|j: int| 0 <= j < ids@.len() ==> store@.contains_key((#[trigger] ids@[j]).0),
            forall|j: int| 0 <= j < i ==> !store@[#[trigger] store.opened()[j]].dirty(),
        decreases n - i,
    {
        let id = ids[i];
        assert(store.opened()[i as int] == id.0);
        if store.get(id).is_dirty() {
            return true;
        }
        i = i + 1;
    }
    false
}

/// What quitting the focused buffer does.
pub open spec fn quit_done(
    before: (Workspace, EditorState),
    after: (Workspace, EditorState),
    force: bool,
    r: Result<(), CommandError>,
) -> bool {
    let (ws, state) = before;
    if ws.document().dirty() && !force {
        fails(r, "Unsaved changes (add ! to override)"@) && after == before
    } else if others_open(ws.buffers, ws.shown()) {
        r is Ok && closed(ws, after.0, ws.shown()) && after.1 == state
    } else {
        r is Ok && after == (ws, EditorState { should_quit: true, ..state })
    }
}

/// What quitting the editor does, with these buffers open.
pub open spec fn quit_all_done(
    store: BufferStore,
    before: EditorState,
    after: EditorState,
    force: bool,
    r: Result<(), CommandError>,
) -> bool {
    if some_dirty(store) && !force {
        fails(r, "Unsaved changes in open buffers (add ! to override)"@) && after == before
    } else {
        r is Ok && after == (EditorState { should_quit: true, ..before })
    }
}

/// Quits the focused buffer: closes it, or the editor where nothing else is worth staying
/// for. Changes that are not saved are only dropped by force.
pub fn typed_quit(ws: &mut Workspace, state: &mut EditorState, force: bool) -> (r: Result<
    (),
    CommandError,
>)
    requires
        old(ws).wf(),
    ensures
        final(ws).wf(),
        quit_done((*old(ws), *old(state)), (*final(ws), *final(state)), force, r),
{
    if !force && ws.doc().is_dirty() {
        return Err(CommandError::new("Unsaved changes (add ! to override)"));
    }
    let current = ws.focused_buffer_id();
    if any_other_real(&ws.buffers, current) {
        assert(ws.pane_ok(ws.focused.0));
        let _ = ws.close_buffer(current);
    } else {
        state.should_quit = true;
    }
    Ok(())
}

/// Quits the editor. Changes that are not saved, in any buffer, are only dropped by force.
pub fn typed_quit_all(ws: &Workspace, state: &mut EditorState, force: bool) -> (r: Result<
    (),
    CommandError,
>)
    ensures
        quit_all_done(ws.buffers, *old(state), *final(state), force, r),
{
    if !force && any_dirty(&ws.buffers) {
        return Err(CommandError::new("Unsaved changes in open buffers (add ! to override)"));
    }
    state.should_quit = true;
    Ok(())
}

/// How serious the message about a written file is: a file that had to be made writable
/// first is worth a warning.
pub fn write_severity(forced: bool) -> (r: Severity)
    ensures
        r == (if forced {
            Severity::Warning
        } else {
            Severity::Info
        }),
{
    if forced {
        Severity::Warning
    } else {
        Severity::Info
    }
}

/// The message about a written file.
pub open spec fn written_message(lines: nat, forced: bool) -> Seq<char> {
    "Written "@ + decimal(lines) + (if forced {
        " lines (forced)"@
    } else {
        " lines"@
    })
}

/// The message about a written file.
pub fn write_msg(line_count: usize, forced: bool) -> (r: String)
    ensures
        r@ == written_message(line_count as nat, forced),
{
    let n = decimal_string(line_count);
    if forced {
        concat3("Written ", n.as_str(), " lines (forced)")
    } else {
        concat3("Written ", n.as_str(), " lines")
    }
}

/// What is to be written of a buffer: its text, with the line breaks of its file, and the
/// number of its lines.
pub fn written_content(doc: &Buffer) -> (r: (String, usize))
    ensures
        r.0@ == (match doc.text.spec_line_ending() {
            LineEnding::Lf => doc.doc(),
            LineEnding::CrLf => with_cr(doc.doc()),
        }),
        r.1 == newlines(doc.doc()),
{
    let lines = doc.text.len_lines();
    (doc.text.file_content(), lines - 1)
}

/// Whether the buffer can be written to its own file.
pub fn check_writable(doc: &Buffer) -> (r: Result<(), CommandError>)
    ensures
        if doc.read_only {
            fails(r, "Buffer is read-only"@)
        } else if doc.file_meta is None {
            fails(r, "no file name"@)
        } else {
            r is Ok
        },
{
    if doc.read_only {
        return Err(CommandError::new("Buffer is read-only"));
    }
    if doc.file_meta.is_none() {
        return Err(CommandError::new("no file name"));
    }
    Ok(())
}

/// Takes note of what came of writing the buffer to its own file: whether the file had to
/// be made writable first, or why it failed.
pub fn file_written(doc: &mut Buffer, messages: &mut Messages, result: Result<bool, String>) -> (r:
    Result<(), CommandError>)
    ensures
        match result {
            Ok(forced) => {
                &&& r is Ok
                &&& saved_as_it_is(*old(doc), *final(doc))
                &&& final(doc).spec_path() == old(doc).spec_path()
                &&& final(doc).file_meta == old(doc).file_meta
                &&& final(messages)@ == wrote(old(messages)@, old(doc).doc(), forced)
            },
            Err(e) => {
                &&& fails(r, e@)
                &&& *final(doc) == *old(doc)
                &&& final(messages)@ == old(messages)@
            },
        },
{
    match result {
        Ok(forced) => {
            let lines = doc.text.len_lines() - 1;
            doc.mark_saved();
            messages.report(write_severity(forced), write_msg(lines, forced));
            Ok(())
        },
        Err(e) => Err(CommandError { message: e }),
    }
}

/// The messages after a text was written.
pub open spec fn wrote(before: Shown, text: Seq<char>, forced: bool) -> Shown {
    before.reported(
        if forced {
            Severity::Warning
        } else {
            Severity::Info
        },
        written_message(newlines(text), forced),
    )
}

/// The buffer counts as saved, and its text and history are as they were.
pub open spec fn saved_as_it_is(before: Buffer, after: Buffer) -> bool {
    &&& same_document(after, before)
    &&& !after.dirty()
    &&& after.search_pattern == before.search_pattern
    &&& after.search_matches == before.search_matches
    &&& after.overrides == before.overrides
    &&& after.language == before.language
    &&& after.syntax == before.syntax
    &&& after.read_only == before.read_only
    &&& after.label == before.label
}

/// Takes note of what came of writing the buffer to another file: the file, and whether it
/// had to be made writable first, or why it failed. From now on that is the buffer's file,
/// unless the buffer is a view.
pub fn file_written_as(
    doc: &mut Buffer,
    messages: &mut Messages,
    result: Result<(FileMeta, bool), String>,
) -> (r: Result<(), CommandError>)
    requires
        result matches Ok(f) ==> f.0.resolved_path.base() is Some,
    ensures
        match result {
            Ok((meta, forced)) => {
                let view = old(doc).spec_path() is None && old(doc).label is Some;
                &&& r is Ok
                &&& saved_as_it_is(*old(doc), *final(doc))
                &&& final(messages)@ == wrote(old(messages)@, old(doc).doc(), forced)
                &&& if view {
                    final(doc).spec_path() is None && final(doc).file_meta == old(doc).file_meta
                } else {
                    final(doc).spec_path() == Some(meta.resolved_path) && final(doc).file_meta
                        == Some(meta)
                }
            },
            Err(e) => {
                &&& fails(r, e@)
                &&& *final(doc) == *old(doc)
                &&& final(messages)@ == old(messages)@
            },
        },
{
    match result {
        Ok((meta, forced)) => {
            let lines = doc.text.len_lines() - 1;
            if !doc.is_synthetic() {
                doc.set_path(Some(meta.resolved_path.clone()));
                doc.file_meta = Some(meta);
            }
            doc.mark_saved();
            messages.report(write_severity(forced), write_msg(lines, forced));
            Ok(())
        },
        Err(e) => Err(CommandError { message: e }),
    }
}

/// Quits after writing. By force, the editor quits even when writing failed.
pub fn typed_write_quit(state: &mut EditorState, force: bool, written: Result<(), CommandError>)
    -> (r: Result<(), CommandError>)
    ensures
        r == written,
        *final(state) == (EditorState {
            should_quit: old(state).should_quit || written is Ok || force,
            ..*old(state)
        }),
{
    if written.is_ok() || force {
        state.should_quit = true;
    }
    written
}

/// Whether long lines are wrapped in a buffer, where `global` is the editor-wide setting.
pub open spec fn wrapping(o: BufferOverrides, global: WrapMode) -> bool {
    match o.wrap_mode {
        Some(m) => m.wraps(),
        None => global.wraps(),
    }
}

/// Switches the wrapping of long lines on or off in one buffer. A buffer that begins to
/// wrap is no longer scrolled to the side.
pub fn typed_toggle_soft_wrap(
    doc: &mut Buffer,
    viewport: &mut Viewport,
    messages: &mut Messages,
    global: WrapMode,
)
    ensures
        ({
            let was = wrapping(old(doc).overrides, global);
            &&& *final(doc) == (Buffer {
                overrides: BufferOverrides {
                    wrap_mode: Some(
                        if was {
                            WrapMode::Off
                        } else {
                            WrapMode::Indent { width: 0 }
                        },
                    ),
                },
                ..*old(doc)
            })
            &&& *final(viewport) == (if was {
                *old(viewport)
            } else {
                Viewport {
                    scroll: Scroll {
                        horizontal_offset: 0,
                        top_row_offset: 0,
                        ..old(viewport).scroll
                    },
                    ..*old(viewport)
                }
            })
            &&& final(messages)@ == old(messages)@.reported(
                Severity::Info,
                if was {
                    "Soft wrap off"@
                } else {
                    "Soft wrap on"@
                },
            )
        }),
{
    let was = match doc.overrides.wrap_mode {
        Some(m) => m.is_wrapping(),
        None => global.is_wrapping(),
    };
    if was {
        doc.overrides = BufferOverrides { wrap_mode: Some(WrapMode::Off) };
        messages.report(Severity::Info, "Soft wrap off".to_owned());
    } else {
        doc.overrides = BufferOverrides { wrap_mode: Some(WrapMode::Indent { width: 0 }) };
        viewport.scroll.horizontal_offset = 0;
        viewport.scroll.top_row_offset = 0;
        messages.report(Severity::Info, "Soft wrap on".to_owned());
    }
}

/// Takes note of a change of directory. `target` is the directory that was asked for, or
/// else the home directory, if there is one, and `result` the one that was found, or why that failed.
pub fn typed_cd(messages: &mut Messages, target: Option<&str>, result: Result<String, String>) -> (r:
    Result<(), CommandError>)
    ensures
        match target {
            None => fails(r, "HOME not set"@) && final(messages)@ == old(messages)@,
            Some(t) => match result {
                Ok(dir) => {
                    &&& r is Ok
                    &&& final(messages)@ == old(messages)@.reported(
                        Severity::Info,
                        "cwd: "@ + dir@,
                    )
                },
                Err(e) => fails(r, path_error(t@, e@)) && final(messages)@ == old(messages)@,
            },
        },
{
    match target {
        None => Err(CommandError::new("HOME not set")),
        Some(t) => match result {
            Ok(dir) => {
                messages.report(Severity::Info, concat2("cwd: ", dir.as_str()));
                Ok(())
            },
            Err(e) => Err(path_failure(t, e.as_str())),
        },
    }
}

/// A buffer that is opened and shown is what the focused pane shows from then on, and a step
/// back leads to where the pane was.
pub proof fn law_opened_buffer_is_shown(before: Workspace, after: Workspace, b: u64)
    requires
        opened_and_shown(before, after, b),
        before.wf(),
        !before.buffers@.contains_key(b),
    ensures
        after.shown() == b,
        after.focused == before.focused,
        after.jumps@[before.focused.0]@ == before.jumps@[before.focused.0]@.pushed(
            (before.here().selections@, before.shown()),
        ),
        after.buffers.used().last() == b,
{
    let mid = choose|mid: Workspace| #[trigger]
        opened_as(before, mid, b) && mid.buffers@ == after.buffers@ && mid.shows_now(after, b);
    assert(before.pane_ok(before.focused.0));
    assert(mid.shown() == before.shown());
    assert(mid.state@[mid.focused.0]@[mid.shown()] == before.here());
}

/// A text that was written is told of by the number of its lines. Where the file had to be made
/// writable for it, that is a warning.
pub proof fn law_written_text_is_told_of(before: Shown, lines: nat, text: Seq<char>)
    ensures
        written_message(1, false) == "Written 1 lines"@,
        written_message(lines, false) == "Written "@ + decimal(lines) + " lines"@,
        written_message(lines, true) == written_message(lines, false) + " (forced)"@,
        wrote(before, text, false).status == Some(written_message(newlines(text), false)),
        wrote(before, text, false).entries == before.entries,
        wrote(before, text, true).status == Some(written_message(newlines(text), true)),
        wrote(before, text, true).entries.last() == (
            Severity::Warning,
            written_message(newlines(text), true),
        ),
{
    reveal_strlit("Written ");
    reveal_strlit(" lines");
    reveal_strlit(" (forced)");
    reveal_strlit(" lines (forced)");
    reveal_strlit("Written 1 lines");
    assert(decimal(1) =~= seq!['1']);
    assert(written_message(1, false) =~= "Written 1 lines"@);
    assert(written_message(lines, true) =~= written_message(lines, false) + " (forced)"@);
}

/// What a buffer says of wrapping counts before what the editor says.
pub proof fn law_buffer_decides_wrapping(m: WrapMode, global: WrapMode)
    ensures
        wrapping(BufferOverrides { wrap_mode: Some(m) }, global) == !(m is Off),
        wrapping(BufferOverrides { wrap_mode: None }, global) == !(global is Off),
{
}

/// A buffer is worth staying for unless it is a view: without a file, and not to be edited.
pub proof fn law_views_are_not_worth_staying_for(b: Buffer)
    ensures
        worth_staying(b) <==> !(b.path is None && b.read_only),
{
}

/// Changes that are not saved are not dropped without force: the buffer stays open and the editor
/// running.
pub proof fn law_quitting_keeps_unsaved_changes(
    before: (Workspace, EditorState),
    after: (Workspace, EditorState),
    force: bool,
    r: Result<(), CommandError>,
)
    requires
        quit_done(before, after, force, r),
        before.0.document().dirty(),
    ensures
        !force ==> r is Err && after.0 == before.0 && after.1.should_quit == before.1.should_quit,
        force ==> r is Ok,
{
}

/// A buffer that is quit is closed where another one is worth staying for, and the editor ends
/// only where none is.
pub proof fn law_editor_ends_with_its_last_buffer(
    before: (Workspace, EditorState),
    after: (Workspace, EditorState),
    force: bool,
    r: Result<(), CommandError>,
    i: int,
)
    requires
        quit_done(before, after, force, r),
        force || !before.0.document().dirty(),
        !before.1.should_quit,
        0 <= i < before.0.buffers.opened().len(),
    ensures
        r is Ok,
        ({
            let k = before.0.buffers.opened()[i];
            let b = before.0.buffers@[k];
            k != before.0.shown() && (b.path is Some || !b.read_only) ==> !after.1.should_quit
                && closed(before.0, after.0, before.0.shown())
        }),
        (forall|j: int|
            0 <= j < before.0.buffers.opened().len() ==> #[trigger] before.0.buffers.opened()[j]
                == before.0.shown()) ==> after.1.should_quit && after.0 == before.0,
{
    let store = before.0.buffers;
    let k = store.opened()[i];
    if k != before.0.shown() && (store@[k].path is Some || !store@[k].read_only) {
        assert(worth_staying(store@[store.opened()[i]]));
        assert(others_open(store, before.0.shown()));
    }
}

/// The editor is quit as a whole without force only where no buffer has changes that are not
/// saved.
pub proof fn law_quitting_all_keeps_unsaved_changes(
    store: BufferStore,
    before: EditorState,
    after: EditorState,
    force: bool,
    r: Result<(), CommandError>,
    i: int,
)
    requires
        quit_all_done(store, before, after, force, r),
        0 <= i < store.opened().len(),
    ensures
        store@[store.opened()[i]].dirty() && !force ==> r is Err && after == before,
        force ==> r is Ok && after.should_quit,
        (forall|j: int| 0 <= j < store.opened().len() ==> !store@[#[trigger] store.opened()[j]].dirty())
            ==> r is Ok && after.should_quit,
{
}

} // verus!

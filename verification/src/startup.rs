//! Files that are opened at the start, the tutor, and hooks of scripts.

use crate::buffer::FileMeta;
use crate::buffer_store::BufferId;
use crate::execute::QueuedCommand;
use crate::message_log::Severity;
use crate::messages::{fails, CommandError, Messages};
use crate::ops::{opened_as, place_kept, turned, Workspace};
use crate::paths::{inside_dir, join_dir, Separators};
use crate::registry::CommandRegistry;
use crate::scripting::{
    dynamic, flush_script_messages, script_entries, unregister_dynamic_commands, LogLevel,
};
use crate::strings::{concat2, concat3};
use crate::typed_buffers::{found_at, nothing_at};
use crate::typed_files::opened_and_shown;
use vstd::prelude::*;
use vstd::string::*;

verus! {

/// A file that could not be found, or why it could not be looked at.
#[derive(Debug)]
pub enum FileError {
    NotFound,
    Failed { message: String },
}

/// Where the tutor comes from.
pub fn tutor_source(runtime: Option<&str>, separators: Separators) -> (r: Result<
    String,
    CommandError,
>)
    ensures
        match runtime {
            Some(d) => r is Ok && r->Ok_0@ == inside_dir(d@, "tutor.txt"@, separators),
            None => fails(r, "runtime directory not found (set HUME_RUNTIME to override)"@),
        },
{
    match runtime {
        Some(d) => Ok(join_dir(d, "tutor.txt", separators)),
        None => Err(
            CommandError::new("runtime directory not found (set HUME_RUNTIME to override)"),
        ),
    }
}

/// Where the copy of the tutor is put, so that it can be written to. `found` is what came
/// of looking for the tutor at `source`; `created` and `canonical` are what came of making
/// a directory for the copy and of resolving its path.
pub fn tutor_copy_path(
    source: &str,
    found: Result<(), FileError>,
    created: Result<(), String>,
    canonical: Result<String, String>,
    separators: Separators,
) -> (r: Result<String, CommandError>)
    ensures
        match found {
            Err(FileError::NotFound) => fails(
                r,
                "tutor.txt not found at "@ + source@ + " (set HUME_RUNTIME to override)"@,
            ),
            Err(FileError::Failed { message }) => fails(
                r,
                "could not access tutor.txt: "@ + message@,
            ),
            Ok(_) => match created {
                Err(e) => fails(r, "could not create tutor tmp dir: "@ + e@),
                Ok(_) => match canonical {
                    Err(e) => fails(r, "could not canonicalize tutor tmp dir: "@ + e@),
                    Ok(d) => r is Ok && r->Ok_0@ == inside_dir(d@, "tutor.txt"@, separators),
                },
            },
        },
{
    match found {
        Err(FileError::NotFound) => {
            let m = concat3("tutor.txt not found at ", source, " (set HUME_RUNTIME to override)");
            return Err(CommandError { message: m });
        },
        Err(FileError::Failed { message }) => {
            let m = concat2("could not access tutor.txt: ", message.as_str());
            return Err(CommandError { message: m });
        },
        Ok(_) => {},
    }
    match created {
        Err(e) => {
            let m = concat2("could not create tutor tmp dir: ", e.as_str());
            return Err(CommandError { message: m });
        },
        Ok(_) => {},
    }
    match canonical {
        Err(e) => Err(
            CommandError { message: concat2("could not canonicalize tutor tmp dir: ", e.as_str()) },
        ),
        Ok(d) => Ok(join_dir(d.as_str(), "tutor.txt", separators)),
    }
}

impl Workspace {
    /// Shows the copy of the tutor. Where it is open already, with changes or not, it is
    /// shown as it is. Otherwise `copied` and `read` are what came of making the copy anew
    /// and of reading it.
    pub fn typed_tutor(
        &mut self,
        copy: &str,
        copied: Result<(), String>,
        read: Result<(String, FileMeta), String>,
    ) -> (r: Result<BufferId, CommandError>)
        requires
            old(self).wf(),
            old(self).buffer_ids@.len() < 0xffff_fffe,
            read matches Ok(f) ==> f.1.resolved_path.base() is Some,
        ensures
            final(self).wf(),
            if !nothing_at(old(self).buffers@, copy@) {
                &&& r is Ok
                &&& found_at(old(self).buffers, copy@, r->Ok_0.0)
                &&& final(self).shown() == r->Ok_0.0
                &&& turned(*old(self), *final(self), old(self).focused.0, r->Ok_0.0)
                &&& place_kept(*old(self), *final(self))
            } else {
                match copied {
                    Err(e) => {
                        &&& fails(r, "could not copy tutor.txt to tmp: "@ + e@)
                        &&& *final(self) == *old(self)
                    },
                    Ok(_) => match read {
                        Err(e) => {
                            &&& fails(r, "could not open tutor copy: "@ + e@)
                            &&& *final(self) == *old(self)
                        },
                        Ok((content, meta)) => {
                            &&& r is Ok
                            &&& !old(self).buffers@.contains_key(r->Ok_0.0)
                            &&& final(self).shown() == r->Ok_0.0
                            &&& final(self).buffers@ == old(self).buffers@.insert(
                                r->Ok_0.0,
                                final(self).document(),
                            )
                            &&& final(self).document().is_of_file(content@, meta)
                            &&& opened_and_shown(*old(self), *final(self), r->Ok_0.0)
                        },
                    },
                }
            },
    {
        if let Some(id) = self.buffers.find_by_path(copy) {
            self.switch_to_buffer_with_jump(id);
            return Ok(id);
        }
        match copied {
            Err(e) => {
                let m = concat2("could not copy tutor.txt to tmp: ", e.as_str());
                return Err(CommandError { message: m });
            },
            Ok(_) => {},
        }
        match self.open_or_dedup(copy, read) {
            Ok((id, _)) => {
                let ghost mid = *self;
                self.switch_to_buffer_with_jump(id);
                proof {
                    assert(mid.pane_ok(mid.focused.0));
                    assert(opened_as(*old(self), mid, id.0));
                }
                Ok(id)
            },
            Err(e) => Err(
                CommandError { message: concat2("could not open tutor copy: ", e.as_str()) },
            ),
        }
    }

    /// Opens a file that was named at the start, besides the one that is shown. What goes
    /// wrong is reported. `canonical` is its path with links resolved, and `read` what came
    /// of reading it.
    pub fn open_extra_file(
        &mut self,
        messages: &mut Messages,
        path: &str,
        canonical: Result<String, String>,
        read: Result<(String, FileMeta), String>,
    )
        requires
            old(self).wf(),
            old(self).buffer_ids@.len() < 0xffff_fffe,
            read matches Ok(f) ==> f.1.resolved_path.base() is Some,
        ensures
            final(self).wf(),
            ({
                let failed = |e: Seq<char>|
                    *final(self) == *old(self) && final(messages)@ == old(messages)@.reported(
                        Severity::Warning,
                        "Failed to open "@ + path@ + ": "@ + e,
                    );
                match canonical {
                    Err(e) => failed(e@),
                    Ok(c) => if nothing_at(old(self).buffers@, c@) {
                        match read {
                            Err(e) => failed(e@),
                            Ok((content, meta)) => {
                                &&& final(messages)@ == old(messages)@
                                &&& exists|k: u64|
                                    {
                                        &&& !old(self).buffers@.contains_key(k)
                                        &&& #[trigger] opened_as(*old(self), *final(self), k)
                                        &&& final(self).buffers@ == old(self).buffers@.insert(
                                            k,
                                            final(self).buffers@[k],
                                        )
                                        &&& final(self).buffers@[k].is_of_file(content@, meta)
                                    }
                            },
                        }
                    } else {
                        *final(self) == *old(self) && final(messages)@ == old(messages)@
                    },
                }
            }),
    {
        let failure: Option<String> = match canonical {
            Err(e) => Some(e),
            Ok(c) => match self.open_or_dedup(c.as_str(), read) {
                Ok(_) => None,
                Err(e) => Some(e),
            },
        };
        match failure {
            Some(e) => {
                let head = concat3("Failed to open ", path, ": ");
                messages.report(Severity::Warning, concat2(head.as_str(), e.as_str()));
            },
            None => {},
        }
    }
}

/// Forgets all that scripts have defined, before the configuration is read again.
pub fn begin_reload_config(registry: &mut CommandRegistry)
    ensures
        forall|n: Seq<char>| #[trigger]
            final(registry).entry(n) == (if dynamic(old(registry).entry(n)) {
                None
            } else {
                old(registry).entry(n)
            }),
        final(registry).alias_map == old(registry).alias_map,
{
    unregister_dynamic_commands(registry);
}

/// Says that the configuration has been read again.
pub fn finish_reload_config(messages: &mut Messages)
    ensures
        final(messages)@ == old(messages)@.reported(Severity::Info, "Config reloaded"@),
{
    messages.report(Severity::Info, "Config reloaded".to_owned());
}

/// What the handlers of a hook have asked for.
pub struct HookResult<A> {
    pub cmd_queue: Vec<QueuedCommand<A>>,
    pub pending_language_sets: Vec<(BufferId, Option<String>)>,
    pub grammar_sweeps: Vec<String>,
}

/// Takes note of what the handlers of a hook did. Their messages are reported, and an error
/// behind them. What they have asked for comes back: first the languages are set, then the
/// grammars swept, then the commands carried out.
pub fn hook_fired<A>(
    messages: &mut Messages,
    pending: &Vec<(LogLevel, String)>,
    result: Result<HookResult<A>, String>,
) -> (r: Option<HookResult<A>>)
    ensures
        match result {
            Ok(h) => {
                &&& r == Some(h)
                &&& final(messages)@ == old(messages)@.reported_all(script_entries(pending@))
            },
            Err(e) => {
                &&& r is None
                &&& final(messages)@ == old(messages)@.reported_all(
                    script_entries(pending@),
                ).reported(Severity::Error, "hook error: "@ + e@)
            },
        },
{
    flush_script_messages(messages, pending);
    match result {
        Ok(h) => Some(h),
        Err(e) => {
            messages.report(Severity::Error, concat2("hook error: ", e.as_str()));
            None
        },
    }
}

/// What a script's command has asked for.
pub struct ScriptResult<A> {
    pub cmd_queue: Vec<QueuedCommand<A>>,
    /// The command that waits for a character.
    pub wait_char_request: Option<String>,
    pub pending_language_sets: Vec<(BufferId, Option<String>)>,
    pub grammar_sweeps: Vec<String>,
}

/// Takes note of what a script's command did. Where it failed the error is reported, and
/// its messages stay pending. Else they are reported, and what it has asked for comes back:
/// first the languages are set, then the grammars swept, then the commands carried out,
/// and at last a character is waited for.
pub fn script_returned<A>(
    messages: &mut Messages,
    pending: &Vec<(LogLevel, String)>,
    result: Result<ScriptResult<A>, String>,
) -> (r: Option<ScriptResult<A>>)
    ensures
        match result {
            Ok(s) => {
                &&& r == Some(s)
                &&& final(messages)@ == old(messages)@.reported_all(script_entries(pending@))
            },
            Err(e) => {
                &&& r is None
                &&& final(messages)@ == old(messages)@.reported(Severity::Error, e@)
            },
        },
{
    match result {
        Ok(s) => {
            flush_script_messages(messages, pending);
            Some(s)
        },
        Err(e) => {
            messages.report(Severity::Error, e);
            None
        },
    }
}

/// Reports why the screen could not be left for the output of a script's command, which
/// then does not run.
pub fn inline_output_refused(messages: &mut Messages, error: &str)
    ensures
        final(messages)@ == old(messages)@.reported(
            Severity::Error,
            "inline-output enter failed: "@ + error@,
        ),
{
    messages.report(Severity::Error, concat2("inline-output enter failed: ", error));
}

} // verus!

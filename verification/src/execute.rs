//! What surrounds the running of a command: finding it, keeping places to jump back to,
//! keeping what can be repeated, and replaying macros.

use crate::command::{Cmd, MappableCommand};
use crate::dispatch::{Keys, Mode, Waiting};
use crate::focus::Focus;
use crate::keymap::WaitCharPending;
use crate::keys::{KeyCode, KeyEvent};
use crate::message_log::Severity;
use crate::messages::Shown;
use crate::modes::ModalV;
use crate::pane_state::{Jump, JumpEntry, Jumps};
use crate::paste::{cycles, is_ring_cycle_command};
use crate::registry::CommandRegistry;
use crate::state::{EditorState, RegisterPrefix, RepeatableAction};
use crate::strings::{concat2, concat3};
use crate::text::newlines;
use vstd::prelude::*;
use vstd::string::*;

verus! {

/// The line of the primary cursor.
pub open spec fn cursor_line(f: Focus) -> nat {
    newlines(f.text().take(f.primary().head as int))
}

/// The cursor of the primary selection lies in the text.
pub open spec fn cursor_inside(f: Focus) -> bool {
    f.primary().head <= f.text().len()
}

/// Where a command started from.
pub struct Departure {
    pub entry: JumpEntry,
    pub line: usize,
}

/// How a command is run.
pub enum Plan {
    /// No command is called that.
    Unknown,
    /// It runs at once. What `departure` holds may become a place to jump back to.
    Native { departure: Option<Departure> },
    /// A script's procedure runs.
    Script { procedure: String, inline_output: bool },
    /// Its plugin has to be loaded first.
    Load { plugin: String },
}

/// The command may move so far that its start is a place to jump back to.
pub open spec fn may_jump(c: Cmd) -> bool {
    c.jump() || c.visual_move() || c is Motion
}

/// A plan for a command of the registry.
pub open spec fn planned(c: Option<Cmd>, f: Focus, plan: Plan) -> bool {
    match c {
        None => plan is Unknown,
        Some(Cmd::SteelBacked { steel_proc, inline_output, .. }) => {
            plan is Script && plan->procedure@ == steel_proc && plan->inline_output
                == inline_output
        },
        Some(Cmd::Lazy { plugin, .. }) => plan is Load && plan->plugin@ == plugin,
        Some(c) => plan is Native && match plan->departure {
            Some(d) => may_jump(c) && d.entry@ == f.place() && d.line == cursor_line(f),
            None => !may_jump(c),
        },
    }
}

/// Begins a command: finds it, and notes where it starts from. A script's command is the
/// last command from now on, until it runs another one. An unknown command gives a
/// warning.
pub fn begin_command(
    f: &Focus,
    state: &mut EditorState,
    registry: &CommandRegistry,
    name: &str,
) -> (r: Plan)
    requires
        cursor_inside(*f),
    ensures
        planned(registry.mappable(name@), *f, r),
        *final(state) == (EditorState {
            messages: final(state).messages,
            last_command: final(state).last_command,
            ..*old(state)
        }),
        final(state).messages@ == (if registry.mappable(name@) is None {
            old(state).messages@.reported(Severity::Warning, "unknown command: "@ + name@)
        } else {
            old(state).messages@
        }),
        match registry.mappable(name@) {
            Some(c) => if c.native() {
                final(state).last_command == old(state).last_command
            } else {
                final(state).last_command is Some && final(state).last_command->0@ == name@
            },
            None => final(state).last_command == old(state).last_command,
        },
{
    match registry.get_mappable(name) {
        None => {
            state.messages.report(Severity::Warning, concat2("unknown command: ", name));
            Plan::Unknown
        },
        Some(cmd) => match cmd {
            MappableCommand::SteelBacked { steel_proc, inline_output, .. } => {
                state.last_command = Some(name.to_owned());
                Plan::Script { procedure: steel_proc.clone(), inline_output: *inline_output }
            },
            MappableCommand::Lazy { plugin, .. } => {
                state.last_command = Some(name.to_owned());
                Plan::Load { plugin: plugin.clone() }
            },
            _ => {
                let motion = match cmd {
                    MappableCommand::Motion { .. } => true,
                    _ => false,
                };
                if cmd.is_jump() || cmd.is_visual_move() || motion {
                    let primary = f.here.selections.primary();
                    let line = f.doc.text.char_to_line(primary.head);
                    Plan::Native { departure: Some(Departure { entry: f.jump_entry(), line }) }
                } else {
                    Plan::Native { departure: None }
                }
            },
        },
    }
}

/// Whether the paste session is closed before a command: all commands but those that cycle
/// through pastes close it.
pub fn closes_paste_session(name: &str) -> (r: bool)
    ensures
        r == !cycles(name@),
{
    !is_ring_cycle_command(name)
}

/// The lines are more than `threshold` apart.
pub open spec fn far(a: int, b: int, threshold: int) -> bool {
    (if a >= b {
        a - b
    } else {
        b - a
    }) > threshold
}

/// The jump list after the command `c` started from `departure` and ended on `line`.
pub open spec fn jumps_after(
    jumps: Jumps,
    c: Cmd,
    departure: Option<Departure>,
    line: nat,
    threshold: nat,
) -> Jumps {
    match departure {
        Some(d) => if c.jump() || far(d.line as int, line as int, threshold as int) {
            jumps.pushed(d.entry@)
        } else {
            jumps
        },
        None => jumps,
    }
}

/// Ends a native command. Its start becomes a place to jump back to, where it is a jump or
/// moved far enough; a repeatable command is kept for repetition; it is the last command
/// from now on. Whether the columns that vertical motions keep to are forgotten comes
/// back.
pub fn finish_command(
    f: &mut Focus,
    state: &mut EditorState,
    cmd: &MappableCommand,
    name: &str,
    count: usize,
    char_arg: Option<char>,
    departure: Option<Departure>,
    threshold: usize,
) -> (r: bool)
    requires
        cursor_inside(*old(f)),
    ensures
        r == !cmd@.visual_move(),
        *final(f) == (Focus { jumps: final(f).jumps, ..*old(f) }),
        final(f).jumps@ == jumps_after(
            old(f).jumps@,
            cmd@,
            departure,
            cursor_line(*old(f)),
            threshold as nat,
        ),
        *final(state) == (EditorState {
            last_command: final(state).last_command,
            last_repeatable_action: final(state).last_repeatable_action,
            ..*old(state)
        }),
        final(state).last_command is Some,
        final(state).last_command->0@ == name@,
        if cmd@.repeatable() {
            &&& final(state).last_repeatable_action is Some
            &&& final(state).last_repeatable_action->0.command@ == name@
            &&& final(state).last_repeatable_action->0.count == count
            &&& final(state).last_repeatable_action->0.char_arg == char_arg
            &&& final(state).last_repeatable_action->0.insert_keys@.len() == 0
        } else {
            final(state).last_repeatable_action == old(state).last_repeatable_action
        },
{
    match departure {
        Some(d) => {
            let primary = f.here.selections.primary();
            let line = f.doc.text.char_to_line(primary.head);
            let moved: usize = if d.line >= line {
                d.line - line
            } else {
                line - d.line
            };
            if cmd.is_jump() || moved > threshold {
                f.jumps.push(d.entry);
            }
        },
        None => {},
    }
    if cmd.is_repeatable() {
        state.last_repeatable_action = Some(
            RepeatableAction { command: name.to_owned(), count, char_arg, insert_keys: Vec::new() },
        );
    }
    state.last_command = Some(name.to_owned());
    !cmd.is_visual_move()
}

impl EditorState {
    /// A script asked for a character for the command `name`.
    pub fn wait_for_char(&mut self, name: &str)
        ensures
            *final(self) == (EditorState { modal: final(self).modal, ..*old(self) }),
            final(self).modal@ == (ModalV {
                keys: Keys {
                    wait: Some(Waiting { cmd: name@, ctrl_extend: false }),
                    ..old(self).modal@.keys
                },
                ..old(self).modal@
            }),
    {
        self.modal.keys.wait_char = Some(
            WaitCharPending { cmd_name: name.to_owned(), ctrl_extend: false },
        );
    }

    /// Begins to replay queued keys, where there are any. The last repeatable command is
    /// handed out, to be given back at the end.
    pub fn begin_replay(&mut self) -> (r: Option<Option<RepeatableAction>>)
        ensures
            if old(self).modal@.keys.queue.len() == 0 {
                r is None && *final(self) == *old(self)
            } else {
                &&& r == Some(old(self).last_repeatable_action)
                &&& *final(self) == (EditorState {
                    modal: final(self).modal,
                    last_repeatable_action: None,
                    ..*old(self)
                })
                &&& final(self).modal@ == (ModalV {
                    keys: Keys { replaying: true, ..old(self).modal@.keys },
                    ..old(self).modal@
                })
            },
    {
        if self.modal.keys.replay_queue.len() == 0 {
            return None;
        }
        let saved = self.last_repeatable_action.take();
        self.modal.keys.is_replaying = true;
        Some(saved)
    }

    /// The next key to replay; `None` where no key is left, or the editor is to quit.
    pub fn next_replay_key(&mut self) -> (r: Option<KeyEvent>)
        ensures
            *final(self) == (EditorState { modal: final(self).modal, ..*old(self) }),
            ({
                let queue = old(self).modal@.keys.queue;
                if old(self).should_quit || queue.len() == 0 {
                    r is None && final(self).modal@ == old(self).modal@
                } else {
                    &&& r == Some(queue[0])
                    &&& final(self).modal@ == (ModalV {
                        keys: Keys { queue: queue.drop_first(), ..old(self).modal@.keys },
                        ..old(self).modal@
                    })
                }
            }),
    {
        if self.should_quit {
            return None;
        }
        let ghost queue = self.modal@.keys.queue;
        let r = self.modal.keys.replay_queue.pop_front();
        proof {
            if queue.len() > 0 {
                assert(self.modal.keys.replay_queue@ =~= queue.drop_first());
            }
        }
        r
    }

    /// Ends the replaying. The last repeatable command is the one from before it.
    pub fn end_replay(&mut self, saved: Option<RepeatableAction>)
        ensures
            *final(self) == (EditorState {
                modal: final(self).modal,
                last_command: final(self).last_command,
                last_repeatable_action: saved,
                ..*old(self)
            }),
            final(self).modal@ == (ModalV {
                keys: Keys { replaying: false, ..old(self).modal@.keys },
                ..old(self).modal@
            }),
            final(self).last_command is Some,
            final(self).last_command->0@ == "macro-replay"@,
    {
        self.modal.keys.is_replaying = false;
        self.last_command = Some("macro-replay".to_owned());
        self.last_repeatable_action = saved;
    }
}

/// A command that a script queued, with its arguments `args`.
pub struct QueuedCommand<A> {
    pub name: String,
    pub register: Option<char>,
    pub args: A,
    /// The arguments read as a count and whether it extends, or why they could not be.
    pub count_extend: Result<(usize, bool), String>,
}

/// What becomes of a queued command.
#[derive(Debug)]
pub enum QueueStep<A> {
    /// It runs at once, with its own count.
    Native { name: String, count: usize, extend: bool },
    /// It runs as if it had been bound to a key, with the count of the script's command and
    /// its own arguments.
    Other { name: String, count: usize, extend: bool, args: A },
    /// Its arguments could not be read.
    Refused,
}

/// Takes up one queued command. Its register is named as if it had been typed before
/// it.
pub fn take_queued<A>(
    state: &mut EditorState,
    registry: &CommandRegistry,
    queued: QueuedCommand<A>,
    count: usize,
    extend: bool,
) -> (r: QueueStep<A>)
    ensures
        *final(state) == (EditorState {
            register_prefix: match queued.register {
                Some(c) => Some(RegisterPrefix::Selected(c)),
                None => old(state).register_prefix,
            },
            messages: final(state).messages,
            ..*old(state)
        }),
        match registry.mappable(queued.name@) {
            Some(c) if c.native() => match queued.count_extend {
                Ok((n, e)) => {
                    &&& r is Native && r->Native_name@ == queued.name@ && r->Native_count == n
                        && r->Native_extend == e
                    &&& final(state).messages@ == old(state).messages@
                },
                Err(e) => {
                    &&& r is Refused
                    &&& final(state).messages@ == old(state).messages@.reported(
                        Severity::Warning,
                        queued.name@ + ": "@ + e@,
                    )
                },
            },
            _ => {
                &&& r is Other && r->Other_name@ == queued.name@ && r->Other_count == count
                    && r->Other_extend == extend && r->Other_args == queued.args
                &&& final(state).messages@ == old(state).messages@
            },
        },
{
    match queued.register {
        Some(c) => {
            state.register_prefix = Some(RegisterPrefix::Selected(c));
        },
        None => {},
    }
    let native = match registry.get_mappable(queued.name.as_str()) {
        Some(c) => is_native(c),
        None => false,
    };
    if native {
        match queued.count_extend {
            Ok((n, e)) => QueueStep::Native { name: queued.name, count: n, extend: e },
            Err(e) => {
                state.messages.report(
                    Severity::Warning,
                    concat3(queued.name.as_str(), ": ", e.as_str()),
                );
                QueueStep::Refused
            },
        }
    } else {
        QueueStep::Other { name: queued.name, count, extend, args: queued.args }
    }
}

/// Whether a command needs no script to run.
pub fn is_native(cmd: &MappableCommand) -> (r: bool)
    ensures
        r == cmd@.native(),
{
    match cmd {
        MappableCommand::SteelBacked { .. } => false,
        MappableCommand::Lazy { .. } => false,
        _ => true,
    }
}

/// Once all queued commands were taken up, a register that one of them named is dropped.
pub fn finish_queue(state: &mut EditorState, armed: bool)
    ensures
        *final(state) == (EditorState {
            register_prefix: if armed {
                None
            } else {
                old(state).register_prefix
            },
            ..*old(state)
        }),
{
    if armed {
        state.register_prefix = None;
    }
}

/// Who handles a key.
#[derive(Debug, Clone, Copy, PartialEq, Eq, Structural)]
pub enum KeyRoute {
    Overlay,
    Normal,
    Insert,
    Command,
    Search,
    Select,
}

/// The handler of a key.
pub open spec fn route_of(mode: Mode, overlay: bool) -> KeyRoute {
    if overlay {
        KeyRoute::Overlay
    } else {
        match mode {
            Mode::Normal => KeyRoute::Normal,
            Mode::Extend => KeyRoute::Normal,
            Mode::Insert => KeyRoute::Insert,
            Mode::Command => KeyRoute::Command,
            Mode::Search => KeyRoute::Search,
            Mode::Select => KeyRoute::Select,
        }
    }
}

impl EditorState {
    /// Begins to handle a key: the status line is cleared, and the handler of the key is
    /// found. An open overlay takes every key.
    pub fn begin_key(&mut self, overlay: bool) -> (r: KeyRoute)
        ensures
            *final(self) == (EditorState { messages: final(self).messages, ..*old(self) }),
            final(self).messages@ == (Shown { status: None, ..old(self).messages@ }),
            r == route_of(old(self).modal@.keys.mode, overlay),
    {
        self.messages.clear_status();
        if overlay {
            return KeyRoute::Overlay;
        }
        match self.modal.keys.mode {
            Mode::Normal => KeyRoute::Normal,
            Mode::Extend => KeyRoute::Normal,
            Mode::Insert => KeyRoute::Insert,
            Mode::Command => KeyRoute::Command,
            Mode::Search => KeyRoute::Search,
            Mode::Select => KeyRoute::Select,
        }
    }

    /// Ends the handling of a key, unless an overlay took it: it goes into the macro that
    /// is being recorded. The count that a key in normal mode came with is not given any
    /// more.
    pub fn end_key(&mut self, route: KeyRoute, key: KeyEvent)
        ensures
            *final(self) == (EditorState { modal: final(self).modal, ..*old(self) }),
            final(self).modal@ == (if route == KeyRoute::Overlay {
                old(self).modal@
            } else {
                ModalV {
                    keys: Keys {
                        explicit_count: route != KeyRoute::Normal
                            && old(self).modal@.keys.explicit_count,
                        ..old(self).modal@.keys.recorded(key)
                    },
                    ..old(self).modal@
                }
            }),
            final(self).modal.minibuf == old(self).modal.minibuf,
    {
        if route == KeyRoute::Normal {
            self.modal.keys.explicit_count = false;
        }
        if route != KeyRoute::Overlay {
            self.modal.keys.record_key(key);
        }
    }
}

/// What a key does in an overlay.
#[derive(Debug, Clone, Copy, PartialEq, Eq, Structural)]
pub enum OverlayKey {
    Close,
    LineDown,
    LineUp,
    FirstLine,
    LastLine,
    /// The key is swallowed.
    Nothing,
}

/// What a key does in an overlay: only closing it and moving in it.
pub fn handle_scratch_key(key: KeyEvent) -> (r: OverlayKey)
    ensures
        r == (match key.code {
            KeyCode::Esc => OverlayKey::Close,
            KeyCode::Down => OverlayKey::LineDown,
            KeyCode::Up => OverlayKey::LineUp,
            KeyCode::Char(c) => if c == 'q' {
                OverlayKey::Close
            } else if c == 'j' {
                OverlayKey::LineDown
            } else if c == 'k' {
                OverlayKey::LineUp
            } else if c == 'g' {
                OverlayKey::FirstLine
            } else if c == 'G' {
                OverlayKey::LastLine
            } else {
                OverlayKey::Nothing
            },
            _ => OverlayKey::Nothing,
        }),
{
    match key.code {
        KeyCode::Esc => OverlayKey::Close,
        KeyCode::Down => OverlayKey::LineDown,
        KeyCode::Up => OverlayKey::LineUp,
        KeyCode::Char(c) => {
            if c == 'q' {
                OverlayKey::Close
            } else if c == 'j' {
                OverlayKey::LineDown
            } else if c == 'k' {
                OverlayKey::LineUp
            } else if c == 'g' {
                OverlayKey::FirstLine
            } else if c == 'G' {
                OverlayKey::LastLine
            } else {
                OverlayKey::Nothing
            }
        },
        _ => OverlayKey::Nothing,
    }
}

/// Two lines are far apart where one lies more than the threshold below the other.
pub proof fn law_far_apart(a: int, b: int, threshold: int)
    requires
        threshold >= 0,
    ensures
        far(a, b, threshold) <==> a > b + threshold || b > a + threshold,
        !far(a, a, threshold),
        far(a, b, threshold) == far(b, a, threshold),
{
}

/// The start of a motion, of a jump and of a move by visual lines is noted: where the focused
/// pane is. That of an edit, and of a command that changes the selections in place, is
/// not.
pub proof fn law_departure_is_noted(c: Cmd, f: Focus, plan: Plan)
    requires
        planned(Some(c), f, plan),
    ensures
        c is Motion ==> plan is Native && plan->departure is Some,
        c is EditorCmd && (c->EditorCmd_jump || c->visual_move) ==> plan is Native
            && plan->departure is Some,
        c is EditorCmd && !c->EditorCmd_jump && !c->visual_move ==> plan is Native
            && plan->departure is None,
        c is Edit || c is Selection ==> plan is Native && plan->departure is None,
        plan is Native && plan->departure is Some ==> (plan->departure->0).entry@ == f.place(),
        plan is Native && plan->departure is Some ==> (plan->departure->0).line == newlines(
            f.text().take(f.primary().head as int),
        ),
{
}

/// A command that a script defines runs its procedure, one of a plugin that is not loaded has
/// it loaded, and a name that calls nothing runs nothing.
pub proof fn law_how_a_command_is_run(c: Cmd, f: Focus, plan: Plan, none: Plan)
    requires
        planned(Some(c), f, plan),
        planned(None, f, none),
    ensures
        none is Unknown,
        c is SteelBacked <==> plan is Script,
        c is Lazy <==> plan is Load,
        c is SteelBacked ==> plan->procedure@ == c->steel_proc && plan->inline_output
            == c->inline_output,
        c is Lazy ==> plan->plugin@ == c->plugin,
        plan !is Unknown,
{
}

/// An open overlay takes every key. Without one, normal and extend mode share their handler and
/// every other mode has its own.
pub proof fn law_keys_are_handled_by_mode(a: Mode, b: Mode)
    ensures
        route_of(a, true) == KeyRoute::Overlay,
        route_of(a, false) != KeyRoute::Overlay,
        route_of(Mode::Normal, false) == KeyRoute::Normal,
        route_of(Mode::Extend, false) == KeyRoute::Normal,
        route_of(Mode::Insert, false) == KeyRoute::Insert,
        route_of(Mode::Command, false) == KeyRoute::Command,
        route_of(Mode::Search, false) == KeyRoute::Search,
        route_of(Mode::Select, false) == KeyRoute::Select,
{
}

/// A command that moved the cursor further than the threshold, up or down, and every jump, leaves
/// a way back to where it started. A shorter move leaves none.
pub proof fn law_long_ways_can_be_gone_back(
    jumps: Jumps,
    c: Cmd,
    d: Departure,
    line: nat,
    threshold: nat,
    current: Jump,
)
    requires
        jumps.cursor <= jumps.entries.len(),
        jumps.capacity >= 1,
    ensures
        c.jump() || line > d.line + threshold || d.line > line + threshold ==> jumps_after(
            jumps,
            c,
            Some(d),
            line,
            threshold,
        ).back(current).1 == Some(d.entry@),
        !c.jump() && d.line <= line + threshold && line <= d.line + threshold ==> jumps_after(
            jumps,
            c,
            Some(d),
            line,
            threshold,
        ) == jumps,
        jumps_after(jumps, c, None, line, threshold) == jumps,
{
}

} // verus!

//! What scripts define: commands, stubs of commands that are loaded later, and messages.

use crate::command::{Cmd, Entry as Registered, MappableCommand};
use crate::message_log::{Entry, Severity};
use crate::messages::{fails, CommandError, Messages};
use crate::paths::{inside_dir, join_dir, Separators};
use crate::registers::texts;
use crate::registry::CommandRegistry;
use crate::strings::concat3;
use vstd::prelude::*;
use vstd::string::*;

verus! {

/// How serious a script's message is.
#[derive(Debug, Clone, Copy, PartialEq, Eq, Structural)]
pub enum LogLevel {
    Info,
    Warning,
    Error,
    Trace,
}

/// The severity of a script's message.
pub open spec fn severity_of(level: LogLevel) -> Severity {
    match level {
        LogLevel::Info => Severity::Info,
        LogLevel::Warning => Severity::Warning,
        LogLevel::Error => Severity::Error,
        LogLevel::Trace => Severity::Trace,
    }
}

/// The severity of a script's message.
pub fn log_level_to_severity(level: LogLevel) -> (r: Severity)
    ensures
        r == severity_of(level),
{
    match level {
        LogLevel::Info => Severity::Info,
        LogLevel::Warning => Severity::Warning,
        LogLevel::Error => Severity::Error,
        LogLevel::Trace => Severity::Trace,
    }
}

/// The messages of scripts, as entries of the log.
pub open spec fn script_entries(ms: Seq<(LogLevel, String)>) -> Seq<Entry> {
    ms.map_values(|m: (LogLevel, String)| (severity_of(m.0), m.1@))
}

/// Reports the messages of scripts, one after the other.
pub fn flush_script_messages(messages: &mut Messages, pending: &Vec<(LogLevel, String)>)
    ensures
        final(messages)@ == old(messages)@.reported_all(script_entries(pending@)),
{
    let ghost m0 = messages@;
    let ghost all = script_entries(pending@);
    let n = pending.len();
    let mut i: usize = 0;
    assert(all.take(0) =~= Seq::empty());
    while i < n
        invariant
            i <= n == pending@.len(),
            all == script_entries(pending@),
            messages@ == m0.reported_all(all.take(i as int)),
        decreases n - i,
    {
        assert(all.take(i + 1).drop_last() =~= all.take(i as int));
        assert(all.take(i + 1).last() == all[i as int]);
        messages.report(log_level_to_severity(pending[i].0), pending[i].1.clone());
        i = i + 1;
    }
    assert(all.take(n as int) =~= all);
}

/// A command that a script defines.
#[derive(Debug)]
pub struct SteelCmdDef {
    pub name: String,
    pub doc: String,
    pub steel_proc: String,
    pub extendable: bool,
    pub arity: u16,
    pub is_variadic: bool,
    pub inline_output: bool,
}

impl View for SteelCmdDef {
    type V = Cmd;

    open spec fn view(&self) -> Cmd {
        Cmd::SteelBacked {
            name: self.name@,
            doc: self.doc@,
            steel_proc: self.steel_proc@,
            extendable: self.extendable,
            arity: self.arity,
            is_variadic: self.is_variadic,
            inline_output: self.inline_output,
        }
    }
}

/// A name that a script's command may take: no mappable command has it, or only a stub.
pub open spec fn name_free(e: Option<Registered>) -> bool {
    match e {
        Some(Registered::Mappable(c)) => c is Lazy,
        _ => true,
    }
}

/// The complaint about a name that is taken.
pub open spec fn define_conflict(name: Seq<char>) -> Seq<char> {
    "define-command!: '"@ + name + "' conflicts with existing command"@
}

/// What is registered under the name `n` after scripts defined commands. A name that is
/// taken keeps its command.
pub open spec fn defined(reg: CommandRegistry, defs: Seq<Cmd>, n: Seq<char>) -> Option<Registered>
    decreases defs.len(),
{
    if defs.len() == 0 {
        reg.entry(n)
    } else {
        let d = defs.last();
        let rest = defs.drop_last();
        if n == d.name() && name_free(defined(reg, rest, n)) {
            Some(Registered::Mappable(d))
        } else {
            defined(reg, rest, n)
        }
    }
}

/// The complaints about names that were taken.
pub open spec fn define_conflicts(reg: CommandRegistry, defs: Seq<Cmd>) -> Seq<Entry>
    decreases defs.len(),
{
    if defs.len() == 0 {
        Seq::empty()
    } else {
        let d = defs.last();
        let rest = defs.drop_last();
        if name_free(defined(reg, rest, d.name())) {
            define_conflicts(reg, rest)
        } else {
            define_conflicts(reg, rest).push((Severity::Error, define_conflict(d.name())))
        }
    }
}

/// Definitions as values.
pub open spec fn defs_of(defs: Seq<SteelCmdDef>) -> Seq<Cmd> {
    defs.map_values(|d: SteelCmdDef| d@)
}

/// Registers the commands that scripts define. One that takes the name of a command, other
/// than a stub, is refused with a message.
pub fn register_steel_cmds(
    registry: &mut CommandRegistry,
    messages: &mut Messages,
    defs: &Vec<SteelCmdDef>,
)
    ensures
        forall|n: Seq<char>| #[trigger]
            final(registry).entry(n) == defined(*old(registry), defs_of(defs@), n),
        final(registry).alias_map == old(registry).alias_map,
        final(messages)@ == old(messages)@.reported_all(
            define_conflicts(*old(registry), defs_of(defs@)),
        ),
{
    let ghost r0 = *registry;
    let ghost m0 = messages@;
    let ghost all = defs_of(defs@);
    let n = defs.len();
    let mut i: usize = 0;
    assert(all.take(0) =~= Seq::empty());
    while i < n
        invariant
            i <= n == defs@.len(),
            all == defs_of(defs@),
            forall|k: Seq<char>| #[trigger]
                registry.entry(k) == defined(r0, all.take(i as int), k),
            registry.alias_map == r0.alias_map,
            messages@ == m0.reported_all(define_conflicts(r0, all.take(i as int))),
        decreases n - i,
    {
        let def = &defs[i];
        let ghost d = def@;
        let ghost before = registry.entry(d.name());
        proof {
            assert(all.take(i + 1).drop_last() =~= all.take(i as int));
            assert(all.take(i + 1).last() == d);
            assert(before == defined(r0, all.take(i as int), d.name()));
        }
        let free = match registry.get_mappable(def.name.as_str()) {
            None => true,
            Some(MappableCommand::Lazy { .. }) => true,
            Some(_) => false,
        };
        assert(free == name_free(before));
        if free {
            registry.register(
                MappableCommand::SteelBacked {
                    name: def.name.clone(),
                    doc: def.doc.clone(),
                    steel_proc: def.steel_proc.clone(),
                    extendable: def.extendable,
                    arity: def.arity,
                    is_variadic: def.is_variadic,
                    inline_output: def.inline_output,
                },
            );
        } else {
            messages.report(
                Severity::Error,
                concat3(
                    "define-command!: '",
                    def.name.as_str(),
                    "' conflicts with existing command",
                ),
            );
            proof {
                let after = define_conflicts(r0, all.take(i + 1));
                assert(after.drop_last() =~= define_conflicts(r0, all.take(i as int)));
            }
        }
        i = i + 1;
    }
    assert(all.take(n as int) =~= all);
}

/// A command that stands for one of a plugin that is not loaded.
#[derive(Debug)]
pub struct CommandTrigger {
    pub name: String,
    pub plugin: String,
}

/// Triggers as stubs.
pub open spec fn stubs_of(triggers: Seq<CommandTrigger>) -> Seq<Cmd> {
    triggers.map_values(
        |t: CommandTrigger| Cmd::Lazy { name: t.name@, plugin: t.plugin@ },
    )
}

/// What is registered under the name `n` after stubs were added. A name that is taken keeps
/// its command.
pub open spec fn stubbed(reg: CommandRegistry, stubs: Seq<Cmd>, n: Seq<char>) -> Option<Registered>
    decreases stubs.len(),
{
    if stubs.len() == 0 {
        reg.entry(n)
    } else {
        let d = stubs.last();
        let before = stubbed(reg, stubs.drop_last(), n);
        if n == d.name() && before is None {
            Some(Registered::Mappable(d))
        } else {
            before
        }
    }
}

/// The complaint about a stub whose name is taken.
pub open spec fn stub_conflict(name: Seq<char>) -> Seq<char> {
    "lazy command '"@ + name + "' conflicts with an existing command"@
}

/// The complaints about stubs whose names were taken.
pub open spec fn stub_conflicts(reg: CommandRegistry, stubs: Seq<Cmd>) -> Seq<Entry>
    decreases stubs.len(),
{
    if stubs.len() == 0 {
        Seq::empty()
    } else {
        let d = stubs.last();
        let rest = stubs.drop_last();
        if stubbed(reg, rest, d.name()) is None {
            stub_conflicts(reg, rest)
        } else {
            stub_conflicts(reg, rest).push((Severity::Error, stub_conflict(d.name())))
        }
    }
}

/// Registers a stub for every command that loads a plugin. One whose name is taken is
/// refused with a message.
pub fn register_lazy_command_stubs(
    registry: &mut CommandRegistry,
    messages: &mut Messages,
    triggers: &Vec<CommandTrigger>,
)
    ensures
        forall|n: Seq<char>| #[trigger]
            final(registry).entry(n) == stubbed(*old(registry), stubs_of(triggers@), n),
        final(registry).alias_map == old(registry).alias_map,
        final(messages)@ == old(messages)@.reported_all(
            stub_conflicts(*old(registry), stubs_of(triggers@)),
        ),
{
    let ghost r0 = *registry;
    let ghost m0 = messages@;
    let ghost all = stubs_of(triggers@);
    let n = triggers.len();
    let mut i: usize = 0;
    assert(all.take(0) =~= Seq::empty());
    while i < n
        invariant
            i <= n == triggers@.len(),
            all == stubs_of(triggers@),
            forall|k: Seq<char>| #[trigger]
                registry.entry(k) == stubbed(r0, all.take(i as int), k),
            registry.alias_map == r0.alias_map,
            messages@ == m0.reported_all(stub_conflicts(r0, all.take(i as int))),
        decreases n - i,
    {
        let trigger = &triggers[i];
        let ghost d = all[i as int];
        proof {
            assert(all.take(i + 1).drop_last() =~= all.take(i as int));
            assert(all.take(i + 1).last() == d);
            assert(registry.entry(d.name()) == stubbed(r0, all.take(i as int), d.name()));
        }
        if registry.contains(trigger.name.as_str()) {
            messages.report(
                Severity::Error,
                concat3(
                    "lazy command '",
                    trigger.name.as_str(),
                    "' conflicts with an existing command",
                ),
            );
            proof {
                let after = stub_conflicts(r0, all.take(i + 1));
                assert(after.drop_last() =~= stub_conflicts(r0, all.take(i as int)));
            }
        } else {
            registry.register(
                MappableCommand::Lazy {
                    name: trigger.name.clone(),
                    plugin: trigger.plugin.clone(),
                },
            );
        }
        i = i + 1;
    }
    assert(all.take(n as int) =~= all);
}

/// Neither scripts nor stubs take a command away that needs no script.
pub proof fn law_native_commands_stay(
    reg: CommandRegistry,
    defs: Seq<Cmd>,
    stubs: Seq<Cmd>,
    n: Seq<char>,
)
    requires
        reg.entry(n) is Some,
        reg.entry(n)->0 matches Registered::Mappable(c) ==> c.native(),
        !(reg.entry(n)->0 is Typed),
    ensures
        defined(reg, defs, n) == reg.entry(n),
        stubbed(reg, stubs, n) == reg.entry(n),
    decreases defs.len() + stubs.len(),
{
    if defs.len() > 0 {
        law_native_commands_stay(reg, defs.drop_last(), stubs, n);
    } else if stubs.len() > 0 {
        law_native_commands_stay(reg, defs, stubs.drop_last(), n);
    }
}

/// A command of a script, or a stub.
pub open spec fn dynamic(e: Option<Registered>) -> bool {
    match e {
        Some(Registered::Mappable(c)) => !c.native(),
        _ => false,
    }
}

/// Forgets all commands of scripts and all stubs.
pub fn unregister_dynamic_commands(registry: &mut CommandRegistry)
    ensures
        forall|n: Seq<char>| #[trigger]
            final(registry).entry(n) == (if dynamic(old(registry).entry(n)) {
                None
            } else {
                old(registry).entry(n)
            }),
        final(registry).alias_map == old(registry).alias_map,
{
    let ghost r0 = *registry;
    let names = registry.names();
    let n = names.len();
    let mut i: usize = 0;
    while i < n
        invariant
            i <= n == names@.len(),
            forall|a: int, b: int|
                0 <= a < b < names@.len() ==> (#[trigger] names@[a])@ != (#[trigger] names@[b])@,
            forall|k: Seq<char>|
                #[trigger] r0.entry(k) is Some <==> exists|j: int|
                    0 <= j < names@.len() && (#[trigger] names@[j])@ == k,
            registry.alias_map == r0.alias_map,
            forall|j: int|
                0 <= j < i ==> registry.entry((#[trigger] names@[j])@) == (if dynamic(
                    r0.entry(names@[j]@),
                ) {
                    None
                } else {
                    r0.entry(names@[j]@)
                }),
            forall|k: Seq<char>|
                (forall|j: int| 0 <= j < i ==> (#[trigger] names@[j])@ != k)
                    ==> #[trigger] registry.entry(k) == r0.entry(k),
        decreases n - i,
    {
        let name = &names[i];
        let ghost mid = *registry;
        proof {
            assert forall|j: int| 0 <= j < i implies (#[trigger] names@[j])@ != name@ by {
                assert(names@[j]@ != names@[i as int]@);
            }
            assert(registry.entry(name@) == r0.entry(name@));
        }
        let drop = match registry.get_mappable(name.as_str()) {
            Some(c) => !crate::execute::is_native(c),
            None => false,
        };
        assert(drop == dynamic(r0.entry(name@)));
        if drop {
            registry.unregister(name.as_str());
        }
        i = i + 1;
        proof {
            assert forall|j: int| 0 <= j < i implies registry.entry((#[trigger] names@[j])@) == (
            if dynamic(r0.entry(names@[j]@)) {
                None
            } else {
                r0.entry(names@[j]@)
            }) by {
                if j < i - 1 {
                    assert(names@[j]@ != names@[i - 1]@);
                    assert(mid.entry(names@[j]@) == registry.entry(names@[j]@));
                }
            }
            assert forall|k: Seq<char>|
                (forall|j: int| 0 <= j < i ==> (#[trigger] names@[j])@ != k) implies
                #[trigger] registry.entry(k) == r0.entry(k) by {
                assert(names@[i - 1]@ != k);
                assert forall|j: int| 0 <= j < i - 1 implies (#[trigger] names@[j])@ != k by {}
                assert(mid.entry(k) == r0.entry(k));
            }
        }
    }
    proof {
        assert forall|k: Seq<char>| #[trigger] registry.entry(k) == (if dynamic(r0.entry(k)) {
            None
        } else {
            r0.entry(k)
        }) by {
            if r0.entry(k) is Some {
                let j = choose|j: int| 0 <= j < names@.len() && (#[trigger] names@[j])@ == k;
                assert(names@[j]@ == k);
            } else {
                assert forall|j: int| 0 <= j < n implies (#[trigger] names@[j])@ != k by {
                    if names@[j]@ == k {
                        assert(r0.entry(k) is Some);
                    }
                }
            }
        }
    }
}

/// Loading a plugin once it is needed.
pub enum Activation {
    /// Its commands are defined.
    Defined { commands: Vec<SteelCmdDef> },
    Failed { error: String },
}

/// "plugin '`plugin`' loaded (`trigger`)".
pub open spec fn loaded_message(plugin: Seq<char>, trigger: Seq<char>) -> Seq<char> {
    "plugin '"@ + plugin + "' loaded ("@ + trigger + ")"@
}

/// Takes note of what came of loading a plugin: registers its commands, or reports the
/// error. A plugin that was declared and is loaded now leaves a trace.
pub fn activate_and_trace(
    registry: &mut CommandRegistry,
    messages: &mut Messages,
    plugin: &str,
    trigger: &str,
    was_declared: bool,
    is_loaded: bool,
    result: &Activation,
)
    ensures
        final(registry).alias_map == old(registry).alias_map,
        ({
            let reported = match result {
                Activation::Defined { commands } => old(messages)@.reported_all(
                    define_conflicts(*old(registry), defs_of(commands@)),
                ),
                Activation::Failed { error } => old(messages)@.reported(Severity::Error, error@),
            };
            &&& forall|n: Seq<char>| #[trigger]
                final(registry).entry(n) == (match result {
                    Activation::Defined { commands } => defined(
                        *old(registry),
                        defs_of(commands@),
                        n,
                    ),
                    Activation::Failed { .. } => old(registry).entry(n),
                })
            &&& final(messages)@ == (if was_declared && is_loaded {
                reported.reported(Severity::Trace, loaded_message(plugin@, trigger@))
            } else {
                reported
            })
        }),
{
    match result {
        Activation::Defined { commands } => register_steel_cmds(registry, messages, commands),
        Activation::Failed { error } => messages.report(Severity::Error, error.clone()),
    }
    if was_declared && is_loaded {
        let head = concat3("plugin '", plugin, "' loaded (");
        messages.report(Severity::Trace, concat3(head.as_str(), trigger, ")"));
    }
}

/// Whether the command `name` is there once its plugin was loaded. One that still is a
/// stub is forgotten, so that it is not tried again.
pub fn resolve_lazy(registry: &mut CommandRegistry, name: &str) -> (r: bool)
    ensures
        r == (match old(registry).mappable(name@) {
            Some(c) => !(c is Lazy),
            None => false,
        }),
        forall|n: Seq<char>| #[trigger]
            final(registry).entry(n) == (if !r && n == name@ {
                None
            } else {
                old(registry).entry(n)
            }),
        final(registry).alias_map == old(registry).alias_map,
{
    let there = match registry.get_mappable(name) {
        Some(MappableCommand::Lazy { .. }) => false,
        Some(_) => true,
        None => false,
    };
    if !there {
        registry.unregister(name);
    }
    there
}

/// How the reason for loading a plugin is described.
pub enum Trigger {
    Command { name: String },
    Event { name: String },
    Language { name: String },
}

/// How the reason for loading a plugin is described.
pub fn trigger_text(t: &Trigger) -> (r: String)
    ensures
        r@ == (match t {
            Trigger::Command { name } => "command trigger '"@ + name@ + "'"@,
            Trigger::Event { name } => "event trigger '"@ + name@ + "'"@,
            Trigger::Language { name } => "language trigger '"@ + name@ + "'"@,
        }),
{
    match t {
        Trigger::Command { name } => concat3("command trigger '", name.as_str(), "'"),
        Trigger::Event { name } => concat3("event trigger '", name.as_str(), "'"),
        Trigger::Language { name } => concat3("language trigger '", name.as_str(), "'"),
    }
}

/// Loads a plugin again. `result` is what came of it: the commands to forget and those to
/// define, or why it failed; `None` where scripting is off.
pub fn typed_reload_plugin(
    registry: &mut CommandRegistry,
    messages: &mut Messages,
    arg: Option<&str>,
    result: Option<Result<(Vec<String>, Vec<SteelCmdDef>), String>>,
) -> (r: Result<(), CommandError>)
    ensures
        final(registry).alias_map == old(registry).alias_map,
        match arg {
            None => {
                &&& fails(r, "Usage: :reload-plugin <name>"@)
                &&& final(messages)@ == old(messages)@
                &&& forall|n: Seq<char>| #[trigger]
                    final(registry).entry(n) == old(registry).entry(n)
            },
            Some(name) => match result {
                None => {
                    &&& r is Ok
                    &&& final(messages)@ == old(messages)@
                    &&& forall|n: Seq<char>| #[trigger]
                        final(registry).entry(n) == old(registry).entry(n)
                },
                Some(Err(e)) => {
                    &&& fails(r, e@)
                    &&& final(messages)@ == old(messages)@
                    &&& forall|n: Seq<char>| #[trigger]
                        final(registry).entry(n) == old(registry).entry(n)
                },
                Some(Ok((gone, defs))) => {
                    &&& r is Ok
                    &&& exists|mid: CommandRegistry|
                        #![trigger defined(mid, defs_of(defs@), name@)]
                        {
                            &&& forall|n: Seq<char>| #[trigger]
                                mid.entry(n) == (if texts(gone@).contains(n) {
                                    None
                                } else {
                                    old(registry).entry(n)
                                })
                            &&& forall|n: Seq<char>| #[trigger]
                                final(registry).entry(n) == defined(mid, defs_of(defs@), n)
                            &&& final(messages)@ == old(messages)@.reported_all(
                                define_conflicts(mid, defs_of(defs@)),
                            ).reported(Severity::Info, "Reloaded plugin '"@ + name@ + "'"@)
                        }
                },
            },
        },
{
    let name = match arg {
        Some(n) => n,
        None => {
            return Err(CommandError::new("Usage: :reload-plugin <name>"));
        },
    };
    match result {
        None => Ok(()),
        Some(Err(e)) => Err(CommandError { message: e }),
        Some(Ok((gone, defs))) => {
            let ghost r0 = *registry;
            let n = gone.len();
            let mut i: usize = 0;
            let ghost all = texts(gone@);
            while i < n
                invariant
                    i <= n == gone@.len(),
                    all == texts(gone@),
                    registry.alias_map == r0.alias_map,
                    forall|k: Seq<char>| #[trigger]
                        registry.entry(k) == (if all.take(i as int).contains(k) {
                            None
                        } else {
                            r0.entry(k)
                        }),
                decreases n - i,
            {
                let ghost mid = *registry;
                registry.unregister(gone[i].as_str());
                i = i + 1;
                proof {
                    assert forall|k: Seq<char>| #[trigger]
                        registry.entry(k) == (if all.take(i as int).contains(k) {
                            None
                        } else {
                            r0.entry(k)
                        }) by {
                        let was = all.take(i - 1);
                        let now = all.take(i as int);
                        assert(now =~= was.push(all[i - 1]));
                        if was.contains(k) {
                            let j = choose|j: int| 0 <= j < was.len() && was[j] == k;
                            assert(now[j] == k);
                        }
                        if now.contains(k) && k != all[i - 1] {
                            let j = choose|j: int| 0 <= j < now.len() && now[j] == k;
                            assert(was[j] == k);
                        }
                        assert(now[i - 1] == all[i - 1]);
                        assert(mid.entry(k) == (if was.contains(k) {
                            None
                        } else {
                            r0.entry(k)
                        }));
                    }
                }
            }
            assert(all.take(n as int) =~= all);
            let ghost mid = *registry;
            register_steel_cmds(registry, messages, &defs);
            messages.report(Severity::Info, concat3("Reloaded plugin '", name, "'"));
            assert(defined(mid, defs_of(defs@), name@) == registry.entry(name@));
            Ok(())
        },
    }
}

/// The directories that themes are looked for in: the user's come before the bundled
/// ones.
pub fn theme_search_paths(
    config: Option<&str>,
    runtime: Option<&str>,
    separators: Separators,
) -> (r: Vec<String>)
    ensures
        texts(r@) == (match config {
            Some(c) => seq![inside_dir(c@, "themes"@, separators)],
            None => Seq::empty(),
        }) + (match runtime {
            Some(d) => seq![inside_dir(d@, "themes"@, separators)],
            None => Seq::empty(),
        }),
{
    let mut paths: Vec<String> = Vec::new();
    if let Some(c) = config {
        paths.push(join_dir(c, "themes", separators));
    }
    if let Some(d) = runtime {
        paths.push(join_dir(d, "themes", separators));
    }
    assert(texts(paths@) =~= (match config {
        Some(c) => seq![inside_dir(c@, "themes"@, separators)],
        None => Seq::empty(),
    }) + (match runtime {
        Some(d) => seq![inside_dir(d@, "themes"@, separators)],
        None => Seq::empty(),
    }));
    paths
}

/// Messages of scripts are reported with the severity they name, in their order.
pub proof fn law_script_messages_keep_their_severity(ms: Seq<(LogLevel, String)>, i: int)
    requires
        0 <= i < ms.len(),
    ensures
        script_entries(ms).len() == ms.len(),
        script_entries(ms)[i].1 == ms[i].1@,
        ms[i].0 == LogLevel::Info <==> script_entries(ms)[i].0 == Severity::Info,
        ms[i].0 == LogLevel::Warning <==> script_entries(ms)[i].0 == Severity::Warning,
        ms[i].0 == LogLevel::Error <==> script_entries(ms)[i].0 == Severity::Error,
        ms[i].0 == LogLevel::Trace <==> script_entries(ms)[i].0 == Severity::Trace,
{
}

/// What scripts define, and the stubs of plugins, change nothing under other names.
pub proof fn law_definitions_touch_their_names(reg: CommandRegistry, defs: Seq<Cmd>, n: Seq<char>)
    requires
        forall|i: int| 0 <= i < defs.len() ==> (#[trigger] defs[i]).name() != n,
    ensures
        defined(reg, defs, n) == reg.entry(n),
        stubbed(reg, defs, n) == reg.entry(n),
    decreases defs.len(),
{
    if defs.len() > 0 {
        assert(defs[defs.len() - 1].name() != n);
        let r = defs.drop_last();
        assert forall|i: int| 0 <= i < r.len() implies (#[trigger] r[i]).name() != n by {
            assert(r[i] == defs[i]);
        }
        law_definitions_touch_their_names(reg, r, n);
    }
}

/// Of the commands that scripts define under one name the first is registered, where the name is
/// free or held by the stub of a plugin.
pub proof fn law_first_definition_counts(
    reg: CommandRegistry,
    defs: Seq<Cmd>,
    k: int,
    n: Seq<char>,
)
    requires
        0 <= k < defs.len(),
        defs[k].name() == n,
        defs[k] is SteelBacked,
        forall|i: int| 0 <= i < k ==> (#[trigger] defs[i]).name() != n,
        reg.entry(n) matches Some(e) ==> (e matches Registered::Mappable(c) && c is Lazy),
    ensures
        defined(reg, defs, n) == Some(Registered::Mappable(defs[k])),
    decreases defs.len(),
{
    let r = defs.drop_last();
    if k == defs.len() - 1 {
        assert forall|i: int| 0 <= i < r.len() implies (#[trigger] r[i]).name() != n by {
            assert(r[i] == defs[i]);
        }
        law_definitions_touch_their_names(reg, r, n);
    } else {
        law_first_definition_counts(reg, r, k, n);
    }
}

/// Of the stubs under one name the first is registered, where nothing has the name. A stub never
/// takes the place of a command.
pub proof fn law_first_stub_counts(reg: CommandRegistry, stubs: Seq<Cmd>, k: int, n: Seq<char>)
    requires
        0 <= k < stubs.len(),
        stubs[k].name() == n,
        forall|i: int| 0 <= i < k ==> (#[trigger] stubs[i]).name() != n,
    ensures
        reg.entry(n) is None ==> stubbed(reg, stubs, n) == Some(Registered::Mappable(stubs[k])),
        reg.entry(n) is Some ==> stubbed(reg, stubs, n) == reg.entry(n),
    decreases stubs.len(),
{
    let r = stubs.drop_last();
    if k == stubs.len() - 1 {
        assert forall|i: int| 0 <= i < r.len() implies (#[trigger] r[i]).name() != n by {
            assert(r[i] == stubs[i]);
        }
        law_definitions_touch_their_names(reg, r, n);
    } else {
        law_first_stub_counts(reg, r, k, n);
    }
}

/// A definition is complained about exactly where a command other than a stub has its name, and a
/// stub where anything has its name.
pub proof fn law_conflicts_are_reported(reg: CommandRegistry, defs: Seq<Cmd>, d: Cmd)
    ensures
        (defined(reg, defs, d.name()) matches Some(Registered::Mappable(c)) && !(c is Lazy))
            ==> define_conflicts(reg, defs.push(d)) == define_conflicts(reg, defs) + seq![
            (
                Severity::Error,
                "define-command!: '"@ + d.name() + "' conflicts with existing command"@,
            ),
        ],
        !(defined(reg, defs, d.name()) matches Some(Registered::Mappable(c)) && !(c is Lazy))
            ==> define_conflicts(reg, defs.push(d)) == define_conflicts(reg, defs),
        stubbed(reg, defs, d.name()) is Some ==> stub_conflicts(reg, defs.push(d))
            == stub_conflicts(reg, defs) + seq![
            (
                Severity::Error,
                "lazy command '"@ + d.name() + "' conflicts with an existing command"@,
            ),
        ],
        stubbed(reg, defs, d.name()) is None ==> stub_conflicts(reg, defs.push(d))
            == stub_conflicts(reg, defs),
        define_conflicts(reg, Seq::empty()).len() == 0,
        stub_conflicts(reg, Seq::empty()).len() == 0,
{
    assert(defs.push(d).drop_last() =~= defs);
}

/// The commands of scripts and the stubs of plugins are forgotten when scripting starts over; no
/// other command is.
pub proof fn law_dynamic_commands(c: Cmd)
    ensures
        dynamic(Some(Registered::Mappable(c))) <==> c is SteelBacked || c is Lazy,
        !dynamic(None),
{
}

} // verus!

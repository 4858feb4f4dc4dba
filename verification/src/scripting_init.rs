//! Starting the scripting host: which files are evaluated in which order, and what becomes
//! of what they define.

use crate::keymap::Keymap;
use crate::keymap_names::{keymap_names, lint_keymap, sorted_texts, unknown_bindings};
use crate::message_log::Severity;
use crate::messages::{Messages, Shown};
use crate::paths::{basename, inside_dir, join_dir, law_joined_name_is_found, Separators};
use crate::registry::CommandRegistry;
use crate::scripting::{
    define_conflicts, defined, defs_of, flush_script_messages,
    register_lazy_command_stubs, register_steel_cmds, script_entries, stub_conflicts, stubbed,
    stubs_of, CommandTrigger, LogLevel, SteelCmdDef,
};
use crate::strings::{concat2, concat3};
use vstd::prelude::*;
use vstd::string::*;

verus! {

/// How far the start has come.
#[derive(Debug, Clone, Copy, PartialEq, Eq, Structural)]
pub enum InitPhase {
    /// The directories are looked up.
    Directories,
    /// The prelude is evaluated.
    Prelude,
    /// The languages are evaluated.
    Languages,
    /// What the languages file registered is taken over.
    TakeLanguages,
    /// The user's file is evaluated.
    User,
    /// The commands that load plugins get their stubs.
    Stubs,
    /// What the user's file registered is taken over.
    UserLanguages,
    /// What is left over is collected.
    Collect,
    Done,
}

/// The directories that scripting looks in.
#[derive(Debug)]
pub struct InitDirs {
    pub config: Option<String>,
    pub runtime: Option<String>,
    pub data: Option<String>,
}

/// What happened outside since the last step.
pub enum InitEvent {
    Directories { dirs: InitDirs },
    /// A file was evaluated, or why that failed.
    Evaluated { result: Result<Vec<SteelCmdDef>, String> },
    /// The languages were taken over.
    LanguagesTaken,
    /// The commands that load plugins.
    Triggers { triggers: Vec<CommandTrigger> },
    /// The messages that the evaluation left.
    Collected { pending: Vec<(LogLevel, String)> },
}

/// What is to be done outside next.
#[derive(Debug)]
pub enum InitAction {
    Evaluate { path: String },
    /// Take over the languages that were registered since the last time.
    TakeLanguages,
    /// Hand out the commands that load plugins.
    HandTriggers,
    /// Set the sizes of the histories, and hand out the messages of scripts.
    Collect,
    /// Load the theme that is set, if one is, and find the languages of the open buffers.
    Finish,
    /// There is nothing to start.
    Stop,
}

/// What is to be done outside next, as a value.
pub enum InitDo {
    Evaluate(Seq<char>),
    TakeLanguages,
    HandTriggers,
    Collect,
    Finish,
    Stop,
}

impl View for InitAction {
    type V = InitDo;

    open spec fn view(&self) -> InitDo {
        match self {
            InitAction::Evaluate { path } => InitDo::Evaluate(path@),
            InitAction::TakeLanguages => InitDo::TakeLanguages,
            InitAction::HandTriggers => InitDo::HandTriggers,
            InitAction::Collect => InitDo::Collect,
            InitAction::Finish => InitDo::Finish,
            InitAction::Stop => InitDo::Stop,
        }
    }
}

/// The start of the scripting host.
#[derive(Debug)]
pub struct InitRun {
    /// What separates the components of the paths.
    pub separators: Separators,
    pub phase: InitPhase,
    pub config: String,
    pub runtime: Option<String>,
}

/// The messages about the directories of scripting, where there is one for its files.
pub open spec fn directories_reported(m: Shown, dirs: InitDirs) -> Shown {
    let a = match dirs.runtime {
        Some(d) => m.reported(Severity::Trace, "scripting: runtime dir = "@ + d@),
        None => m.reported(
            Severity::Warning,
            "scripting: no runtime directory found — core:* plugins unavailable; set HUME_RUNTIME to fix"@,
        ),
    };
    match dirs.data {
        Some(d) => a.reported(Severity::Trace, "scripting: data dir = "@ + d@),
        None => a.reported(
            Severity::Warning,
            "scripting: no data directory — HOME/APPDATA unset; user plugins unavailable"@,
        ),
    }
}

/// The messages after a file of the runtime was evaluated.
pub open spec fn evaluation_reported(
    m: Shown,
    file: Seq<char>,
    result: Result<Vec<SteelCmdDef>, String>,
) -> Shown {
    match result {
        Ok(_) => m,
        Err(e) => m.reported(Severity::Error, file + ": "@ + e@),
    }
}

/// The registry is as it was.
pub open spec fn registry_same(a: CommandRegistry, b: CommandRegistry) -> bool {
    &&& forall|n: Seq<char>| #[trigger] b.entry(n) == a.entry(n)
    &&& b.alias_map == a.alias_map
}

/// The path of the user's file.
pub open spec fn user_file(config: Seq<char>, s: Separators) -> Seq<char> {
    inside_dir(config, "init.scm"@, s)
}

impl InitRun {
    pub fn new(separators: Separators) -> (r: InitRun)
        ensures
            r.separators == separators,
            r.phase == InitPhase::Directories,
            r.config@.len() == 0,
            r.runtime is None,
    {
        InitRun {
            separators,
            phase: InitPhase::Directories,
            config: String::new(),
            runtime: None,
        }
    }

    /// Looks the directories up. Without a place for the user's file there is nothing to
    /// start.
    fn with_directories(&mut self, messages: &mut Messages, dirs: InitDirs) -> (r: InitAction)
        requires
            old(self).phase == InitPhase::Directories,
        ensures
            final(self).separators == old(self).separators,
            match dirs.config {
                None => {
                    &&& r@ == InitDo::Stop
                    &&& final(self).phase == InitPhase::Done
                    &&& final(messages)@ == old(messages)@.reported(
                        Severity::Warning,
                        "scripting: no config directory — HOME/APPDATA unset; init.scm skipped"@,
                    )
                },
                Some(c) => {
                    &&& final(messages)@ == directories_reported(old(messages)@, dirs)
                    &&& final(self).config == c
                    &&& final(self).runtime == dirs.runtime
                    &&& match dirs.runtime {
                        Some(d) => {
                            &&& r@ == InitDo::Evaluate(
                                inside_dir(d@, "scheme/prelude.scm"@, old(self).separators),
                            )
                            &&& final(self).phase == InitPhase::Prelude
                        },
                        None => {
                            &&& r@ == InitDo::Evaluate(user_file(c@, old(self).separators))
                            &&& final(self).phase == InitPhase::User
                        },
                    }
                },
            },
    {
        let config = match dirs.config {
            Some(c) => c,
            None => {
                messages.report(
                    Severity::Warning,
                    "scripting: no config directory — HOME/APPDATA unset; init.scm skipped".to_owned(),
                );
                self.phase = InitPhase::Done;
                return InitAction::Stop;
            },
        };
        match &dirs.runtime {
            Some(d) => messages.report(
                Severity::Trace,
                concat2("scripting: runtime dir = ", d.as_str()),
            ),
            None => messages.report(
                Severity::Warning,
                "scripting: no runtime directory found — core:* plugins unavailable; set HUME_RUNTIME to fix".to_owned(),
            ),
        }
        match &dirs.data {
            Some(d) => messages.report(
                Severity::Trace,
                concat2("scripting: data dir = ", d.as_str()),
            ),
            None => messages.report(
                Severity::Warning,
                "scripting: no data directory — HOME/APPDATA unset; user plugins unavailable".to_owned(),
            ),
        }
        let action = match &dirs.runtime {
            Some(d) => {
                self.phase = InitPhase::Prelude;
                InitAction::Evaluate {
                    path: join_dir(d.as_str(), "scheme/prelude.scm", self.separators),
                }
            },
            None => {
                self.phase = InitPhase::User;
                InitAction::Evaluate {
                    path: join_dir(config.as_str(), "init.scm", self.separators),
                }
            },
        };
        self.config = config;
        self.runtime = dirs.runtime;
        action
    }

    /// Takes note of an evaluated file.
    fn evaluated(
        &mut self,
        registry: &mut CommandRegistry,
        messages: &mut Messages,
        result: &Result<Vec<SteelCmdDef>, String>,
    ) -> (r: InitAction)
        requires
            old(self).phase == InitPhase::Prelude || old(self).phase == InitPhase::Languages
                || old(self).phase == InitPhase::User,
            old(self).phase == InitPhase::Prelude ==> old(self).runtime is Some,
        ensures
            final(self).separators == old(self).separators,
            final(self).config == old(self).config,
            final(self).runtime == old(self).runtime,
            match old(self).phase {
                InitPhase::Prelude => {
                    &&& registry_same(*old(registry), *final(registry))
                    &&& final(messages)@ == evaluation_reported(
                        old(messages)@,
                        "runtime/scheme/prelude.scm"@,
                        *result,
                    )
                    &&& r@ == InitDo::Evaluate(
                        inside_dir(
                            old(self).runtime->0@,
                            "scheme/languages.scm"@,
                            old(self).separators,
                        ),
                    )
                    &&& final(self).phase == InitPhase::Languages
                },
                InitPhase::Languages => {
                    &&& registry_same(*old(registry), *final(registry))
                    &&& final(messages)@ == evaluation_reported(
                        old(messages)@,
                        "runtime/scheme/languages.scm"@,
                        *result,
                    )
                    &&& r@ == InitDo::TakeLanguages
                    &&& final(self).phase == InitPhase::TakeLanguages
                },
                _ => {
                    &&& final(registry).alias_map == old(registry).alias_map
                    &&& r@ == InitDo::HandTriggers
                    &&& final(self).phase == InitPhase::Stubs
                    &&& match result {
                        Ok(cmds) => {
                            &&& forall|n: Seq<char>| #[trigger]
                                final(registry).entry(n) == defined(
                                    *old(registry),
                                    defs_of(cmds@),
                                    n,
                                )
                            &&& final(messages)@ == old(messages)@.reported_all(
                                define_conflicts(*old(registry), defs_of(cmds@)),
                            )
                        },
                        Err(_) => {
                            &&& registry_same(*old(registry), *final(registry))
                            &&& final(messages)@ == evaluation_reported(
                                old(messages)@,
                                "init.scm"@,
                                *result,
                            )
                        },
                    }
                },
            },
    {
        match self.phase {
            InitPhase::Prelude => {
                if let Err(e) = result {
                    messages.report(
                        Severity::Error,
                        concat3("runtime/scheme/prelude.scm", ": ", e.as_str()),
                    );
                }
                self.phase = InitPhase::Languages;
                let dir: String = match &self.runtime {
                    Some(d) => d.clone(),
                    None => String::new(),
                };
                InitAction::Evaluate {
                    path: join_dir(dir.as_str(), "scheme/languages.scm", self.separators),
                }
            },
            InitPhase::Languages => {
                if let Err(e) = result {
                    messages.report(
                        Severity::Error,
                        concat3("runtime/scheme/languages.scm", ": ", e.as_str()),
                    );
                }
                self.phase = InitPhase::TakeLanguages;
                InitAction::TakeLanguages
            },
            _ => {
                match result {
                    Ok(cmds) => register_steel_cmds(registry, messages, cmds),
                    Err(e) => messages.report(
                        Severity::Error,
                        concat3("init.scm", ": ", e.as_str()),
                    ),
                }
                self.phase = InitPhase::Stubs;
                InitAction::HandTriggers
            },
        }
    }

    /// An event that the phase waits for.
    pub open spec fn awaits(&self, event: InitEvent) -> bool {
        match self.phase {
            InitPhase::Directories => event is Directories,
            InitPhase::Prelude => event is Evaluated && self.runtime is Some,
            InitPhase::Languages => event is Evaluated,
            InitPhase::TakeLanguages => event is LanguagesTaken,
            InitPhase::User => event is Evaluated,
            InitPhase::Stubs => event is Triggers,
            InitPhase::UserLanguages => event is LanguagesTaken,
            InitPhase::Collect => event is Collected,
            InitPhase::Done => false,
        }
    }

    /// One step of the start. The files are evaluated in the order prelude, languages,
    /// user's file, the first two only where there is a runtime directory. Then the commands
    /// that load plugins get their stubs, the languages of the user's file are taken over,
    /// messages of scripts are reported, and keys that are bound to no command are warned of.
    pub fn step(
        &mut self,
        registry: &mut CommandRegistry,
        messages: &mut Messages,
        keymap: &Keymap,
        event: InitEvent,
    ) -> (r: InitAction)
        requires
            old(self).awaits(event),
        ensures
            final(self).separators == old(self).separators,
            match event {
                InitEvent::Directories { dirs } => {
                    &&& registry_same(*old(registry), *final(registry))
                    &&& match dirs.config {
                        None => {
                            &&& r@ == InitDo::Stop
                            &&& final(self).phase == InitPhase::Done
                            &&& final(messages)@ == old(messages)@.reported(
                                Severity::Warning,
                                "scripting: no config directory — HOME/APPDATA unset; init.scm skipped"@,
                            )
                        },
                        Some(c) => {
                            &&& final(messages)@ == directories_reported(old(messages)@, dirs)
                            &&& final(self).config == c
                            &&& final(self).runtime == dirs.runtime
                            &&& match dirs.runtime {
                                Some(d) => {
                                    &&& r@ == InitDo::Evaluate(
                                        inside_dir(d@, "scheme/prelude.scm"@, old(self).separators),
                                    )
                                    &&& final(self).phase == InitPhase::Prelude
                                },
                                None => {
                                    &&& r@ == InitDo::Evaluate(user_file(c@, old(self).separators))
                                    &&& final(self).phase == InitPhase::User
                                },
                            }
                        },
                    }
                },
                InitEvent::Evaluated { result } => {
                    &&& final(self).config == old(self).config
                    &&& final(self).runtime == old(self).runtime
                    &&& match old(self).phase {
                        InitPhase::Prelude => {
                            &&& registry_same(*old(registry), *final(registry))
                            &&& final(messages)@ == evaluation_reported(
                                old(messages)@,
                                "runtime/scheme/prelude.scm"@,
                                result,
                            )
                            &&& r@ == InitDo::Evaluate(
                                inside_dir(
                                    old(self).runtime->0@,
                                    "scheme/languages.scm"@,
                                    old(self).separators,
                                ),
                            )
                            &&& final(self).phase == InitPhase::Languages
                        },
                        InitPhase::Languages => {
                            &&& registry_same(*old(registry), *final(registry))
                            &&& final(messages)@ == evaluation_reported(
                                old(messages)@,
                                "runtime/scheme/languages.scm"@,
                                result,
                            )
                            &&& r@ == InitDo::TakeLanguages
                            &&& final(self).phase == InitPhase::TakeLanguages
                        },
                        _ => {
                            &&& final(registry).alias_map == old(registry).alias_map
                            &&& r@ == InitDo::HandTriggers
                            &&& final(self).phase == InitPhase::Stubs
                            &&& match result {
                                Ok(cmds) => {
                                    &&& forall|n: Seq<char>| #[trigger]
                                        final(registry).entry(n) == defined(
                                            *old(registry),
                                            defs_of(cmds@),
                                            n,
                                        )
                                    &&& final(messages)@ == old(messages)@.reported_all(
                                        define_conflicts(*old(registry), defs_of(cmds@)),
                                    )
                                },
                                Err(_) => {
                                    &&& registry_same(*old(registry), *final(registry))
                                    &&& final(messages)@ == evaluation_reported(
                                        old(messages)@,
                                        "init.scm"@,
                                        result,
                                    )
                                },
                            }
                        },
                    }
                },
                InitEvent::LanguagesTaken => {
                    &&& registry_same(*old(registry), *final(registry))
                    &&& final(messages)@ == old(messages)@
                    &&& final(self).config == old(self).config
                    &&& final(self).runtime == old(self).runtime
                    &&& if old(self).phase == InitPhase::TakeLanguages {
                        &&& r@ == InitDo::Evaluate(user_file(old(self).config@, old(self).separators))
                        &&& final(self).phase == InitPhase::User
                    } else {
                        &&& r@ == InitDo::Collect
                        &&& final(self).phase == InitPhase::Collect
                    }
                },
                InitEvent::Triggers { triggers } => {
                    &&& r@ == InitDo::TakeLanguages
                    &&& final(self).phase == InitPhase::UserLanguages
                    &&& final(self).config == old(self).config
                    &&& final(self).runtime == old(self).runtime
                    &&& final(registry).alias_map == old(registry).alias_map
                    &&& forall|n: Seq<char>| #[trigger]
                        final(registry).entry(n) == stubbed(
                            *old(registry),
                            stubs_of(triggers@),
                            n,
                        )
                    &&& final(messages)@ == old(messages)@.reported_all(
                        stub_conflicts(*old(registry), stubs_of(triggers@)),
                    )
                },
                InitEvent::Collected { pending } => {
                    &&& r@ == InitDo::Finish
                    &&& final(self).phase == InitPhase::Done
                    &&& registry_same(*old(registry), *final(registry))
                    &&& final(messages)@ == old(messages)@.reported_all(
                        script_entries(pending@),
                    ).reported_all(
                        unknown_bindings(sorted_texts(keymap_names(*keymap)), *final(registry)),
                    )
                },
            },
    {
        match event {
            InitEvent::Directories { dirs } => self.with_directories(messages, dirs),
            InitEvent::Evaluated { result } => self.evaluated(registry, messages, &result),
            InitEvent::LanguagesTaken => {
                if self.phase == InitPhase::TakeLanguages {
                    self.phase = InitPhase::User;
                    InitAction::Evaluate {
                        path: join_dir(self.config.as_str(), "init.scm", self.separators),
                    }
                } else {
                    self.phase = InitPhase::Collect;
                    InitAction::Collect
                }
            },
            InitEvent::Triggers { triggers } => {
                register_lazy_command_stubs(registry, messages, &triggers);
                self.phase = InitPhase::UserLanguages;
                InitAction::TakeLanguages
            },
            InitEvent::Collected { pending } => {
                flush_script_messages(messages, &pending);
                lint_keymap(keymap, registry, messages);
                self.phase = InitPhase::Done;
                InitAction::Finish
            },
        }
    }
}

/// The user's file is called `init.scm` and lies in the directory of the configuration.
pub proof fn law_user_file(config: Seq<char>)
    requires
        config.len() > 0,
    ensures
        basename(user_file(config, Separators::Slash), Separators::Slash) == Some("init.scm"@),
        config.last() != '/' ==> user_file(config, Separators::Slash) == config + "/init.scm"@,
{
    reveal_strlit("init.scm");
    reveal_strlit("/init.scm");
    let n = "init.scm"@;
    assert(n.len() == 8);
    assert(n =~= seq!['i', 'n', 'i', 't', '.', 's', 'c', 'm']);
    law_joined_name_is_found(config, n);
    assert(seq!['/'] + n =~= "/init.scm"@);
    assert(config + seq!['/'] + n =~= config + "/init.scm"@);
}

/// The phases wait for one kind of event each, and the last one for none.
pub proof fn law_each_phase_waits_for_its_event(run: InitRun, event: InitEvent, other: InitEvent)
    requires
        run.awaits(event),
        run.awaits(other),
    ensures
        run.phase != InitPhase::Done,
        event is Directories == other is Directories,
        event is Evaluated == other is Evaluated,
        event is LanguagesTaken == other is LanguagesTaken,
        event is Triggers == other is Triggers,
        event is Collected == other is Collected,
{
}

} // verus!

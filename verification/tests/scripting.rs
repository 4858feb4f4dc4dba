use hume_editor::keymap::Keymap;
use hume_editor::message_log::Severity;
use hume_editor::messages::Messages;
use hume_editor::paths::{join_dir, Separators};
use hume_editor::registry::CommandRegistry;
use hume_editor::scripting::{
    activate_and_trace, flush_script_messages, log_level_to_severity,
    register_lazy_command_stubs, register_steel_cmds, resolve_lazy, theme_search_paths,
    trigger_text, typed_reload_plugin, unregister_dynamic_commands, Activation, CommandTrigger,
    LogLevel, SteelCmdDef, Trigger,
};
use hume_editor::scripting_init::{InitAction, InitDirs, InitEvent, InitPhase, InitRun};
use hume_editor::startup::{
    begin_reload_config, finish_reload_config, hook_fired, inline_output_refused, script_returned,
    HookResult, ScriptResult,
};

const SLASH: Separators = Separators::Slash;

fn def(name: &str) -> SteelCmdDef {
    SteelCmdDef {
        name: name.to_string(),
        doc: "doc".to_string(),
        steel_proc: "proc".to_string(),
        extendable: false,
        arity: 0,
        is_variadic: false,
        inline_output: false,
    }
}

fn stub(name: &str) -> CommandTrigger {
    CommandTrigger { name: name.to_string(), plugin: "p".to_string() }
}

fn status(m: &Messages) -> &str {
    m.status_msg.as_deref().unwrap_or("")
}

#[test]
fn native_commands_are_not_redefined() {
    let mut reg = CommandRegistry::with_defaults();
    let mut m = Messages::new();
    let n = reg.len();
    register_steel_cmds(&mut reg, &mut m, &vec![def("mine"), def("undo")]);
    assert_eq!(reg.len(), n + 1);
    assert_eq!(status(&m), "define-command!: 'undo' conflicts with existing command");
    register_lazy_command_stubs(&mut reg, &mut m, &vec![stub("later"), stub("redo")]);
    assert!(status(&m).contains("'redo' conflicts with an existing command"));
    assert!(reg.contains("later"));
    // A stub gives way to the command that its plugin defines.
    register_steel_cmds(&mut reg, &mut m, &vec![def("later")]);
    assert_eq!(reg.get_mappable("later").unwrap().doc(), "doc");
    unregister_dynamic_commands(&mut reg);
    assert_eq!(reg.len(), n);
}

#[test]
fn stubs_that_stay_stubs_are_dropped() {
    let mut reg = CommandRegistry::with_defaults();
    let mut m = Messages::new();
    register_lazy_command_stubs(&mut reg, &mut m, &vec![stub("later")]);
    assert!(!resolve_lazy(&mut reg, "later"));
    assert!(!reg.contains("later"));
    register_steel_cmds(&mut reg, &mut m, &vec![def("now")]);
    assert!(resolve_lazy(&mut reg, "now"));
}

#[test]
fn loading_plugins_is_traced() {
    let mut reg = CommandRegistry::with_defaults();
    let mut m = Messages::new();
    let ok = Activation::Defined { commands: vec![def("mine")] };
    activate_and_trace(&mut reg, &mut m, "p", "event trigger 'x'", true, true, &ok);
    assert!(reg.contains("mine"));
    assert_eq!(m.log.entries()[0].text, "plugin 'p' loaded (event trigger 'x')");
    assert_eq!(m.log.entries()[0].severity, Severity::Trace);
    let t = Trigger::Language { name: "rust".to_string() };
    assert_eq!(trigger_text(&t), "language trigger 'rust'");
    let t = Trigger::Command { name: "c".to_string() };
    assert_eq!(trigger_text(&t), "command trigger 'c'");
}

#[test]
fn script_messages_are_reported() {
    let mut m = Messages::new();
    flush_script_messages(
        &mut m,
        &vec![(LogLevel::Trace, "t".to_string()), (LogLevel::Error, "e".to_string())],
    );
    assert_eq!(m.log.entries().len(), 2);
    assert_eq!(status(&m), "e");
    assert_eq!(log_level_to_severity(LogLevel::Info), Severity::Info);
    assert_eq!(log_level_to_severity(LogLevel::Warning), Severity::Warning);
}

#[test]
fn plugins_are_reloaded_by_name() {
    let mut reg = CommandRegistry::with_defaults();
    let mut m = Messages::new();
    let e = typed_reload_plugin(&mut reg, &mut m, None, None).unwrap_err();
    assert_eq!(e.message(), "Usage: :reload-plugin <name>");
    register_steel_cmds(&mut reg, &mut m, &vec![def("was")]);
    typed_reload_plugin(
        &mut reg,
        &mut m,
        Some("p"),
        Some(Ok((vec!["was".to_string()], vec![def("is")]))),
    )
    .unwrap();
    assert!(!reg.contains("was"));
    assert!(reg.contains("is"));
    assert_eq!(status(&m), "Reloaded plugin 'p'");
}

#[test]
fn user_themes_come_before_bundled_ones() {
    assert_eq!(
        theme_search_paths(Some("/c"), Some("/r"), SLASH),
        vec!["/c/themes".to_string(), "/r/themes".to_string()]
    );
    assert_eq!(theme_search_paths(None, None, SLASH), Vec::<String>::new());
    assert_eq!(join_dir("/a/", "b", SLASH), "/a/b");
}

#[test]
fn start_evaluates_prelude_languages_and_user_file() {
    let mut run = InitRun::new(SLASH);
    let mut reg = CommandRegistry::with_defaults();
    let mut m = Messages::new();
    let km = Keymap::default();
    let dirs = InitDirs {
        config: Some("/c".to_string()),
        runtime: Some("/r".to_string()),
        data: None,
    };
    let path = |a: InitAction| match a {
        InitAction::Evaluate { path } => path,
        other => panic!("unexpected {:?}", other),
    };
    let a = run.step(&mut reg, &mut m, &km, InitEvent::Directories { dirs });
    assert_eq!(path(a), "/r/scheme/prelude.scm");
    assert_eq!(
        status(&m),
        "scripting: no data directory — HOME/APPDATA unset; user plugins unavailable"
    );
    let a = run.step(&mut reg, &mut m, &km, InitEvent::Evaluated { result: Err("e1".to_string()) });
    assert_eq!(path(a), "/r/scheme/languages.scm");
    assert_eq!(status(&m), "runtime/scheme/prelude.scm: e1");
    let a = run.step(&mut reg, &mut m, &km, InitEvent::Evaluated { result: Ok(vec![]) });
    assert!(matches!(a, InitAction::TakeLanguages));
    let a = run.step(&mut reg, &mut m, &km, InitEvent::LanguagesTaken);
    assert_eq!(path(a), "/c/init.scm");
    let a = run.step(&mut reg, &mut m, &km, InitEvent::Evaluated { result: Ok(vec![def("mine")]) });
    assert!(matches!(a, InitAction::HandTriggers));
    assert!(reg.contains("mine"));
    let triggers = vec![stub("later")];
    let a = run.step(&mut reg, &mut m, &km, InitEvent::Triggers { triggers });
    assert!(matches!(a, InitAction::TakeLanguages));
    assert!(reg.contains("later"));
    let a = run.step(&mut reg, &mut m, &km, InitEvent::LanguagesTaken);
    assert!(matches!(a, InitAction::Collect));
    let a = run.step(
        &mut reg,
        &mut m,
        &km,
        InitEvent::Collected { pending: vec![(LogLevel::Warning, "careful".to_string())] },
    );
    assert!(matches!(a, InitAction::Finish));
    assert!(m.log.entries().iter().any(|e| e.text == "careful"));
    assert_eq!(run.phase, InitPhase::Done);
}

#[test]
fn start_without_directories() {
    let mut run = InitRun::new(SLASH);
    let mut reg = CommandRegistry::with_defaults();
    let mut m = Messages::new();
    let km = Keymap::default();
    let none = InitDirs { config: None, runtime: None, data: None };
    let a = run.step(&mut reg, &mut m, &km, InitEvent::Directories { dirs: none });
    assert!(matches!(a, InitAction::Stop));
    assert_eq!(
        status(&m),
        "scripting: no config directory — HOME/APPDATA unset; init.scm skipped"
    );
    let mut run = InitRun::new(SLASH);
    let some = InitDirs {
        config: Some("/c".to_string()),
        runtime: None,
        data: Some("/d".to_string()),
    };
    match run.step(&mut reg, &mut m, &km, InitEvent::Directories { dirs: some }) {
        InitAction::Evaluate { path } => assert_eq!(path, "/c/init.scm"),
        other => panic!("unexpected {:?}", other),
    }
    run.step(&mut reg, &mut m, &km, InitEvent::Evaluated { result: Err("bad".to_string()) });
    assert_eq!(status(&m), "init.scm: bad");
}

#[test]
fn reloading_the_configuration_forgets_scripts() {
    let mut reg = CommandRegistry::with_defaults();
    let mut m = Messages::new();
    let n = reg.len();
    register_steel_cmds(&mut reg, &mut m, &vec![def("mine")]);
    begin_reload_config(&mut reg);
    assert_eq!(reg.len(), n);
    finish_reload_config(&mut m);
    assert_eq!(status(&m), "Config reloaded");
}

#[test]
fn results_of_scripts_are_taken() {
    let mut m = Messages::new();
    let said = vec![(LogLevel::Warning, "careful".to_string())];
    let done = ScriptResult::<()> {
        cmd_queue: vec![],
        wait_char_request: Some("replace".to_string()),
        pending_language_sets: vec![],
        grammar_sweeps: vec!["rust".to_string()],
    };
    let r = script_returned(&mut m, &said, Ok(done)).unwrap();
    assert_eq!(r.wait_char_request.as_deref(), Some("replace"));
    assert_eq!(status(&m), "careful");
    assert!(script_returned::<()>(&mut m, &said, Err("boom".to_string())).is_none());
    assert_eq!(status(&m), "boom");
    assert_eq!(m.log.entries().len(), 2);
    let hook = HookResult::<()> {
        cmd_queue: vec![],
        pending_language_sets: vec![],
        grammar_sweeps: vec![],
    };
    assert!(hook_fired(&mut m, &said, Ok(hook)).is_some());
    assert!(hook_fired::<()>(&mut m, &said, Err("boom".to_string())).is_none());
    assert_eq!(status(&m), "hook error: boom");
    inline_output_refused(&mut m, "no terminal");
    assert_eq!(status(&m), "inline-output enter failed: no terminal");
}

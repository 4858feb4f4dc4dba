use hume_editor::buffer::{Buffer, FileMeta};
use hume_editor::buffer_store::BufferId;
use hume_editor::messages::Messages;
use hume_editor::ops::Workspace;
use hume_editor::parse_worker::{make_done, ParseOutcome, ParseTracker};
use hume_editor::paths::{FilePath, Separators};
use hume_editor::selection::SelectionSet;
use hume_editor::syntax::{detect_language, words_of, LanguageRegistry, RegisterError};
use hume_editor::syntax_glue::{
    apply_pending_language_regs, detect_and_set_language, install_parse_done,
    reparse_stale_buffers, set_buffer_language, setup_buffer_syntax, sweep_buffers_for_grammars,
    PendingLanguageReg,
};
use hume_editor::text::Text;

const SLASH: Separators = Separators::Slash;

fn strings(v: &[&str]) -> Vec<String> {
    v.iter().map(|s| s.to_string()).collect()
}

fn register(
    reg: &mut LanguageRegistry,
    name: &str,
    extensions: &[&str],
    globs: &[&str],
    shebangs: &[&str],
) {
    let r: Result<(), RegisterError> = reg.register_identity(
        name,
        &strings(extensions),
        &strings(globs),
        &strings(shebangs),
    );
    r.unwrap();
}

#[test]
fn language_registry_by_ext_lookup_empty() {
    let reg = LanguageRegistry::new();
    assert!(reg.by_extension("rs").is_none());
}

#[test]
fn language_registry_remove_is_idempotent() {
    let mut reg = LanguageRegistry::new();
    assert!(reg.remove("rust").is_none());
}

#[test]
fn register_identity_then_by_name_returns_entry() {
    let mut reg = LanguageRegistry::new();
    register(&mut reg, "toml", &["toml"], &[], &[]);
    let config = reg.by_name("toml").expect("identity should be registered");
    assert_eq!(config.name, "toml");
    assert!(reg.by_extension("toml").is_some(), "extension lookup must work after identity reg");
    // Flip: unknown ext should not match.
    assert!(reg.by_extension("yaml").is_none());
}

#[test]
fn register_identity_with_globs_lookup() {
    let mut reg = LanguageRegistry::new();
    register(&mut reg, "makefile", &[], &["Makefile", "GNUmakefile"], &[]);
    let matches = reg.matching_globs("Makefile");
    assert!(!matches.is_empty(), "Makefile should match registered glob");
    assert_eq!(reg.glob_lang_name(matches[0]), Some("makefile"));
    // Flip: non-matching path must produce empty match.
    assert!(reg.matching_globs("Cargo.toml").is_empty());
}

#[test]
fn remove_clears_glob_and_shebang_entries() {
    let mut reg = LanguageRegistry::new();
    register(&mut reg, "python", &["py"], &["*.py"], &["python"]);
    assert!(reg.by_extension("py").is_some());
    assert!(reg.by_shebang("python").is_some());
    assert!(!reg.matching_globs("foo.py").is_empty());

    reg.remove("python");

    assert!(reg.by_extension("py").is_none());
    assert!(reg.by_shebang("python").is_none());
    // Flip expectation: after remove, matches must be empty.
    assert!(reg.matching_globs("foo.py").is_empty());
}

#[test]
fn detect_language_by_extension() {
    let mut reg = LanguageRegistry::new();
    register(&mut reg, "rust", &["rs"], &[], &[]);
    let name = detect_language(Some("foo.rs"), None, &reg, SLASH);
    assert_eq!(name.as_deref(), Some("rust"));
    // Flip: wrong extension must not detect.
    let no_match = detect_language(Some("foo.py"), None, &reg, SLASH);
    assert!(no_match.is_none());
}

#[test]
fn detect_language_by_glob() {
    let mut reg = LanguageRegistry::new();
    register(&mut reg, "makefile", &[], &["Makefile", "GNUmakefile"], &[]);
    let name = detect_language(Some("/project/Makefile"), None, &reg, SLASH);
    assert_eq!(name.as_deref(), Some("makefile"));
    let no_match = detect_language(Some("/project/other"), None, &reg, SLASH);
    assert!(no_match.is_none());
}

#[test]
fn detect_language_glob_beats_extension() {
    let mut reg = LanguageRegistry::new();
    register(&mut reg, "typescript", &["ts"], &[], &[]);
    register(&mut reg, "tsconfig", &[], &["tsconfig.json", "*.config.json"], &[]);
    register(&mut reg, "json", &["json"], &[], &[]);
    let name = detect_language(Some("tsconfig.json"), None, &reg, SLASH);
    assert_eq!(name.as_deref(), Some("tsconfig"));
    // Flip: without the glob match, a plain .json should detect as json.
    let plain = detect_language(Some("other.json"), None, &reg, SLASH);
    assert_eq!(plain.as_deref(), Some("json"));
}

#[test]
fn detect_language_glob_tiebreak_last_registered_wins() {
    let mut reg = LanguageRegistry::new();
    register(&mut reg, "generic-json", &[], &["*.json"], &[]);
    register(&mut reg, "strict-json", &[], &["*.json"], &[]);
    assert_eq!(
        detect_language(Some("config.json"), None, &reg, SLASH).as_deref(),
        Some("strict-json"),
    );

    let mut reg2 = LanguageRegistry::new();
    register(&mut reg2, "strict-json", &[], &["*.json"], &[]);
    register(&mut reg2, "generic-json", &[], &["*.json"], &[]);
    assert_eq!(
        detect_language(Some("config.json"), None, &reg2, SLASH).as_deref(),
        Some("generic-json"),
    );
}

#[test]
fn detect_language_by_shebang() {
    let mut reg = LanguageRegistry::new();
    register(&mut reg, "python", &["py"], &[], &["python3", "python"]);
    let name = detect_language(Some("script"), Some("#!/usr/bin/env python3"), &reg, SLASH);
    assert_eq!(name.as_deref(), Some("python"));
    // Flip: wrong shebang must not match.
    let no_match = detect_language(Some("script"), Some("#!/bin/bash"), &reg, SLASH);
    assert!(no_match.is_none());
}

#[test]
fn detect_language_shebang_direct_path() {
    let mut reg = LanguageRegistry::new();
    register(&mut reg, "bash", &["sh"], &[], &["bash"]);
    // Extension wins over shebang.
    let name = detect_language(Some("run.sh"), Some("#!/bin/bash"), &reg, SLASH);
    assert_eq!(name.as_deref(), Some("bash"));
    // Without extension, shebang is used.
    let name2 = detect_language(Some("run"), Some("#!/bin/bash"), &reg, SLASH);
    assert_eq!(name2.as_deref(), Some("bash"));
}

#[test]
fn detect_language_no_match() {
    let reg = LanguageRegistry::new();
    assert!(detect_language(Some("foo.xyz"), None, &reg, SLASH).is_none());
    assert!(detect_language(None, None, &reg, SLASH).is_none());
}

#[test]
fn endings_are_compared_in_lower_case() {
    let mut reg = LanguageRegistry::new();
    register(&mut reg, "r", &["R"], &[], &[]);
    assert!(reg.by_extension("r").is_some());
    assert_eq!(detect_language(Some("/a/PLOT.R"), None, &reg, SLASH).as_deref(), Some("r"));
    // A leading dot is no ending.
    assert!(detect_language(Some("/a/.r"), None, &reg, SLASH).is_none());
}

#[test]
fn env_options_are_passed_over() {
    let mut reg = LanguageRegistry::new();
    register(&mut reg, "python", &[], &[], &["python3"]);
    let line = "#!/usr/bin/env -S -i python3 -u";
    assert_eq!(detect_language(None, Some(line), &reg, SLASH).as_deref(), Some("python"));
    let spaced = Some("#! env python3");
    assert_eq!(detect_language(None, spaced, &reg, SLASH).as_deref(), Some("python"));
    assert!(detect_language(None, Some("#!"), &reg, SLASH).is_none());
    assert!(detect_language(None, Some("#!/usr/bin/env"), &reg, SLASH).is_none());
}

#[test]
fn names_are_found_behind_either_separator() {
    let both = Separators::SlashAndBackslash;
    let mut reg = LanguageRegistry::new();
    register(&mut reg, "make", &[], &["Makefile"], &[]);
    register(&mut reg, "python", &["py"], &[], &["python3"]);
    let path = Some("C:\\src\\Makefile");
    assert_eq!(detect_language(path, None, &reg, both).as_deref(), Some("make"));
    assert!(detect_language(path, None, &reg, SLASH).is_none());
    let line = Some("#!C:\\bin\\python3");
    assert_eq!(detect_language(None, line, &reg, both).as_deref(), Some("python"));
    assert!(detect_language(None, line, &reg, SLASH).is_none());
    // The dot is not in the name.
    assert!(detect_language(Some("a.py\\b"), None, &reg, both).is_none());
}

#[test]
fn words_are_split_at_whitespace() {
    assert_eq!(words_of("  a\tbc  d "), vec!["a", "bc", "d"]);
    assert!(words_of("   ").is_empty());
}

#[test]
fn invalid_globs_are_left_out() {
    let mut reg = LanguageRegistry::new();
    register(&mut reg, "x", &[], &["[", "*.x"], &[]);
    assert_eq!(reg.matching_globs("a.x"), vec![0]);
    assert_eq!(reg.glob_lang_name(0), Some("x"));
    assert_eq!(reg.glob_lang_name(1), None);
}

#[test]
fn registering_again_replaces_the_language() {
    let mut reg = LanguageRegistry::new();
    register(&mut reg, "x", &["a", "b"], &[], &["ia"]);
    register(&mut reg, "x", &["b"], &[], &["ib"]);
    assert!(reg.by_extension("a").is_none());
    assert_eq!(reg.by_extension("b").unwrap().name, "x");
    assert!(reg.by_shebang("ia").is_none());
    assert!(reg.by_shebang("ib").is_some());
    assert_eq!(reg.lang_order, vec!["x"]);
}

#[test]
fn register_error_is_a_sentence() {
    let e = RegisterError::GlobBuild { error: "too large".to_string() };
    assert_eq!(e.message(), "glob set compilation failed: too large");
}

#[test]
fn pending_languages_are_registered_together() {
    let mut reg = LanguageRegistry::new();
    let mut messages = Messages::new();
    let regs = vec![
        PendingLanguageReg {
            name: "a".to_string(),
            extensions: strings(&["aa"]),
            globs: strings(&["*.q"]),
            shebangs: vec![],
        },
        PendingLanguageReg {
            name: "b".to_string(),
            extensions: vec![],
            globs: strings(&["*.q"]),
            shebangs: vec![],
        },
    ];
    apply_pending_language_regs(&mut reg, &mut messages, &regs);
    assert_eq!(detect_language(Some("x.q"), None, &reg, SLASH).as_deref(), Some("b"));
    assert_eq!(detect_language(Some("x.aa"), None, &reg, SLASH).as_deref(), Some("a"));
    assert!(messages.status_msg.is_none());
}

// ── highlighting ──────────────────────────────────────────────────────────────

fn workspace(text: &str) -> (Workspace, BufferId) {
    let ws = Workspace::new(Buffer::new(Text::from(text), SelectionSet::default()), 80, 24, 10);
    let id = ws.focused_buffer_id();
    (ws, id)
}

fn with_grammar(name: &str, grammar: Option<u64>) -> LanguageRegistry {
    let mut reg = LanguageRegistry::new();
    register(&mut reg, name, &["rs"], &[], &[]);
    let mut config = reg.by_name.remove(name).unwrap();
    config.grammar = grammar;
    reg.by_name.insert(name.to_string(), config);
    reg
}

#[test]
fn highlighting_needs_a_grammar_and_a_small_buffer() {
    let (mut ws, id) = workspace("fn main() {}\n");
    let mut worker = ParseTracker::new();
    let reg = with_grammar("rust", Some(9));
    assert!(setup_buffer_syntax(&mut ws.buffers, &mut worker, &reg, id, 1000).is_none());
    assert!(set_buffer_language(&mut ws.buffers, id, Some("rust".to_string())));
    assert!(!set_buffer_language(&mut ws.buffers, id, Some("rust".to_string())));
    assert!(setup_buffer_syntax(&mut ws.buffers, &mut worker, &reg, id, 5).is_none());
    let r = setup_buffer_syntax(&mut ws.buffers, &mut worker, &reg, id, 1000).unwrap();
    assert_eq!(r.lang, 9);
    assert_eq!(r.source_bytes, b"fn main() {}\n");
    assert!(ws.buffers.get(id).syntax.is_some());
    let bare = with_grammar("rust", None);
    assert!(setup_buffer_syntax(&mut ws.buffers, &mut worker, &bare, id, 1000).is_none());
    assert!(ws.buffers.get(id).syntax.is_none());
}

#[test]
fn stale_buffers_are_parsed_again_once() {
    let (mut ws, id) = workspace("fn main() {}\n");
    let mut worker = ParseTracker::new();
    let mut messages = Messages::new();
    let reg = with_grammar("rust", Some(9));
    set_buffer_language(&mut ws.buffers, id, Some("rust".to_string()));
    let shown = vec![id, id];
    let none = vec![];
    let asked = reparse_stale_buffers(
        &mut ws.buffers, &mut worker, &mut messages, &reg, &shown, &none, 1000,
    );
    assert_eq!(asked.len(), 1);
    worker.post(&asked[0], true);
    let again = reparse_stale_buffers(
        &mut ws.buffers, &mut worker, &mut messages, &reg, &shown, &none, 1000,
    );
    assert!(again.is_empty());
    let done = vec![make_done(&asked[0], ParseOutcome::Parsed)];
    let after = reparse_stale_buffers(
        &mut ws.buffers, &mut worker, &mut messages, &reg, &shown, &done, 1000,
    );
    assert!(after.is_empty());
    assert!(!worker.has_in_flight());
    assert_eq!(ws.buffers.get(id).syntax.unwrap().parsed_gen, Some(0));
    // Grown too large.
    let gone = reparse_stale_buffers(
        &mut ws.buffers, &mut worker, &mut messages, &reg, &shown, &none, 5,
    );
    assert!(gone.is_empty());
    assert!(ws.buffers.get(id).syntax.is_none());
}

#[test]
fn answers_for_another_text_or_grammar_are_dropped() {
    let (mut ws, id) = workspace("fn main() {}\n");
    let mut worker = ParseTracker::new();
    let reg = with_grammar("rust", Some(9));
    set_buffer_language(&mut ws.buffers, id, Some("rust".to_string()));
    let r = setup_buffer_syntax(&mut ws.buffers, &mut worker, &reg, id, 1000).unwrap();
    let mut stale = make_done(&r, ParseOutcome::Parsed);
    stale.text_gen = 7;
    assert!(!install_parse_done(&mut ws.buffers, &mut worker, &stale));
    let mut other = make_done(&r, ParseOutcome::Parsed);
    other.lang = 8;
    assert!(!install_parse_done(&mut ws.buffers, &mut worker, &other));
    assert_eq!(ws.buffers.get(id).syntax.unwrap().parsed_gen, None);
    let failed = make_done(&r, ParseOutcome::ParseFailed);
    assert!(!install_parse_done(&mut ws.buffers, &mut worker, &failed));
    assert!(ws.buffers.get(id).syntax.is_some());
    let rejected = make_done(&r, ParseOutcome::Rejected);
    assert!(!install_parse_done(&mut ws.buffers, &mut worker, &rejected));
    assert!(ws.buffers.get(id).syntax.is_none());
}

#[test]
fn a_lost_worker_is_logged_once() {
    let (mut ws, id) = workspace("x\n");
    let mut worker = ParseTracker::new();
    worker.lose_worker();
    let mut messages = Messages::new();
    let reg = LanguageRegistry::new();
    for _ in 0..2 {
        reparse_stale_buffers(
            &mut ws.buffers, &mut worker, &mut messages, &reg, &vec![id], &vec![], 1000,
        );
    }
    assert_eq!(messages.log.entries().len(), 1);
    assert!(messages.status_msg.is_none());
}

#[test]
fn attached_grammars_sweep_their_buffers() {
    let (mut ws, id) = workspace("x\n");
    let mut worker = ParseTracker::new();
    let reg = with_grammar("rust", Some(9));
    set_buffer_language(&mut ws.buffers, id, Some("rust".to_string()));
    let none = sweep_buffers_for_grammars(
        &mut ws.buffers, &mut worker, &reg, &strings(&["toml"]), 1000,
    );
    assert!(none.is_empty());
    let one = sweep_buffers_for_grammars(
        &mut ws.buffers, &mut worker, &reg, &strings(&["toml", "rust"]), 1000,
    );
    assert_eq!(one.len(), 1);
    assert_eq!(one[0].bid, id);
}

#[test]
fn language_of_an_opened_file_is_detected() {
    let meta = FileMeta { resolved_path: FilePath::new("/p/main.rs".to_string(), SLASH) };
    let mut ws = Workspace::new(Buffer::from_file("fn main() {}\n", meta), 80, 24, 10);
    let id = ws.focused_buffer_id();
    let reg = with_grammar("rust", None);
    assert!(detect_and_set_language(&mut ws.buffers, id, &reg, SLASH));
    assert_eq!(ws.buffers.get(id).language.as_deref(), Some("rust"));
    assert!(!detect_and_set_language(&mut ws.buffers, id, &reg, SLASH));
}

#[test]
fn setting_up_again_changes_nothing() {
    let (mut ws, id) = workspace("fn\n");
    let mut worker = ParseTracker::new();
    let reg = with_grammar("rust", Some(7));
    set_buffer_language(&mut ws.buffers, id, Some("rust".to_string()));
    let a = setup_buffer_syntax(&mut ws.buffers, &mut worker, &reg, id, 1000).unwrap();
    let b = setup_buffer_syntax(&mut ws.buffers, &mut worker, &reg, id, 1000).unwrap();
    assert_eq!((a.bid, a.text_gen, a.lang), (b.bid, b.text_gen, b.lang));
    assert_eq!(a.source_bytes, b"fn\n".to_vec());
    assert_eq!(b.source_bytes, a.source_bytes);
    assert!(!worker.has_in_flight());
}

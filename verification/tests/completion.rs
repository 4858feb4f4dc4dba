use hume_editor::buffer::Buffer;
use hume_editor::buffer_store::{BufferId, BufferStore};
use hume_editor::completion::{
    arg_prefix, lookup_dir, shorten_home, split_path_at_sep, BufferNameCompleter,
    CommandCompleter, Completion, CompletionCtx, CompletionState, DirEntry, PathCompleter,
};
use hume_editor::paths::{FilePath, Separators};
use hume_editor::registry::CommandRegistry;
use hume_editor::selection::SelectionSet;
use hume_editor::slots::IdPool;
use hume_editor::text::Text;

const SLASH: Separators = Separators::Slash;

fn make_ctx_parts() -> (CommandRegistry, BufferStore, IdPool) {
    (CommandRegistry::with_defaults(), BufferStore::new(), IdPool::new())
}

fn ctx<'a>(registry: &'a CommandRegistry, buffers: &'a BufferStore) -> CompletionCtx<'a> {
    CompletionCtx { registry, buffers, home: None }
}

fn make_id(ids: &mut IdPool) -> BufferId {
    BufferId(ids.insert())
}

fn make_buf() -> Buffer {
    Buffer::new(Text::from("a\n"), SelectionSet::default())
}

fn buf_with_path(path: &str) -> Buffer {
    let mut b = make_buf();
    b.set_path(Some(FilePath::new(path.to_string(), SLASH)));
    b
}

fn displays(v: &[Completion]) -> Vec<&str> {
    v.iter().map(|c| c.display.as_str()).collect()
}

fn replacements(v: &[Completion]) -> Vec<&str> {
    v.iter().map(|c| c.replacement.as_str()).collect()
}

fn file(name: &str) -> DirEntry {
    DirEntry { name: name.to_string(), is_dir: false }
}

fn dir(name: &str) -> DirEntry {
    DirEntry { name: name.to_string(), is_dir: true }
}

// ── CommandCompleter ──────────────────────────────────────────────────────────

#[test]
fn command_completer_empty_prefix_returns_all() {
    let (reg, store, _) = make_ctx_parts();
    let ctx = ctx(&reg, &store);
    let result = CommandCompleter.complete("", 0, &ctx);
    // All registered names (canonicals + aliases) minus empty prefix match all.
    assert!(!result.candidates.is_empty());
    assert_eq!(result.span_start, 0);
}

#[test]
fn command_completer_prefix_filters() {
    let (reg, store, _) = make_ctx_parts();
    let ctx = ctx(&reg, &store);
    let result = CommandCompleter.complete("q", 1, &ctx);
    assert!(result.candidates.iter().all(|c| c.replacement.starts_with('q')));
    assert!(result.candidates.iter().any(|c| c.replacement == "quit"));
}

#[test]
fn command_completer_no_match_returns_empty() {
    let (reg, store, _) = make_ctx_parts();
    let ctx = ctx(&reg, &store);
    let result = CommandCompleter.complete("zzz", 3, &ctx);
    assert!(result.candidates.is_empty());
}

#[test]
fn command_completer_sorted_ascending() {
    let (reg, store, _) = make_ctx_parts();
    let ctx = ctx(&reg, &store);
    let result = CommandCompleter.complete("w", 1, &ctx);
    let names = displays(&result.candidates);
    let mut sorted = names.clone();
    sorted.sort_unstable();
    assert_eq!(names, sorted);
}

#[test]
fn command_completer_alias_and_canonical_both_appear() {
    let (reg, store, _) = make_ctx_parts();
    let ctx = ctx(&reg, &store);
    // Typing "wr" matches "write" (canonical) and "write-quit" (canonical);
    // "w" (alias) is excluded because it doesn't start with "wr".
    let result = CommandCompleter.complete("wr", 2, &ctx);
    let names = replacements(&result.candidates);
    assert!(names.contains(&"write"), "canonical 'write' should appear");
    assert!(names.contains(&"write-quit"), "canonical 'write-quit' should appear");
    // Verify aliases also surface: "wq" is an alias, starts with "w" not "wr".
    let result2 = CommandCompleter.complete("w", 1, &ctx);
    let names2 = replacements(&result2.candidates);
    assert!(names2.contains(&"write"), "canonical 'write' should appear with prefix 'w'");
    assert!(names2.contains(&"wq"), "'wq' alias should appear with prefix 'w'");
}

#[test]
fn command_completer_exact_prefix_not_included() {
    // Typing the exact name should not complete to itself.
    let (reg, store, _) = make_ctx_parts();
    let ctx = ctx(&reg, &store);
    let result = CommandCompleter.complete("quit", 4, &ctx);
    assert!(!result.candidates.iter().any(|c| c.replacement == "quit"));
}

// ── BufferNameCompleter ───────────────────────────────────────────────────────

#[test]
fn buffer_name_completer_matches_basename() {
    let (reg, mut store, mut ids) = make_ctx_parts();
    let id = make_id(&mut ids);
    store.open(id, buf_with_path("/tmp/foo.txt"));
    let ctx = ctx(&reg, &store);
    let result = BufferNameCompleter.complete("bd f", 4, &ctx);
    assert_eq!(result.span_start, 3);
    assert!(result.candidates.iter().any(|c| c.replacement == "/tmp/foo.txt"));
}

#[test]
fn buffer_name_completer_scratch_buffer() {
    let (reg, mut store, mut ids) = make_ctx_parts();
    let id = make_id(&mut ids);
    store.open(id, make_buf()); // no path → scratch
    let ctx = ctx(&reg, &store);
    let result = BufferNameCompleter.complete("bd *", 4, &ctx);
    assert_eq!(result.span_start, 3);
    assert!(result.candidates.iter().any(|c| c.replacement == "*scratch*"));
}

#[test]
fn buffer_name_completer_no_match() {
    let (reg, mut store, mut ids) = make_ctx_parts();
    let id = make_id(&mut ids);
    store.open(id, buf_with_path("/tmp/foo.txt"));
    let ctx = ctx(&reg, &store);
    let result = BufferNameCompleter.complete("bd z", 4, &ctx);
    assert!(result.candidates.is_empty());
}

#[test]
fn buffer_name_completer_duplicate_basename_adds_parent_suffix() {
    let (reg, mut store, mut ids) = make_ctx_parts();
    let id1 = make_id(&mut ids);
    let id2 = make_id(&mut ids);
    let id3 = make_id(&mut ids);
    store.open(id1, buf_with_path("/a/foo.txt"));
    store.open(id2, buf_with_path("/b/foo.txt"));
    store.open(id3, buf_with_path("/tmp/bar.txt"));
    let ctx = ctx(&reg, &store);

    let result = BufferNameCompleter.complete("b ", 2, &ctx);
    // All three buffers should appear (prefix "" matches all).
    assert_eq!(result.candidates.len(), 3);

    // The two foo.txt entries must have parent-dir suffixes in their display.
    let foo_entries: Vec<&str> =
        displays(&result.candidates).into_iter().filter(|d| d.contains("foo.txt")).collect();
    assert_eq!(foo_entries.len(), 2, "both foo.txt entries must appear");
    assert!(
        foo_entries.iter().all(|d| d.contains('(')),
        "duplicate basenames must include a parent-dir suffix: {foo_entries:?}"
    );

    // The unique bar.txt entry must NOT have a suffix.
    let bar_entry = result
        .candidates
        .iter()
        .find(|c| c.display.contains("bar.txt"))
        .expect("bar.txt must appear");
    assert!(
        !bar_entry.display.contains('('),
        "unique basename must not have a suffix: {}",
        bar_entry.display
    );

    // Replacements are always the full paths.
    assert!(result.candidates.iter().any(|c| c.replacement == "/a/foo.txt"));
    assert!(result.candidates.iter().any(|c| c.replacement == "/b/foo.txt"));
    assert!(result.candidates.iter().any(|c| c.replacement == "/tmp/bar.txt"));
    assert_eq!(
        displays(&result.candidates),
        vec!["bar.txt", "foo.txt  (/a/)", "foo.txt  (/b/)"]
    );
}

#[test]
fn shared_names_show_the_home_directory_short() {
    let (reg, mut store, mut ids) = make_ctx_parts();
    store.open(make_id(&mut ids), buf_with_path("/home/me/a/foo.txt"));
    store.open(make_id(&mut ids), buf_with_path("/b/foo.txt"));
    let ctx = CompletionCtx { registry: &reg, buffers: &store, home: Some("/home/me") };
    let result = BufferNameCompleter.complete("b f", 3, &ctx);
    assert_eq!(displays(&result.candidates), vec!["foo.txt  (/b/)", "foo.txt  (~/a/)"]);
}

// ── PathCompleter ─────────────────────────────────────────────────────────────

#[test]
fn path_completer_lists_directory() {
    let entries = vec![file("alpha.txt"), file("beta.txt"), dir("gamma")];
    let input = "e ";
    let result =
        PathCompleter { dirs_only: false }.complete(input, input.len(), Some(&entries), SLASH);
    let names = displays(&result.candidates);
    assert!(names.contains(&"alpha.txt"), "alpha.txt should appear");
    assert!(names.contains(&"beta.txt"), "beta.txt should appear");
    assert!(names.contains(&"gamma/"), "directory gets trailing /");
    assert_eq!(result.span_start, 2);
}

#[test]
fn path_completer_filters_by_prefix() {
    let entries = vec![file("foo.txt"), file("bar.txt")];
    let input = "e foo";
    let result =
        PathCompleter { dirs_only: false }.complete(input, input.len(), Some(&entries), SLASH);
    assert_eq!(result.candidates.len(), 1);
    assert_eq!(result.candidates[0].replacement, "foo.txt");
}

#[test]
fn path_completer_excludes_hidden_unless_dot_prefix() {
    let entries = vec![file(".hidden"), file("visible")];

    // Without dot prefix: hidden excluded.
    let result = PathCompleter { dirs_only: false }.complete("e ", 2, Some(&entries), SLASH);
    assert!(!result.candidates.iter().any(|c| c.display.starts_with('.')));
    assert!(result.candidates.iter().any(|c| c.display == "visible"));

    // With dot prefix: hidden included.
    let input = "e .";
    let result =
        PathCompleter { dirs_only: false }.complete(input, input.len(), Some(&entries), SLASH);
    assert!(result.candidates.iter().any(|c| c.display == ".hidden"));
}

#[test]
fn path_completer_multi_segment() {
    // Completing "sub/f" — should find "sub/file.rs".
    let input = "e sub/f";
    let completer = PathCompleter { dirs_only: false };
    let typed = completer.directory_typed(input, input.len(), SLASH);
    assert_eq!(typed, "sub/");
    assert_eq!(lookup_dir(&typed, "/work", SLASH), "/work/sub/");
    let entries = vec![file("file.rs")];
    let result = completer.complete(input, input.len(), Some(&entries), SLASH);
    assert_eq!(result.candidates.len(), 1);
    assert_eq!(result.candidates[0].replacement, "sub/file.rs");
}

#[test]
fn path_completer_missing_dir_returns_empty() {
    let result = PathCompleter { dirs_only: false }.complete("e foo", 5, None, SLASH);
    assert!(result.candidates.is_empty());
}

#[test]
fn path_completer_sorted_ascending() {
    let entries = vec![file("zz.txt"), file("aa.txt"), file("mm.txt")];
    let result = PathCompleter { dirs_only: false }.complete("e ", 2, Some(&entries), SLASH);
    let names = displays(&result.candidates);
    let mut sorted = names.clone();
    sorted.sort_unstable();
    assert_eq!(names, sorted, "results must be sorted alphabetically");
}

#[test]
fn path_completer_tilde_expands_for_lookup_keeps_literal_replacement() {
    let input = "e ~/";
    let completer = PathCompleter { dirs_only: false };
    assert_eq!(completer.directory_typed(input, input.len(), SLASH), "~/");
    // The tilde is written out before the directory is read.
    assert_eq!(lookup_dir("/home/me/", "/tmp", SLASH), "/home/me/");
    let entries = vec![file("notes.md"), dir("code")];
    let result = completer.complete(input, input.len(), Some(&entries), SLASH);

    assert!(!result.candidates.is_empty(), "tilde should resolve to home and list entries");
    // Replacements must keep the literal `~/` prefix, not expand to the absolute path.
    assert!(
        result.candidates.iter().all(|c| c.replacement.starts_with("~/")),
        "replacements must preserve the `~/` prefix"
    );
    let names = displays(&result.candidates);
    assert!(names.contains(&"notes.md"), "notes.md should appear");
    assert!(names.contains(&"code/"), "code/ directory should appear with trailing /");
}

#[test]
fn path_completer_dollar_var_expands_for_lookup() {
    let input = "e $MYDIR/";
    let completer = PathCompleter { dirs_only: false };
    assert_eq!(completer.directory_typed(input, input.len(), SLASH), "$MYDIR/");
    let entries = vec![file("main.rs")];
    let result = completer.complete(input, input.len(), Some(&entries), SLASH);

    assert!(!result.candidates.is_empty(), "$MYDIR should expand and list entries");
    assert!(result.candidates.iter().all(|c| c.replacement.starts_with("$MYDIR/")));
    let names = displays(&result.candidates);
    assert!(names.contains(&"main.rs"));
}

#[test]
fn only_directories_for_changing_directory() {
    let entries = vec![file("a"), dir("b")];
    let result = PathCompleter { dirs_only: true }.complete("cd ", 3, Some(&entries), SLASH);
    assert_eq!(replacements(&result.candidates), vec!["b/"]);
}

// ── Helpers ───────────────────────────────────────────────────────────────────

#[test]
fn argument_starts_behind_the_first_space() {
    assert_eq!(arg_prefix("edit föö bar", 8), (5, "fö".to_string()));
    assert_eq!(arg_prefix("b foo", 100), (2, "foo".to_string()));
    assert_eq!(arg_prefix("quit", 2), (0, "qu".to_string()));
    assert_eq!(arg_prefix("e ", 2), (2, String::new()));
}

#[test]
fn span_of_the_selected_candidate_is_in_bytes() {
    let c = |s: &str| Completion { replacement: s.to_string(), display: s.to_string() };
    let state = CompletionState { candidates: vec![c("a"), c("äb")], selected: 1, span_start: 3 };
    assert_eq!(state.current_span(), 3..6);
}

#[test]
fn paths_are_split_behind_the_last_separator() {
    assert_eq!(split_path_at_sep("a/b/c", SLASH), ("a/b/".to_string(), "c".to_string()));
    assert_eq!(split_path_at_sep("c", SLASH), (String::new(), "c".to_string()));
    assert_eq!(split_path_at_sep("/", SLASH), ("/".to_string(), String::new()));
    assert_eq!(lookup_dir("", "/work", SLASH), "/work");
    assert_eq!(lookup_dir("/abs/", "/work", SLASH), "/abs/");
}

#[test]
fn home_is_shortened_only_as_a_whole_component() {
    assert_eq!(shorten_home("/home/me", Some("/home/me"), SLASH), "~");
    assert_eq!(shorten_home("/home/me/x", Some("/home/me"), SLASH), "~/x");
    assert_eq!(shorten_home("/home/meg", Some("/home/me"), SLASH), "/home/meg");
    assert_eq!(shorten_home("/home/me", None, SLASH), "/home/me");
}

#[test]
fn both_separators_split_paths_where_both_are_meant() {
    let both = Separators::SlashAndBackslash;
    assert_eq!(split_path_at_sep("a/b\\c", both), ("a/b\\".to_string(), "c".to_string()));
    assert_eq!(split_path_at_sep("a\\b/c", both), ("a\\b/".to_string(), "c".to_string()));
    assert_eq!(split_path_at_sep("a\\b", SLASH), (String::new(), "a\\b".to_string()));
    assert_eq!(lookup_dir("sub\\", "C:\\work", both), "C:\\work\\sub\\");
    assert_eq!(lookup_dir("D:\\abs\\", "C:\\work", both), "D:\\abs\\");
    assert_eq!(lookup_dir("\\abs\\", "C:\\work", both), "C:\\abs\\");
    assert_eq!(lookup_dir("D:sub\\", "C:\\work", both), "D:sub\\");
    assert_eq!(shorten_home("C:\\me\\x", Some("C:\\me"), both), "~\\x");
    assert_eq!(shorten_home("C:\\me\\x", Some("C:\\me"), SLASH), "C:\\me\\x");
}

#[test]
fn what_was_typed_of_a_path_keeps_its_separators() {
    let both = Separators::SlashAndBackslash;
    let completer = PathCompleter { dirs_only: false };
    let entries = vec![DirEntry { name: "file.rs".to_string(), is_dir: false }];
    let input = "e sub\\fi";
    assert_eq!(completer.directory_typed(input, input.len(), both), "sub\\");
    let result = completer.complete(input, input.len(), Some(&entries), both);
    assert_eq!(result.candidates.len(), 1);
    assert_eq!(result.candidates[0].replacement, "sub\\file.rs");
    assert_eq!(result.candidates[0].display, "file.rs");
}

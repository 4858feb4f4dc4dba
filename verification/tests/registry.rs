use hume_editor::command::{MappableCommand, TypedCommand};
use hume_editor::editor_commands::{editor_command, line_command, EditorCommand, LineCommand};
use hume_editor::registry::CommandRegistry;
use hume_editor::search::SearchDirection;
use hume_editor::state::FindKind;
use std::collections::HashSet;

const EXPECTED_COMMAND_COUNT: usize = 107;

#[test]
fn registry_has_expected_count() {
    let reg = CommandRegistry::with_defaults();
    assert_eq!(
        reg.len(),
        EXPECTED_COMMAND_COUNT,
        "registered command count mismatch — did you add a command without registering it?"
    );
}

#[test]
fn mappable_lookup_by_name_works() {
    let reg = CommandRegistry::with_defaults();

    // Motion
    let cmd = reg.get_mappable("move-right").expect("move-right should be registered");
    assert_eq!(cmd.name(), "move-right");
    assert!(matches!(cmd, MappableCommand::Motion { .. }));

    // Selection
    let cmd =
        reg.get_mappable("collapse-selection").expect("collapse-selection should be registered");
    assert_eq!(cmd.name(), "collapse-selection");
    assert!(matches!(cmd, MappableCommand::Selection { .. }));

    // Edit
    let cmd = reg.get_mappable("delete-selection").expect("delete-selection should be registered");
    assert_eq!(cmd.name(), "delete-selection");
    assert!(matches!(cmd, MappableCommand::Edit { .. }));

    // EditorCmd
    let cmd = reg.get_mappable("force-quit").expect("force-quit should be registered");
    assert_eq!(cmd.name(), "force-quit");
    assert!(matches!(cmd, MappableCommand::EditorCmd { .. }));

    let cmd = reg.get_mappable("find-forward").expect("find-forward should be registered");
    assert!(matches!(cmd, MappableCommand::EditorCmd { .. }));

    let cmd = reg.get_mappable("delete").expect("delete should be registered");
    assert!(matches!(cmd, MappableCommand::EditorCmd { .. }));
}

#[test]
fn typed_lookup_by_canonical_name() {
    let reg = CommandRegistry::with_defaults();
    let tc = reg.get_typed("write").expect("write should be a typed command");
    assert_eq!(tc.name, "write");
    assert!(!tc.doc.is_empty());
}

#[test]
fn typed_lookup_by_alias() {
    let reg = CommandRegistry::with_defaults();
    assert_eq!(reg.get_typed("w").expect("w alias").name, "write");
    assert_eq!(reg.get_typed("q").expect("q alias").name, "quit");
    assert_eq!(reg.get_typed("wq").expect("wq alias").name, "write-quit");
    assert_eq!(reg.get_typed("wrap").expect("wrap alias").name, "toggle-soft-wrap");
}

#[test]
fn typed_lookup_does_not_return_mappable() {
    let reg = CommandRegistry::with_defaults();
    // Mappable commands are not accessible via get_typed.
    assert!(reg.get_typed("move-right").is_none());
    assert!(reg.get_typed("force-quit").is_none());
    assert!(reg.get_typed("clear-search").is_none());
    assert!(reg.get_typed("select-all-matches").is_none());
}

#[test]
fn mappable_lookup_does_not_return_typed() {
    let reg = CommandRegistry::with_defaults();
    // Typed commands are not accessible via get_mappable.
    assert!(reg.get_mappable("write").is_none());
    assert!(reg.get_mappable("quit").is_none());
    assert!(reg.get_mappable("write-quit").is_none());
}

#[test]
fn unknown_name_returns_none() {
    let reg = CommandRegistry::with_defaults();
    assert!(reg.get_mappable("does-not-exist").is_none());
    assert!(reg.get_typed("does-not-exist").is_none());
}

#[test]
fn doc_strings_are_stored_and_accessible() {
    let reg = CommandRegistry::with_defaults();
    let cmd = reg.get_mappable("move-right").unwrap();
    assert!(!cmd.doc().is_empty(), "move-right should have a non-empty doc string");
    let cmd = reg.get_mappable("delete-selection").unwrap();
    assert!(!cmd.doc().is_empty(), "delete-selection should have a non-empty doc string");
    let tc = reg.get_typed("write").unwrap();
    assert!(!tc.doc.is_empty(), "write should have a non-empty doc string");
}

#[test]
fn is_extendable_motion_and_selection_always_true() {
    let reg = CommandRegistry::with_defaults();
    // All Motion commands are extendable.
    for name in [
        "move-right", "move-left", "move-down", "move-up", "goto-first-line", "goto-last-line",
        "goto-line-start", "goto-line-end", "goto-first-nonblank", "select-next-word",
        "select-prev-word", "next-paragraph", "prev-paragraph",
    ] {
        let cmd = reg.get_mappable(name).unwrap_or_else(|| panic!("{name} not found"));
        assert!(cmd.is_extendable(), "Motion '{name}' should be extendable");
    }
    // All Selection commands are extendable.
    for name in [
        "select-line", "select-line-backward", "collapse-selection", "flip-selections",
        "inner-word", "around-word", "inner-paren", "around-paren",
    ] {
        let cmd = reg.get_mappable(name).unwrap_or_else(|| panic!("{name} not found"));
        assert!(cmd.is_extendable(), "Selection '{name}' should be extendable");
    }
}

#[test]
fn is_extendable_editor_cmd_true_for_extendable() {
    let reg = CommandRegistry::with_defaults();
    // EditorCmds marked extendable: true.
    for name in [
        "find-forward", "find-backward", "till-forward", "till-backward", "repeat-find-forward",
        "repeat-find-backward", "page-down", "page-up", "half-page-down", "half-page-up",
        "search-next", "search-prev", "move-down", "move-up",
    ] {
        let cmd = reg.get_mappable(name).unwrap_or_else(|| panic!("{name} not found"));
        assert!(cmd.is_extendable(), "EditorCmd '{name}' should be extendable");
    }
}

#[test]
fn is_extendable_false_for_edits_and_non_extendable_editor_cmds() {
    let reg = CommandRegistry::with_defaults();
    // Edit commands are never extendable.
    for name in ["delete-selection", "delete-char-forward", "delete-char-backward"] {
        let cmd = reg.get_mappable(name).unwrap_or_else(|| panic!("{name} not found"));
        assert!(!cmd.is_extendable(), "Edit '{name}' should not be extendable");
    }
    // Non-extendable EditorCmds.
    for name in [
        "undo", "redo", "insert-before", "insert-after", "open-line-below", "open-line-above",
        "force-quit", "exit-insert",
    ] {
        let cmd = reg.get_mappable(name).unwrap_or_else(|| panic!("{name} not found"));
        assert!(!cmd.is_extendable(), "EditorCmd '{name}' should not be extendable");
    }
}

#[test]
fn all_names_are_unique() {
    // Registering twice silently overwrites — verify the final count matches the
    // number of distinct registered names.
    let reg = CommandRegistry::with_defaults();
    let names = reg.names();
    let unique: HashSet<&str> = names.iter().map(|n| n.as_str()).collect();
    assert_eq!(unique.len(), reg.len(), "duplicate command names detected");
}

#[test]
fn runtime_register_and_lookup() {
    let mut reg = CommandRegistry::with_defaults();
    let before = reg.len();
    let cmd = MappableCommand::EditorCmd {
        name: "steel-test-cmd".to_string(),
        doc: "A dummy Steel command for testing.".to_string(),
        repeatable: false,
        jump: false,
        visual_move: false,
        extendable: false,
    };
    reg.register(cmd);

    assert_eq!(reg.len(), before + 1);
    assert!(reg.get_mappable("steel-test-cmd").is_some());
    assert_eq!(reg.get_mappable("steel-test-cmd").unwrap().name(), "steel-test-cmd");
}

#[test]
fn mappable_commands_not_shadowed_by_typed() {
    // Mappable commands like clear-search and select-all-matches must remain
    // accessible as mappable so keybinds continue to work.
    let reg = CommandRegistry::with_defaults();
    assert!(reg.get_mappable("clear-search").is_some());
    assert!(reg.get_mappable("select-all-matches").is_some());
}

#[test]
fn runtime_register_typed_and_lookup() {
    let mut reg = CommandRegistry::with_defaults();
    let before = reg.len();
    reg.register_typed(TypedCommand {
        name: "steel-typed-cmd".to_string(),
        doc: "A dummy Steel typed command for testing.".to_string(),
        aliases: vec!["stc".to_string()],
    });

    assert_eq!(reg.len(), before + 1);
    // Reachable by canonical name.
    assert_eq!(reg.get_typed("steel-typed-cmd").unwrap().name, "steel-typed-cmd");
    // Reachable by alias.
    assert_eq!(reg.get_typed("stc").unwrap().name, "steel-typed-cmd");
    // Not reachable as a mappable command.
    assert!(reg.get_mappable("steel-typed-cmd").is_none());
}

#[test]
fn jump_and_visual_move_flags_are_correct() {
    let reg = CommandRegistry::with_defaults();

    let must_be_jump = [
        "goto-first-line", "goto-last-line", "search-next", "search-prev", "page-down", "page-up",
    ];
    for name in must_be_jump {
        assert!(
            reg.get_mappable(name).expect(name).is_jump(),
            "'{name}' should have jump: true"
        );
    }

    let must_be_visual_move = ["move-down", "move-up"];
    for name in must_be_visual_move {
        assert!(
            reg.get_mappable(name).expect(name).is_visual_move(),
            "'{name}' should have visual_move: true"
        );
    }

    // Spot-check non-jump commands.
    for name in ["move-left", "move-right", "delete", "undo", "insert-before"] {
        assert!(
            !reg.get_mappable(name).expect(name).is_jump(),
            "'{name}' should have jump: false"
        );
        assert!(
            !reg.get_mappable(name).expect(name).is_visual_move(),
            "'{name}' should have visual_move: false"
        );
    }
}

#[test]
fn kinds_of_commands_extend_and_repeat() {
    let reg = CommandRegistry::with_defaults();
    let find = |n: &str| reg.get_mappable(n).unwrap();
    for n in ["move-right", "select-line"] {
        assert!(find(n).is_extendable() && !find(n).is_repeatable(), "{n}");
    }
    assert!(find("move-down").is_visual_move() && !find("delete").is_visual_move());
    assert!(find("delete").is_repeatable() && !find("delete").is_extendable());
}

#[test]
fn every_default_command_does_something() {
    let reg = CommandRegistry::with_defaults();
    for name in reg.names() {
        if let Some(MappableCommand::EditorCmd { .. }) = reg.get_mappable(&name) {
            assert!(editor_command(&name).is_some(), "{name}");
        }
        if reg.get_typed(&name).is_some() {
            assert!(line_command(&name).is_some(), "{name}");
        }
    }
    assert_eq!(
        editor_command("till-backward"),
        Some(EditorCommand::Find {
            kind: FindKind::Exclusive,
            direction: SearchDirection::Backward,
        })
    );
    assert_eq!(
        editor_command("half-page-up"),
        Some(EditorCommand::Page { direction: SearchDirection::Backward, half: true })
    );
    assert_eq!(
        editor_command("search-next"),
        Some(EditorCommand::SearchJump { direction: SearchDirection::Forward })
    );
    assert_eq!(editor_command("force-quit"), Some(EditorCommand::Quit));
    assert_eq!(editor_command("move-right"), None);
    assert_eq!(line_command("write-quit"), Some(LineCommand::WriteQuit));
    assert_eq!(line_command("nothing"), None);
}

//! Which function of the library a command runs.

use crate::command::Entry;
use crate::registry::default_entry;
use crate::search::SearchDirection;
use crate::state::FindKind;
use crate::strings::str_eq;
use vstd::prelude::*;
use vstd::string::*;

verus! {

/// What a command that works on the editor as a whole does.
#[derive(Debug, Clone, Copy, PartialEq, Eq, Structural)]
pub enum EditorCommand {
    /// [`crate::focus::Focus::cmd_insert_before`], and so on.
    InsertBefore,
    InsertAfter,
    InsertAtLineStart,
    InsertAtLineEnd,
    InsertAtSelectionStart,
    InsertAtSelectionEnd,
    OpenLineBelow,
    OpenLineAbove,
    CommandMode,
    ExitInsert,
    Delete,
    Change,
    Yank,
    PasteAfter,
    PasteBefore,
    PasteRingOlder,
    PasteRingNewer,
    Undo,
    Redo,
    ToggleExtend,
    CollapseAndExitExtend,
    Replace,
    Repeat,
    /// [`crate::focus::Focus::find_char`], with a search in this direction.
    Find { kind: FindKind, direction: SearchDirection },
    /// [`crate::focus::Focus::repeat_find`], with a search in this direction.
    RepeatFind { direction: SearchDirection },
    /// Moves by visual lines, as many as the count says.
    VisualMove { direction: SearchDirection },
    /// Moves by [`crate::navigate::page_count`] visual lines.
    Page { direction: SearchDirection, half: bool },
    /// Opens the input line for a search.
    BeginSearch { direction: SearchDirection },
    /// [`crate::focus::Focus::search_jump`].
    SearchJump { direction: SearchDirection },
    ClearSearch,
    SelectWithin,
    SelectAllMatches,
    UseSelectionAsSearch,
    JumpBackward,
    JumpForward,
    GotoAlternateFile,
    Quit,
}

/// What a command of the command line does.
#[derive(Debug, Clone, Copy, PartialEq, Eq, Structural)]
pub enum LineCommand {
    Quit,
    Write,
    WriteQuit,
    ToggleSoftWrap,
    SetOption,
}

/// Entering and leaving insert mode, and the command line.
pub open spec fn mode_command_of(n: Seq<char>) -> Option<EditorCommand> {
    if n == "insert-before"@ {
        Some(EditorCommand::InsertBefore)
    } else if n == "insert-after"@ {
        Some(EditorCommand::InsertAfter)
    } else if n == "insert-at-line-start"@ {
        Some(EditorCommand::InsertAtLineStart)
    } else if n == "insert-at-line-end"@ {
        Some(EditorCommand::InsertAtLineEnd)
    } else if n == "insert-at-selection-start"@ {
        Some(EditorCommand::InsertAtSelectionStart)
    } else if n == "insert-at-selection-end"@ {
        Some(EditorCommand::InsertAtSelectionEnd)
    } else if n == "open-line-below"@ {
        Some(EditorCommand::OpenLineBelow)
    } else if n == "open-line-above"@ {
        Some(EditorCommand::OpenLineAbove)
    } else if n == "command-mode"@ {
        Some(EditorCommand::CommandMode)
    } else if n == "exit-insert"@ {
        Some(EditorCommand::ExitInsert)
    } else {
        None
    }
}

fn mode_command(name: &str) -> (r: Option<EditorCommand>)
    ensures
        r == mode_command_of(name@),
{
    if str_eq(name, "insert-before") {
        Some(EditorCommand::InsertBefore)
    } else if str_eq(name, "insert-after") {
        Some(EditorCommand::InsertAfter)
    } else if str_eq(name, "insert-at-line-start") {
        Some(EditorCommand::InsertAtLineStart)
    } else if str_eq(name, "insert-at-line-end") {
        Some(EditorCommand::InsertAtLineEnd)
    } else if str_eq(name, "insert-at-selection-start") {
        Some(EditorCommand::InsertAtSelectionStart)
    } else if str_eq(name, "insert-at-selection-end") {
        Some(EditorCommand::InsertAtSelectionEnd)
    } else if str_eq(name, "open-line-below") {
        Some(EditorCommand::OpenLineBelow)
    } else if str_eq(name, "open-line-above") {
        Some(EditorCommand::OpenLineAbove)
    } else if str_eq(name, "command-mode") {
        Some(EditorCommand::CommandMode)
    } else if str_eq(name, "exit-insert") {
        Some(EditorCommand::ExitInsert)
    } else {
        None
    }
}

/// Edits that use registers and the history, and the extend state.
pub open spec fn edit_command_of(n: Seq<char>) -> Option<EditorCommand> {
    if n == "delete"@ {
        Some(EditorCommand::Delete)
    } else if n == "change"@ {
        Some(EditorCommand::Change)
    } else if n == "yank"@ {
        Some(EditorCommand::Yank)
    } else if n == "paste-after"@ {
        Some(EditorCommand::PasteAfter)
    } else if n == "paste-before"@ {
        Some(EditorCommand::PasteBefore)
    } else if n == "paste-ring-older"@ {
        Some(EditorCommand::PasteRingOlder)
    } else if n == "paste-ring-newer"@ {
        Some(EditorCommand::PasteRingNewer)
    } else if n == "undo"@ {
        Some(EditorCommand::Undo)
    } else if n == "redo"@ {
        Some(EditorCommand::Redo)
    } else if n == "toggle-extend"@ {
        Some(EditorCommand::ToggleExtend)
    } else if n == "collapse-and-exit-extend"@ {
        Some(EditorCommand::CollapseAndExitExtend)
    } else if n == "replace"@ {
        Some(EditorCommand::Replace)
    } else if n == "repeat-last-action"@ {
        Some(EditorCommand::Repeat)
    } else {
        None
    }
}

fn edit_command(name: &str) -> (r: Option<EditorCommand>)
    ensures
        r == edit_command_of(name@),
{
    if str_eq(name, "delete") {
        Some(EditorCommand::Delete)
    } else if str_eq(name, "change") {
        Some(EditorCommand::Change)
    } else if str_eq(name, "yank") {
        Some(EditorCommand::Yank)
    } else if str_eq(name, "paste-after") {
        Some(EditorCommand::PasteAfter)
    } else if str_eq(name, "paste-before") {
        Some(EditorCommand::PasteBefore)
    } else if str_eq(name, "paste-ring-older") {
        Some(EditorCommand::PasteRingOlder)
    } else if str_eq(name, "paste-ring-newer") {
        Some(EditorCommand::PasteRingNewer)
    } else if str_eq(name, "undo") {
        Some(EditorCommand::Undo)
    } else if str_eq(name, "redo") {
        Some(EditorCommand::Redo)
    } else if str_eq(name, "toggle-extend") {
        Some(EditorCommand::ToggleExtend)
    } else if str_eq(name, "collapse-and-exit-extend") {
        Some(EditorCommand::CollapseAndExitExtend)
    } else if str_eq(name, "replace") {
        Some(EditorCommand::Replace)
    } else if str_eq(name, "repeat-last-action") {
        Some(EditorCommand::Repeat)
    } else {
        None
    }
}

/// Finding a character, and moving by lines and pages.
pub open spec fn move_command_of(n: Seq<char>) -> Option<EditorCommand> {
    if n == "find-forward"@ {
        Some(EditorCommand::Find { kind: FindKind::Inclusive, direction: SearchDirection::Forward })
    } else if n == "find-backward"@ {
        Some(EditorCommand::Find { kind: FindKind::Inclusive, direction: SearchDirection::Backward })
    } else if n == "till-forward"@ {
        Some(EditorCommand::Find { kind: FindKind::Exclusive, direction: SearchDirection::Forward })
    } else if n == "till-backward"@ {
        Some(EditorCommand::Find { kind: FindKind::Exclusive, direction: SearchDirection::Backward })
    } else if n == "repeat-find-forward"@ {
        Some(EditorCommand::RepeatFind { direction: SearchDirection::Forward })
    } else if n == "repeat-find-backward"@ {
        Some(EditorCommand::RepeatFind { direction: SearchDirection::Backward })
    } else if n == "move-down"@ {
        Some(EditorCommand::VisualMove { direction: SearchDirection::Forward })
    } else if n == "move-up"@ {
        Some(EditorCommand::VisualMove { direction: SearchDirection::Backward })
    } else if n == "page-down"@ {
        Some(EditorCommand::Page { direction: SearchDirection::Forward, half: false })
    } else if n == "page-up"@ {
        Some(EditorCommand::Page { direction: SearchDirection::Backward, half: false })
    } else if n == "half-page-down"@ {
        Some(EditorCommand::Page { direction: SearchDirection::Forward, half: true })
    } else if n == "half-page-up"@ {
        Some(EditorCommand::Page { direction: SearchDirection::Backward, half: true })
    } else {
        None
    }
}

fn move_command(name: &str) -> (r: Option<EditorCommand>)
    ensures
        r == move_command_of(name@),
{
    if str_eq(name, "find-forward") {
        Some(EditorCommand::Find { kind: FindKind::Inclusive, direction: SearchDirection::Forward })
    } else if str_eq(name, "find-backward") {
        Some(EditorCommand::Find { kind: FindKind::Inclusive, direction: SearchDirection::Backward })
    } else if str_eq(name, "till-forward") {
        Some(EditorCommand::Find { kind: FindKind::Exclusive, direction: SearchDirection::Forward })
    } else if str_eq(name, "till-backward") {
        Some(EditorCommand::Find { kind: FindKind::Exclusive, direction: SearchDirection::Backward })
    } else if str_eq(name, "repeat-find-forward") {
        Some(EditorCommand::RepeatFind { direction: SearchDirection::Forward })
    } else if str_eq(name, "repeat-find-backward") {
        Some(EditorCommand::RepeatFind { direction: SearchDirection::Backward })
    } else if str_eq(name, "move-down") {
        Some(EditorCommand::VisualMove { direction: SearchDirection::Forward })
    } else if str_eq(name, "move-up") {
        Some(EditorCommand::VisualMove { direction: SearchDirection::Backward })
    } else if str_eq(name, "page-down") {
        Some(EditorCommand::Page { direction: SearchDirection::Forward, half: false })
    } else if str_eq(name, "page-up") {
        Some(EditorCommand::Page { direction: SearchDirection::Backward, half: false })
    } else if str_eq(name, "half-page-down") {
        Some(EditorCommand::Page { direction: SearchDirection::Forward, half: true })
    } else if str_eq(name, "half-page-up") {
        Some(EditorCommand::Page { direction: SearchDirection::Backward, half: true })
    } else {
        None
    }
}

/// Searching, selecting by pattern, jumping, quitting.
pub open spec fn search_command_of(n: Seq<char>) -> Option<EditorCommand> {
    if n == "search-forward"@ {
        Some(EditorCommand::BeginSearch { direction: SearchDirection::Forward })
    } else if n == "search-backward"@ {
        Some(EditorCommand::BeginSearch { direction: SearchDirection::Backward })
    } else if n == "search-next"@ {
        Some(EditorCommand::SearchJump { direction: SearchDirection::Forward })
    } else if n == "search-prev"@ {
        Some(EditorCommand::SearchJump { direction: SearchDirection::Backward })
    } else if n == "clear-search"@ {
        Some(EditorCommand::ClearSearch)
    } else if n == "select-within"@ {
        Some(EditorCommand::SelectWithin)
    } else if n == "select-all-matches"@ {
        Some(EditorCommand::SelectAllMatches)
    } else if n == "use-selection-as-search"@ {
        Some(EditorCommand::UseSelectionAsSearch)
    } else if n == "jump-backward"@ {
        Some(EditorCommand::JumpBackward)
    } else if n == "jump-forward"@ {
        Some(EditorCommand::JumpForward)
    } else if n == "goto-alternate-file"@ {
        Some(EditorCommand::GotoAlternateFile)
    } else if n == "force-quit"@ {
        Some(EditorCommand::Quit)
    } else {
        None
    }
}

fn search_command(name: &str) -> (r: Option<EditorCommand>)
    ensures
        r == search_command_of(name@),
{
    if str_eq(name, "search-forward") {
        Some(EditorCommand::BeginSearch { direction: SearchDirection::Forward })
    } else if str_eq(name, "search-backward") {
        Some(EditorCommand::BeginSearch { direction: SearchDirection::Backward })
    } else if str_eq(name, "search-next") {
        Some(EditorCommand::SearchJump { direction: SearchDirection::Forward })
    } else if str_eq(name, "search-prev") {
        Some(EditorCommand::SearchJump { direction: SearchDirection::Backward })
    } else if str_eq(name, "clear-search") {
        Some(EditorCommand::ClearSearch)
    } else if str_eq(name, "select-within") {
        Some(EditorCommand::SelectWithin)
    } else if str_eq(name, "select-all-matches") {
        Some(EditorCommand::SelectAllMatches)
    } else if str_eq(name, "use-selection-as-search") {
        Some(EditorCommand::UseSelectionAsSearch)
    } else if str_eq(name, "jump-backward") {
        Some(EditorCommand::JumpBackward)
    } else if str_eq(name, "jump-forward") {
        Some(EditorCommand::JumpForward)
    } else if str_eq(name, "goto-alternate-file") {
        Some(EditorCommand::GotoAlternateFile)
    } else if str_eq(name, "force-quit") {
        Some(EditorCommand::Quit)
    } else {
        None
    }
}

/// What the command called `n` does.
pub open spec fn editor_command_of(n: Seq<char>) -> Option<EditorCommand> {
    match mode_command_of(n) {
        Some(c) => Some(c),
        None => match edit_command_of(n) {
            Some(c) => Some(c),
            None => match move_command_of(n) {
                Some(c) => Some(c),
                None => search_command_of(n),
            },
        },
    }
}

/// What the command called `name` does, where it works on the editor as a whole.
pub fn editor_command(name: &str) -> (r: Option<EditorCommand>)
    ensures
        r == editor_command_of(name@),
{
    match mode_command(name) {
        Some(c) => Some(c),
        None => match edit_command(name) {
            Some(c) => Some(c),
            None => match move_command(name) {
                Some(c) => Some(c),
                None => search_command(name),
            },
        },
    }
}

/// What the command of the command line called `n` does.
pub open spec fn line_command_of(n: Seq<char>) -> Option<LineCommand> {
    if n == "quit"@ {
        Some(LineCommand::Quit)
    } else if n == "write"@ {
        Some(LineCommand::Write)
    } else if n == "write-quit"@ {
        Some(LineCommand::WriteQuit)
    } else if n == "toggle-soft-wrap"@ {
        Some(LineCommand::ToggleSoftWrap)
    } else if n == "set"@ {
        Some(LineCommand::SetOption)
    } else {
        None
    }
}

/// What the command of the command line called `name` does. Short forms are resolved
/// before.
pub fn line_command(name: &str) -> (r: Option<LineCommand>)
    ensures
        r == line_command_of(name@),
{
    if str_eq(name, "quit") {
        Some(LineCommand::Quit)
    } else if str_eq(name, "write") {
        Some(LineCommand::Write)
    } else if str_eq(name, "write-quit") {
        Some(LineCommand::WriteQuit)
    } else if str_eq(name, "toggle-soft-wrap") {
        Some(LineCommand::ToggleSoftWrap)
    } else if str_eq(name, "set") {
        Some(LineCommand::SetOption)
    } else {
        None
    }
}

/// Every command that is registered by default and works on the editor as a whole, and every
/// one of the command line, does something.
pub proof fn law_default_commands_do_something(n: Seq<char>)
    ensures
        default_entry(n) matches Some(Entry::Mappable(c)) ==> (c is EditorCmd
            ==> editor_command_of(n) is Some),
        default_entry(n) matches Some(Entry::Typed(_)) ==> line_command_of(n) is Some,
{
}

/// Entering and leaving insert mode: each of these commands is called by its name and by no other.
#[verifier::rlimit(60)]
pub proof fn law_names_of_mode_commands(n: Seq<char>)
    ensures
        editor_command_of(n) == Some(EditorCommand::InsertBefore) <==> n == "insert-before"@,
        editor_command_of(n) == Some(EditorCommand::InsertAfter) <==> n == "insert-after"@,
        editor_command_of(n) == Some(
            EditorCommand::InsertAtLineStart,
        ) <==> n == "insert-at-line-start"@,
        editor_command_of(n) == Some(
            EditorCommand::InsertAtLineEnd,
        ) <==> n == "insert-at-line-end"@,
        editor_command_of(n) == Some(
            EditorCommand::InsertAtSelectionStart,
        ) <==> n == "insert-at-selection-start"@,
        editor_command_of(n) == Some(
            EditorCommand::InsertAtSelectionEnd,
        ) <==> n == "insert-at-selection-end"@,
        editor_command_of(n) == Some(EditorCommand::OpenLineBelow) <==> n == "open-line-below"@,
        editor_command_of(n) == Some(EditorCommand::OpenLineAbove) <==> n == "open-line-above"@,
        editor_command_of(n) == Some(EditorCommand::CommandMode) <==> n == "command-mode"@,
        editor_command_of(n) == Some(EditorCommand::ExitInsert) <==> n == "exit-insert"@,
{
    lemma_lengths_of_names();
}

/// Editing: each of these commands is called by its name and by no other.
#[verifier::rlimit(60)]
pub proof fn law_names_of_edit_commands(n: Seq<char>)
    ensures
        editor_command_of(n) == Some(EditorCommand::Delete) <==> n == "delete"@,
        editor_command_of(n) == Some(EditorCommand::Change) <==> n == "change"@,
        editor_command_of(n) == Some(EditorCommand::Yank) <==> n == "yank"@,
        editor_command_of(n) == Some(EditorCommand::PasteAfter) <==> n == "paste-after"@,
        editor_command_of(n) == Some(EditorCommand::PasteBefore) <==> n == "paste-before"@,
        editor_command_of(n) == Some(EditorCommand::PasteRingOlder) <==> n == "paste-ring-older"@,
        editor_command_of(n) == Some(EditorCommand::PasteRingNewer) <==> n == "paste-ring-newer"@,
        editor_command_of(n) == Some(EditorCommand::Undo) <==> n == "undo"@,
        editor_command_of(n) == Some(EditorCommand::Redo) <==> n == "redo"@,
        editor_command_of(n) == Some(EditorCommand::ToggleExtend) <==> n == "toggle-extend"@,
        editor_command_of(n) == Some(
            EditorCommand::CollapseAndExitExtend,
        ) <==> n == "collapse-and-exit-extend"@,
        editor_command_of(n) == Some(EditorCommand::Replace) <==> n == "replace"@,
        editor_command_of(n) == Some(EditorCommand::Repeat) <==> n == "repeat-last-action"@,
{
    lemma_lengths_of_names();
}

/// Moving: each of these commands is called by its name and by no other.
#[verifier::rlimit(60)]
pub proof fn law_names_of_move_commands(n: Seq<char>)
    ensures
        editor_command_of(n) == Some(
            (EditorCommand::Find { kind: FindKind::Inclusive, direction: SearchDirection::Forward }),
        ) <==> n == "find-forward"@,
        editor_command_of(n) == Some(
            (EditorCommand::Find { kind: FindKind::Inclusive, direction: SearchDirection::Backward }),
        ) <==> n == "find-backward"@,
        editor_command_of(n) == Some(
            (EditorCommand::Find { kind: FindKind::Exclusive, direction: SearchDirection::Forward }),
        ) <==> n == "till-forward"@,
        editor_command_of(n) == Some(
            (EditorCommand::Find { kind: FindKind::Exclusive, direction: SearchDirection::Backward }),
        ) <==> n == "till-backward"@,
        editor_command_of(n) == Some(
            (EditorCommand::RepeatFind { direction: SearchDirection::Forward }),
        ) <==> n == "repeat-find-forward"@,
        editor_command_of(n) == Some(
            (EditorCommand::RepeatFind { direction: SearchDirection::Backward }),
        ) <==> n == "repeat-find-backward"@,
        editor_command_of(n) == Some(
            (EditorCommand::VisualMove { direction: SearchDirection::Forward }),
        ) <==> n == "move-down"@,
        editor_command_of(n) == Some(
            (EditorCommand::VisualMove { direction: SearchDirection::Backward }),
        ) <==> n == "move-up"@,
        editor_command_of(n) == Some(
            (EditorCommand::Page { direction: SearchDirection::Forward, half: false }),
        ) <==> n == "page-down"@,
        editor_command_of(n) == Some(
            (EditorCommand::Page { direction: SearchDirection::Backward, half: false }),
        ) <==> n == "page-up"@,
        editor_command_of(n) == Some(
            (EditorCommand::Page { direction: SearchDirection::Forward, half: true }),
        ) <==> n == "half-page-down"@,
        editor_command_of(n) == Some(
            (EditorCommand::Page { direction: SearchDirection::Backward, half: true }),
        ) <==> n == "half-page-up"@,
{
    lemma_lengths_of_names();
}

/// Searching: each of these commands is called by its name and by no other.
#[verifier::rlimit(60)]
pub proof fn law_names_of_search_commands(n: Seq<char>)
    ensures
        editor_command_of(n) == Some(
            (EditorCommand::BeginSearch { direction: SearchDirection::Forward }),
        ) <==> n == "search-forward"@,
        editor_command_of(n) == Some(
            (EditorCommand::BeginSearch { direction: SearchDirection::Backward }),
        ) <==> n == "search-backward"@,
        editor_command_of(n) == Some(
            (EditorCommand::SearchJump { direction: SearchDirection::Forward }),
        ) <==> n == "search-next"@,
        editor_command_of(n) == Some(
            (EditorCommand::SearchJump { direction: SearchDirection::Backward }),
        ) <==> n == "search-prev"@,
        editor_command_of(n) == Some(EditorCommand::ClearSearch) <==> n == "clear-search"@,
        editor_command_of(n) == Some(EditorCommand::SelectWithin) <==> n == "select-within"@,
        editor_command_of(n) == Some(
            EditorCommand::SelectAllMatches,
        ) <==> n == "select-all-matches"@,
        editor_command_of(n) == Some(
            EditorCommand::UseSelectionAsSearch,
        ) <==> n == "use-selection-as-search"@,
        editor_command_of(n) == Some(EditorCommand::JumpBackward) <==> n == "jump-backward"@,
        editor_command_of(n) == Some(EditorCommand::JumpForward) <==> n == "jump-forward"@,
        editor_command_of(n) == Some(
            EditorCommand::GotoAlternateFile,
        ) <==> n == "goto-alternate-file"@,
        editor_command_of(n) == Some(EditorCommand::Quit) <==> n == "force-quit"@,
{
    lemma_lengths_of_names();
}

/// The commands of the command line: each is called by its name and by no other.
pub proof fn law_names_of_line_commands(n: Seq<char>)
    ensures
        line_command_of(n) == Some(LineCommand::Quit) <==> n == "quit"@,
        line_command_of(n) == Some(LineCommand::Write) <==> n == "write"@,
        line_command_of(n) == Some(LineCommand::WriteQuit) <==> n == "write-quit"@,
        line_command_of(n) == Some(LineCommand::ToggleSoftWrap) <==> n == "toggle-soft-wrap"@,
        line_command_of(n) == Some(LineCommand::SetOption) <==> n == "set"@,
{
    lemma_lengths_of_names();
}

/// The names of the commands differ in their lengths or in these characters.
proof fn lemma_lengths_of_names()
    ensures
        "insert-before"@.len() == 13 && "insert-before"@[0] == 'i' && "insert-before"@[1] == 'n',
        "insert-after"@.len() == 12 && "insert-after"@[3] == 'e',
        "insert-at-line-start"@.len() == 20 && "insert-at-line-start"@[0] == 'i',
        "insert-at-line-end"@.len() == 18 && "insert-at-line-end"@[0] == 'i',
        "insert-at-selection-start"@.len() == 25,
        "insert-at-selection-end"@.len() == 23 && "insert-at-selection-end"@[0] == 'i',
        "open-line-below"@.len() == 15 && "open-line-below"@[10] == 'b',
        "open-line-above"@.len() == 15 && "open-line-above"@[10] == 'a',
        "command-mode"@.len() == 12 && "command-mode"@[3] == 'm',
        "exit-insert"@.len() == 11 && "exit-insert"@[7] == 's',
        "delete"@.len() == 6 && "delete"@[0] == 'd',
        "change"@.len() == 6 && "change"@[0] == 'c',
        "yank"@.len() == 4 && "yank"@[0] == 'y',
        "paste-after"@.len() == 11 && "paste-after"@[7] == 'f',
        "paste-before"@.len() == 12 && "paste-before"@[3] == 't',
        "paste-ring-older"@.len() == 16 && "paste-ring-older"@[11] == 'o',
        "paste-ring-newer"@.len() == 16 && "paste-ring-newer"@[11] == 'n',
        "undo"@.len() == 4 && "undo"@[0] == 'u',
        "redo"@.len() == 4 && "redo"@[0] == 'r',
        "toggle-extend"@.len() == 13 && "toggle-extend"@[0] == 't' && "toggle-extend"@[1] == 'o',
        "collapse-and-exit-extend"@.len() == 24,
        "replace"@.len() == 7 && "replace"@[0] == 'r',
        "repeat-last-action"@.len() == 18 && "repeat-last-action"@[0] == 'r',
        "find-forward"@.len() == 12 && "find-forward"@[3] == 'd',
        "find-backward"@.len() == 13 && "find-backward"@[0] == 'f' && "find-backward"@[1] == 'i',
        "till-forward"@.len() == 12 && "till-forward"@[3] == 'l',
        "till-backward"@.len() == 13 && "till-backward"@[0] == 't' && "till-backward"@[1] == 'i',
        "repeat-find-forward"@.len() == 19 && "repeat-find-forward"@[0] == 'r',
        "repeat-find-backward"@.len() == 20 && "repeat-find-backward"@[0] == 'r',
        "move-down"@.len() == 9 && "move-down"@[0] == 'm',
        "move-up"@.len() == 7 && "move-up"@[0] == 'm',
        "page-down"@.len() == 9 && "page-down"@[0] == 'p',
        "page-up"@.len() == 7 && "page-up"@[0] == 'p',
        "half-page-down"@.len() == 14 && "half-page-down"@[0] == 'h',
        "half-page-up"@.len() == 12 && "half-page-up"@[3] == 'f',
        "search-forward"@.len() == 14 && "search-forward"@[0] == 's',
        "search-backward"@.len() == 15 && "search-backward"@[10] == 'k',
        "search-next"@.len() == 11 && "search-next"@[7] == 'n',
        "search-prev"@.len() == 11 && "search-prev"@[7] == 'p',
        "clear-search"@.len() == 12 && "clear-search"@[3] == 'a',
        "select-within"@.len() == 13 && "select-within"@[0] == 's' && "select-within"@[1] == 'e',
        "select-all-matches"@.len() == 18 && "select-all-matches"@[0] == 's',
        "use-selection-as-search"@.len() == 23 && "use-selection-as-search"@[0] == 'u',
        "jump-backward"@.len() == 13 && "jump-backward"@[0] == 'j' && "jump-backward"@[1] == 'u',
        "jump-forward"@.len() == 12 && "jump-forward"@[3] == 'p',
        "goto-alternate-file"@.len() == 19 && "goto-alternate-file"@[0] == 'g',
        "force-quit"@.len() == 10 && "force-quit"@[0] == 'f',
        "quit"@.len() == 4 && "quit"@[0] == 'q',
        "write"@.len() == 5,
        "write-quit"@.len() == 10 && "write-quit"@[0] == 'w',
        "toggle-soft-wrap"@.len() == 16 && "toggle-soft-wrap"@[11] == '-',
        "set"@.len() == 3,
{
    reveal_strlit("insert-before");
    reveal_strlit("insert-after");
    reveal_strlit("insert-at-line-start");
    reveal_strlit("insert-at-line-end");
    reveal_strlit("insert-at-selection-start");
    reveal_strlit("insert-at-selection-end");
    reveal_strlit("open-line-below");
    reveal_strlit("open-line-above");
    reveal_strlit("command-mode");
    reveal_strlit("exit-insert");
    reveal_strlit("delete");
    reveal_strlit("change");
    reveal_strlit("yank");
    reveal_strlit("paste-after");
    reveal_strlit("paste-before");
    reveal_strlit("paste-ring-older");
    reveal_strlit("paste-ring-newer");
    reveal_strlit("undo");
    reveal_strlit("redo");
    reveal_strlit("toggle-extend");
    reveal_strlit("collapse-and-exit-extend");
    reveal_strlit("replace");
    reveal_strlit("repeat-last-action");
    reveal_strlit("find-forward");
    reveal_strlit("find-backward");
    reveal_strlit("till-forward");
    reveal_strlit("till-backward");
    reveal_strlit("repeat-find-forward");
    reveal_strlit("repeat-find-backward");
    reveal_strlit("move-down");
    reveal_strlit("move-up");
    reveal_strlit("page-down");
    reveal_strlit("page-up");
    reveal_strlit("half-page-down");
    reveal_strlit("half-page-up");
    reveal_strlit("search-forward");
    reveal_strlit("search-backward");
    reveal_strlit("search-next");
    reveal_strlit("search-prev");
    reveal_strlit("clear-search");
    reveal_strlit("select-within");
    reveal_strlit("select-all-matches");
    reveal_strlit("use-selection-as-search");
    reveal_strlit("jump-backward");
    reveal_strlit("jump-forward");
    reveal_strlit("goto-alternate-file");
    reveal_strlit("force-quit");
    reveal_strlit("quit");
    reveal_strlit("write");
    reveal_strlit("write-quit");
    reveal_strlit("toggle-soft-wrap");
    reveal_strlit("set");
}

} // verus!

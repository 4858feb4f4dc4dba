//! The registry of all commands, by name.

use crate::command::{Cmd, Command, Entry, MappableCommand, Typed, TypedCommand};
use crate::keymap::{
    around_binding, edit_binding, extend_binding, find_binding, goto_binding, inner_binding,
    insert_binding, layered, line_binding, mode_binding, motion_binding, normal_at, page_binding,
    search_binding, selection_binding, surround_binding, word_binding, Walk,
};
use crate::keys::KeyEvent;
use crate::name_map::NameMap;
use vstd::prelude::*;
use vstd::string::*;

verus! {

/// All commands: those bound to keys and those of the command line share one name space.
pub struct CommandRegistry {
    pub commands: NameMap<Command>,
    /// Short forms of the names of typed commands.
    pub alias_map: NameMap<String>,
}

/// `m` with every name in `aliases` standing for `name`.
pub open spec fn with_aliases(
    m: Map<Seq<char>, Seq<char>>,
    aliases: Seq<Seq<char>>,
    name: Seq<char>,
) -> Map<Seq<char>, Seq<char>>
    decreases aliases.len(),
{
    if aliases.len() == 0 {
        m
    } else {
        with_aliases(m, aliases.drop_last(), name).insert(aliases.last(), name)
    }
}

pub open spec fn editor_cmd(
    name: Seq<char>,
    doc: Seq<char>,
    repeatable: bool,
    jump: bool,
    visual_move: bool,
    extendable: bool,
) -> Cmd {
    Cmd::EditorCmd { name, doc, repeatable, jump, visual_move, extendable }
}

pub open spec fn typed(name: Seq<char>, doc: Seq<char>, aliases: Seq<Seq<char>>) -> Entry {
    Entry::Typed(Typed { name, doc, aliases })
}

/// The first of two lookups that finds something.
pub open spec fn or_else(a: Option<Cmd>, b: Option<Entry>) -> Option<Entry> {
    match a {
        Some(c) => Some(Entry::Mappable(c)),
        None => b,
    }
}

impl CommandRegistry {
    /// The command called `name`.
    pub open spec fn entry(&self, name: Seq<char>) -> Option<Entry> {
        if self.commands@.contains_key(name) {
            Some(self.commands@[name]@)
        } else {
            None
        }
    }

    /// What each short form stands for.
    pub open spec fn aliases(&self) -> Map<Seq<char>, Seq<char>> {
        self.alias_map@.map_values(|n: String| n@)
    }

    /// The mappable command called `name`.
    pub open spec fn mappable(&self, name: Seq<char>) -> Option<Cmd> {
        match self.entry(name) {
            Some(Entry::Mappable(c)) => Some(c),
            _ => None,
        }
    }

    /// The name that `name` stands for.
    pub open spec fn resolved(&self, name: Seq<char>) -> Seq<char> {
        if self.aliases().contains_key(name) {
            self.aliases()[name]
        } else {
            name
        }
    }

    /// The typed command that `name`, or what it is short for, calls.
    pub open spec fn typed(&self, name: Seq<char>) -> Option<Typed> {
        match self.entry(self.resolved(name)) {
            Some(Entry::Typed(t)) => Some(t),
            _ => None,
        }
    }

    /// A registry without commands.
    pub fn new() -> (r: Self)
        ensures
            forall|n: Seq<char>| #[trigger] r.entry(n) is None,
            r.aliases() == Map::<Seq<char>, Seq<char>>::empty(),
    {
        let r = CommandRegistry { commands: NameMap::new(), alias_map: NameMap::new() };
        assert(r.aliases() =~= Map::empty());
        r
    }

    /// Registers a mappable command under its name, in place of what had it.
    pub fn register(&mut self, cmd: MappableCommand)
        ensures
            forall|n: Seq<char>| #[trigger]
                final(self).entry(n) == (if n == cmd@.name() {
                    Some(Entry::Mappable(cmd@))
                } else {
                    old(self).entry(n)
                }),
            final(self).commands@ == old(self).commands@.insert(
                cmd@.name(),
                Command::Mappable(cmd),
            ),
            final(self).alias_map == old(self).alias_map,
    {
        let key = cmd.name().to_owned();
        self.commands.insert(key, Command::Mappable(cmd));
    }

    /// Registers a typed command under its name and its short forms.
    pub fn register_typed(&mut self, cmd: TypedCommand)
        ensures
            forall|n: Seq<char>| #[trigger]
                final(self).entry(n) == (if n == cmd@.name {
                    Some(Entry::Typed(cmd@))
                } else {
                    old(self).entry(n)
                }),
            final(self).commands@ == old(self).commands@.insert(cmd@.name, Command::Typed(cmd)),
            final(self).aliases() == with_aliases(old(self).aliases(), cmd@.aliases, cmd@.name),
    {
        let ghost names = cmd@.aliases;
        let n = cmd.aliases.len();
        let mut i: usize = 0;
        assert(names.take(0) =~= Seq::empty());
        while i < n
            invariant
                i <= n == cmd.aliases@.len(),
                names == cmd@.aliases,
                self.commands == old(self).commands,
                self.aliases() == with_aliases(old(self).aliases(), names.take(i as int), cmd@.name),
            decreases n - i,
        {
            let ghost before = self.aliases();
            let canonical = cmd.name.clone();
            let alias = cmd.aliases[i].clone();
            let ghost m0 = self.alias_map@;
            self.alias_map.insert(alias, canonical);
            proof {
                assert(names.take(i + 1).drop_last() =~= names.take(i as int));
                assert(names.take(i + 1).last() == alias@);
                assert(self.aliases() =~= before.insert(alias@, canonical@));
            }
            i = i + 1;
        }
        assert(names.take(n as int) =~= names);
        let key = cmd.name.clone();
        self.commands.insert(key, Command::Typed(cmd));
    }

    /// The mappable command called `name`; `None` where the name is unknown or that of a
    /// typed command.
    pub fn get_mappable(&self, name: &str) -> (r: Option<&MappableCommand>)
        ensures
            match r {
                Some(c) => self.mappable(name@) == Some(c@),
                None => self.mappable(name@) is None,
            },
    {
        match self.commands.get(name) {
            Some(Command::Mappable(c)) => Some(c),
            _ => None,
        }
    }

    /// The typed command called `name`, in full or by a short form; `None` where the name
    /// is unknown or that of a mappable command.
    pub fn get_typed(&self, name: &str) -> (r: Option<&TypedCommand>)
        ensures
            match r {
                Some(t) => self.typed(name@) == Some(t@),
                None => self.typed(name@) is None,
            },
    {
        let canonical: &str = match self.alias_map.get(name) {
            Some(c) => c.as_str(),
            None => name,
        };
        match self.commands.get(canonical) {
            Some(Command::Typed(t)) => Some(t),
            _ => None,
        }
    }

    /// Whether a command of either kind is called `name`.
    pub fn contains(&self, name: &str) -> (r: bool)
        ensures
            r == (self.entry(name@) is Some),
    {
        self.commands.contains(name)
    }

    /// Forgets the command called `name`.
    pub fn unregister(&mut self, name: &str)
        ensures
            forall|n: Seq<char>| #[trigger]
                final(self).entry(n) == (if n == name@ {
                    None
                } else {
                    old(self).entry(n)
                }),
            final(self).alias_map == old(self).alias_map,
    {
        let _ = self.commands.remove(name);
    }

    /// The names of all commands, without short forms.
    pub fn names(&self) -> (r: Vec<String>)
        ensures
            forall|i: int, j: int|
                0 <= i < j < r@.len() ==> (#[trigger] r@[i])@ != (#[trigger] r@[j])@,
            forall|k: Seq<char>|
                #[trigger] self.entry(k) is Some <==> exists|i: int|
                    0 <= i < r@.len() && (#[trigger] r@[i])@ == k,
    {
        self.commands.keys()
    }

    /// `name` is the name of a command or short for one.
    pub open spec fn known(&self, name: Seq<char>) -> bool {
        self.entry(name) is Some || self.aliases().contains_key(name)
    }

    /// The names of all commands and their short forms.
    pub fn names_and_aliases(&self) -> (r: Vec<String>)
        ensures
            forall|k: Seq<char>| #[trigger]
                self.known(k) <==> crate::registers::texts(r@).contains(k),
    {
        let mut out = self.commands.keys();
        let ghost first = out@;
        let mut more = self.alias_map.keys();
        let ghost second = more@;
        out.append(&mut more);
        proof {
            let t = crate::registers::texts(out@);
            assert forall|k: Seq<char>| #[trigger] self.known(k) <==> t.contains(k) by {
                if self.commands@.contains_key(k) {
                    let i = choose|i: int| 0 <= i < first.len() && (#[trigger] first[i])@ == k;
                    assert(t[i] == k);
                }
                if self.alias_map@.contains_key(k) {
                    let i = choose|i: int| 0 <= i < second.len() && (#[trigger] second[i])@ == k;
                    assert(t[first.len() + i] == k);
                }
                if t.contains(k) {
                    let i = choose|i: int| 0 <= i < t.len() && t[i] == k;
                    if i < first.len() {
                        assert(first[i]@ == k);
                    } else {
                        assert(second[i - first.len()]@ == k);
                    }
                }
            }
        }
        out
    }

    /// The number of commands, without short forms.
    pub fn len(&self) -> (r: usize)
        ensures
            r == self.commands@.dom().len(),
    {
        self.commands.len()
    }

    fn add_motion(&mut self, name: &str, doc: &str, jump: bool)
        ensures
            forall|n: Seq<char>| #[trigger]
                final(self).entry(n) == (if n == name@ {
                    Some(Entry::Mappable(Cmd::Motion { name: name@, doc: doc@, jump }))
                } else {
                    old(self).entry(n)
                }),
            final(self).alias_map == old(self).alias_map,
    {
        self.register(MappableCommand::Motion { name: name.to_owned(), doc: doc.to_owned(), jump });
    }

    fn add_selection(&mut self, name: &str, doc: &str)
        ensures
            forall|n: Seq<char>| #[trigger]
                final(self).entry(n) == (if n == name@ {
                    Some(Entry::Mappable(Cmd::Selection { name: name@, doc: doc@ }))
                } else {
                    old(self).entry(n)
                }),
            final(self).alias_map == old(self).alias_map,
    {
        self.register(MappableCommand::Selection { name: name.to_owned(), doc: doc.to_owned() });
    }

    fn add_edit(&mut self, name: &str, doc: &str, repeatable: bool)
        ensures
            forall|n: Seq<char>| #[trigger]
                final(self).entry(n) == (if n == name@ {
                    Some(Entry::Mappable(Cmd::Edit { name: name@, doc: doc@, repeatable }))
                } else {
                    old(self).entry(n)
                }),
            final(self).alias_map == old(self).alias_map,
    {
        self.register(
            MappableCommand::Edit { name: name.to_owned(), doc: doc.to_owned(), repeatable },
        );
    }

    fn add_editor_cmd(
        &mut self,
        name: &str,
        doc: &str,
        repeatable: bool,
        jump: bool,
        visual_move: bool,
        extendable: bool,
    )
        ensures
            forall|n: Seq<char>| #[trigger]
                final(self).entry(n) == (if n == name@ {
                    Some(
                        Entry::Mappable(
                            editor_cmd(name@, doc@, repeatable, jump, visual_move, extendable),
                        ),
                    )
                } else {
                    old(self).entry(n)
                }),
            final(self).alias_map == old(self).alias_map,
    {
        self.register(
            MappableCommand::EditorCmd {
                name: name.to_owned(),
                doc: doc.to_owned(),
                repeatable,
                jump,
                visual_move,
                extendable,
            },
        );
    }

    fn add_typed(&mut self, name: &str, doc: &str, alias: Option<&str>)
        ensures
            forall|n: Seq<char>| #[trigger]
                final(self).entry(n) == (if n == name@ {
                    Some(
                        typed(
                            name@,
                            doc@,
                            match alias {
                                Some(a) => seq![a@],
                                None => Seq::empty(),
                            },
                        ),
                    )
                } else {
                    old(self).entry(n)
                }),
            final(self).aliases() == (match alias {
                Some(a) => old(self).aliases().insert(a@, name@),
                None => old(self).aliases(),
            }),
    {
        let mut aliases: Vec<String> = Vec::new();
        if let Some(a) = alias {
            aliases.push(a.to_owned());
        }
        let cmd = TypedCommand { name: name.to_owned(), doc: doc.to_owned(), aliases };
        proof {
            match alias {
                Some(a) => {
                    assert(cmd@.aliases =~= seq![a@]);
                    assert(cmd@.aliases.drop_last() =~= Seq::empty());
                    assert(with_aliases(self.aliases(), cmd@.aliases.drop_last(), name@)
                        == self.aliases());
                },
                None => {
                    assert(cmd@.aliases =~= Seq::empty());
                },
            }
        }
        self.register_typed(cmd);
    }

    fn register_motion_commands(&mut self)
        ensures
            forall|n: Seq<char>| #[trigger]
                final(self).entry(n) == or_else(motion_command(n), old(self).entry(n)),
            final(self).alias_map == old(self).alias_map,
    {
        self.add_motion("move-right", "Move cursors one grapheme to the right.", false);
        self.add_motion("move-left", "Move cursors one grapheme to the left.", false);
        self.add_editor_cmd("move-down", "Move cursors down one visual line.", false, false, true, true);
        self.add_editor_cmd("move-up", "Move cursors up one visual line.", false, false, true, true);
        self.add_motion("goto-first-line", "Move cursors to the first character of the buffer.", true);
        self.add_motion("goto-last-line", "Move cursors to the first character of the last line.", true);
        self.add_motion("goto-line-start", "Move cursors to the start of the line.", false);
        self.add_motion("goto-line-end", "Move cursors to the last character on the line.", false);
        self.add_motion("goto-first-nonblank", "Move cursors to the first non-blank character on the line.", false);
        self.add_motion("select-next-word", "Select the next word.", false);
        self.add_motion("select-next-WORD", "Select the next WORD (whitespace-delimited).", false);
        self.add_motion("select-prev-word", "Select the previous word.", false);
        self.add_motion("select-prev-WORD", "Select the previous WORD (whitespace-delimited).", false);
        self.add_motion("next-paragraph", "Move cursors to the start of the next paragraph.", false);
        self.add_motion("prev-paragraph", "Move cursors to the start of the previous paragraph.", false);
    }

    fn register_selection_commands(&mut self)
        ensures
            forall|n: Seq<char>| #[trigger]
                final(self).entry(n) == or_else(selection_command(n), old(self).entry(n)),
            final(self).alias_map == old(self).alias_map,
    {
        self.add_selection("select-line", "Select the full current line (forward).");
        self.add_selection("select-line-backward", "Select the full current line (backward).");
        self.add_selection("collapse-selection", "Collapse each selection to a single cursor at the head.");
        self.add_selection("flip-selections", "Swap anchor and head for each selection.");
        self.add_selection("keep-primary-selection", "Remove all selections except the primary.");
        self.add_selection("select-all", "Select the entire buffer.");
        self.add_selection("remove-primary-selection", "Remove the primary selection, promoting the next.");
        self.add_selection("cycle-primary-forward", "Cycle the primary selection forward.");
        self.add_selection("cycle-primary-backward", "Cycle the primary selection backward.");
        self.add_selection("split-selection-on-newlines", "Split each multi-line selection into one per line.");
        self.add_selection("trim-selection-whitespace", "Trim leading and trailing whitespace from each selection.");
        self.add_selection("copy-selection-on-next-line", "Duplicate each selection on the line below.");
        self.add_selection("copy-selection-on-prev-line", "Duplicate each selection on the line above.");
    }

    fn register_object_commands(&mut self)
        ensures
            forall|n: Seq<char>| #[trigger]
                final(self).entry(n) == or_else(object_command(n), old(self).entry(n)),
            final(self).alias_map == old(self).alias_map,
    {
        self.add_selection("inner-line", "Select inner line content (excluding the newline).");
        self.add_selection("around-line", "Select the line including its newline.");
        self.add_selection("inner-word", "Select inner word.");
        self.add_selection("around-word", "Select word plus surrounding whitespace.");
        self.add_selection("inner-WORD", "Select inner WORD (whitespace-delimited).");
        self.add_selection("around-WORD", "Select WORD plus surrounding whitespace.");
        self.add_selection("inner-argument", "Select the argument at the cursor (trimmed).");
        self.add_selection("around-argument", "Select the argument and its separator comma.");
    }

    fn register_delimiter_commands(&mut self)
        ensures
            forall|n: Seq<char>| #[trigger]
                final(self).entry(n) == or_else(delimiter_command(n), old(self).entry(n)),
            final(self).alias_map == old(self).alias_map,
    {
        self.add_selection("inner-paren", "Select content inside the nearest `()`.");
        self.add_selection("around-paren", "Select content including the nearest `()`.");
        self.add_selection("inner-bracket", "Select content inside the nearest `[]`.");
        self.add_selection("around-bracket", "Select content including the nearest `[]`.");
        self.add_selection("inner-brace", "Select content inside the nearest `{}`.");
        self.add_selection("around-brace", "Select content including the nearest `{}`.");
        self.add_selection("inner-angle", "Select content inside the nearest `<>`.");
        self.add_selection("around-angle", "Select content including the nearest `<>`.");
        self.add_selection("inner-double-quote", "Select content inside the nearest `\"`.");
        self.add_selection("around-double-quote", "Select content including the nearest `\"`.");
        self.add_selection("inner-single-quote", "Select content inside the nearest `'`.");
        self.add_selection("around-single-quote", "Select content including the nearest `'`.");
        self.add_selection("inner-backtick", "Select content inside the nearest backtick pair.");
        self.add_selection("around-backtick", "Select content including the nearest backtick pair.");
    }

    fn register_surround_commands(&mut self)
        ensures
            forall|n: Seq<char>| #[trigger]
                final(self).entry(n) == or_else(surround_command(n), old(self).entry(n)),
            final(self).alias_map == old(self).alias_map,
    {
        self.add_selection("surround-paren", "Select surrounding `()` delimiters.");
        self.add_selection("surround-bracket", "Select surrounding `[]` delimiters.");
        self.add_selection("surround-brace", "Select surrounding `{}` delimiters.");
        self.add_selection("surround-angle", "Select surrounding `<>` delimiters.");
        self.add_selection("surround-double-quote", "Select surrounding `\"` delimiters.");
        self.add_selection("surround-single-quote", "Select surrounding `'` delimiters.");
        self.add_selection("surround-backtick", "Select surrounding backtick delimiters.");
    }

    fn register_edit_commands(&mut self)
        ensures
            forall|n: Seq<char>| #[trigger]
                final(self).entry(n) == or_else(edit_command(n), old(self).entry(n)),
            final(self).alias_map == old(self).alias_map,
    {
        self.add_edit("delete-char-forward", "Delete the character (or selection) under the cursor.", false);
        self.add_edit("delete-char-backward", "Delete the character before each cursor.", false);
        self.add_edit("delete-selection", "Delete all selections.", false);
    }

    fn register_mode_commands(&mut self)
        ensures
            forall|n: Seq<char>| #[trigger]
                final(self).entry(n) == or_else(mode_command(n), old(self).entry(n)),
            final(self).alias_map == old(self).alias_map,
    {
        self.add_editor_cmd("insert-before", "Enter insert mode; collapse each selection to its start.", true, false, false, false);
        self.add_editor_cmd("insert-after", "Enter insert mode after the cursor (move one grapheme right).", true, false, false, false);
        self.add_editor_cmd("insert-at-line-start", "Enter insert mode at the first non-blank character on the line.", true, false, false, false);
        self.add_editor_cmd("insert-at-line-end", "Enter insert mode after the last character on the line.", true, false, false, false);
        self.add_editor_cmd("insert-at-selection-start", "Enter insert mode at the start of the selection.", true, false, false, false);
        self.add_editor_cmd("insert-at-selection-end", "Enter insert mode after the end of the selection.", true, false, false, false);
        self.add_editor_cmd("open-line-below", "Open a new line below the cursor and enter insert mode.", true, false, false, false);
        self.add_editor_cmd("open-line-above", "Open a new line above the cursor and enter insert mode.", true, false, false, false);
        self.add_editor_cmd("command-mode", "Open the command-mode mini-buffer.", false, false, false, false);
        self.add_editor_cmd("exit-insert", "Return to normal mode from insert mode.", false, false, false, false);
    }

    fn register_composite_commands(&mut self)
        ensures
            forall|n: Seq<char>| #[trigger]
                final(self).entry(n) == or_else(composite_command(n), old(self).entry(n)),
            final(self).alias_map == old(self).alias_map,
    {
        self.add_editor_cmd("delete", "Yank selections into the default register, then delete them.", true, false, false, false);
        self.add_editor_cmd("change", "Yank, delete selections, then enter insert mode (one undo group).", true, false, false, false);
        self.add_editor_cmd("yank", "Yank selections into the default register without deleting.", false, false, false, false);
        self.add_editor_cmd("paste-after", "Paste register contents after the selection.", true, false, false, false);
        self.add_editor_cmd("paste-before", "Paste register contents before the selection.", true, false, false, false);
        self.add_editor_cmd("undo", "Undo the last change.", false, false, false, false);
        self.add_editor_cmd("redo", "Redo the last undone change.", false, false, false, false);
        self.add_editor_cmd("toggle-extend", "Toggle sticky extend mode.", false, false, false, false);
        self.add_editor_cmd("collapse-and-exit-extend", "Collapse each selection to its cursor and exit extend mode.", false, false, false, false);
    }

    fn register_find_commands(&mut self)
        ensures
            forall|n: Seq<char>| #[trigger]
                final(self).entry(n) == or_else(find_command(n), old(self).entry(n)),
            final(self).alias_map == old(self).alias_map,
    {
        self.add_editor_cmd("find-forward", "Find next occurrence of a character (inclusive, forward).", false, false, false, true);
        self.add_editor_cmd("find-backward", "Find previous occurrence of a character (inclusive, backward).", false, false, false, true);
        self.add_editor_cmd("till-forward", "Move to just before next occurrence of a character (exclusive).", false, false, false, true);
        self.add_editor_cmd("till-backward", "Move to just after previous occurrence of a character (exclusive).", false, false, false, true);
        self.add_editor_cmd("repeat-find-forward", "Repeat the last find/till motion forward.", false, false, false, true);
        self.add_editor_cmd("repeat-find-backward", "Repeat the last find/till motion backward.", false, false, false, true);
        self.add_editor_cmd("replace", "Replace every character in each selection with the next typed character.", true, false, false, false);
    }

    fn register_scroll_commands(&mut self)
        ensures
            forall|n: Seq<char>| #[trigger]
                final(self).entry(n) == or_else(scroll_command(n), old(self).entry(n)),
            final(self).alias_map == old(self).alias_map,
    {
        self.add_editor_cmd("page-down", "Scroll down by one viewport height.", false, true, false, true);
        self.add_editor_cmd("page-up", "Scroll up by one viewport height.", false, true, false, true);
        self.add_editor_cmd("half-page-down", "Scroll down by half a viewport height.", false, false, false, true);
        self.add_editor_cmd("half-page-up", "Scroll up by half a viewport height.", false, false, false, true);
        self.add_editor_cmd("repeat-last-action", "Repeat the last editing action.", false, false, false, false);
    }

    fn register_search_commands(&mut self)
        ensures
            forall|n: Seq<char>| #[trigger]
                final(self).entry(n) == or_else(search_command(n), old(self).entry(n)),
            final(self).alias_map == old(self).alias_map,
    {
        self.add_editor_cmd("search-forward", "Enter search mode (forward).", false, false, false, false);
        self.add_editor_cmd("search-backward", "Enter search mode (backward).", false, false, false, false);
        self.add_editor_cmd("search-next", "Jump to the next search match.", false, true, false, true);
        self.add_editor_cmd("search-prev", "Jump to the previous search match.", false, true, false, true);
        self.add_editor_cmd("clear-search", "Clear search highlights (`:clear-search` / `:cs`).", false, false, false, false);
        self.add_editor_cmd("select-within", "Select regex matches within current selections.", false, false, false, false);
        self.add_editor_cmd("select-all-matches", "Turn every search match in the buffer into a selection.", false, false, false, false);
        self.add_editor_cmd("use-selection-as-search", "Use primary selection text as the search pattern.", false, false, false, false);
        self.add_editor_cmd("jump-backward", "Navigate to the previous position in the jump list.", false, false, false, false);
        self.add_editor_cmd("jump-forward", "Navigate to the next position in the jump list.", false, false, false, false);
        self.add_editor_cmd("force-quit", "Quit without checking for unsaved changes.", false, false, false, false);
    }

    fn register_typed_commands(&mut self)
        requires
            old(self).aliases() == Map::<Seq<char>, Seq<char>>::empty(),
        ensures
            forall|n: Seq<char>| #[trigger]
                final(self).entry(n) == (match typed_command(n) {
                    Some(e) => Some(e),
                    None => old(self).entry(n),
                }),
            final(self).aliases() == default_aliases(),
    {
        self.add_typed("quit", "Close the editor.", Some("q"));
        self.add_typed("write", "Write changes to disk.", Some("w"));
        self.add_typed("write-quit", "Write changes and quit.", Some("wq"));
        self.add_typed("toggle-soft-wrap", "Toggle soft line wrapping.", Some("wrap"));
        self.add_typed("set", "Set a configuration value: :set global|buffer key=value.", None);
    }

    /// Registers every command there is without scripts.
    fn register_defaults(&mut self)
        requires
            old(self).aliases() == Map::<Seq<char>, Seq<char>>::empty(),
        ensures
            forall|n: Seq<char>| #[trigger]
                final(self).entry(n) == (match default_entry(n) {
                    Some(e) => Some(e),
                    None => old(self).entry(n),
                }),
            final(self).aliases() == default_aliases(),
    {
        self.register_motion_commands();
        self.register_selection_commands();
        self.register_object_commands();
        self.register_delimiter_commands();
        self.register_surround_commands();
        self.register_edit_commands();
        self.register_mode_commands();
        self.register_composite_commands();
        self.register_find_commands();
        self.register_scroll_commands();
        self.register_search_commands();
        self.register_typed_commands();
    }

    /// The registry with the default commands.
    pub fn with_defaults() -> (r: Self)
        ensures
            forall|n: Seq<char>| #[trigger] r.entry(n) == default_entry(n),
            r.aliases() == default_aliases(),
    {
        let mut r = CommandRegistry::new();
        r.register_defaults();
        r
    }
}

/// Motions.
pub open spec fn motion_command(n: Seq<char>) -> Option<Cmd> {
    if n == "prev-paragraph"@ {
        Some(Cmd::Motion { name: "prev-paragraph"@, doc: "Move cursors to the start of the previous paragraph."@, jump: false })
    } else if n == "next-paragraph"@ {
        Some(Cmd::Motion { name: "next-paragraph"@, doc: "Move cursors to the start of the next paragraph."@, jump: false })
    } else if n == "select-prev-WORD"@ {
        Some(Cmd::Motion { name: "select-prev-WORD"@, doc: "Select the previous WORD (whitespace-delimited)."@, jump: false })
    } else if n == "select-prev-word"@ {
        Some(Cmd::Motion { name: "select-prev-word"@, doc: "Select the previous word."@, jump: false })
    } else if n == "select-next-WORD"@ {
        Some(Cmd::Motion { name: "select-next-WORD"@, doc: "Select the next WORD (whitespace-delimited)."@, jump: false })
    } else if n == "select-next-word"@ {
        Some(Cmd::Motion { name: "select-next-word"@, doc: "Select the next word."@, jump: false })
    } else if n == "goto-first-nonblank"@ {
        Some(Cmd::Motion { name: "goto-first-nonblank"@, doc: "Move cursors to the first non-blank character on the line."@, jump: false })
    } else if n == "goto-line-end"@ {
        Some(Cmd::Motion { name: "goto-line-end"@, doc: "Move cursors to the last character on the line."@, jump: false })
    } else if n == "goto-line-start"@ {
        Some(Cmd::Motion { name: "goto-line-start"@, doc: "Move cursors to the start of the line."@, jump: false })
    } else if n == "goto-last-line"@ {
        Some(Cmd::Motion { name: "goto-last-line"@, doc: "Move cursors to the first character of the last line."@, jump: true })
    } else if n == "goto-first-line"@ {
        Some(Cmd::Motion { name: "goto-first-line"@, doc: "Move cursors to the first character of the buffer."@, jump: true })
    } else if n == "move-up"@ {
        Some(editor_cmd("move-up"@, "Move cursors up one visual line."@, false, false, true, true))
    } else if n == "move-down"@ {
        Some(editor_cmd("move-down"@, "Move cursors down one visual line."@, false, false, true, true))
    } else if n == "move-left"@ {
        Some(Cmd::Motion { name: "move-left"@, doc: "Move cursors one grapheme to the left."@, jump: false })
    } else if n == "move-right"@ {
        Some(Cmd::Motion { name: "move-right"@, doc: "Move cursors one grapheme to the right."@, jump: false })
    } else {
        None
    }
}

/// Selections.
pub open spec fn selection_command(n: Seq<char>) -> Option<Cmd> {
    if n == "copy-selection-on-prev-line"@ {
        Some(Cmd::Selection { name: "copy-selection-on-prev-line"@, doc: "Duplicate each selection on the line above."@ })
    } else if n == "copy-selection-on-next-line"@ {
        Some(Cmd::Selection { name: "copy-selection-on-next-line"@, doc: "Duplicate each selection on the line below."@ })
    } else if n == "trim-selection-whitespace"@ {
        Some(Cmd::Selection { name: "trim-selection-whitespace"@, doc: "Trim leading and trailing whitespace from each selection."@ })
    } else if n == "split-selection-on-newlines"@ {
        Some(Cmd::Selection { name: "split-selection-on-newlines"@, doc: "Split each multi-line selection into one per line."@ })
    } else if n == "cycle-primary-backward"@ {
        Some(Cmd::Selection { name: "cycle-primary-backward"@, doc: "Cycle the primary selection backward."@ })
    } else if n == "cycle-primary-forward"@ {
        Some(Cmd::Selection { name: "cycle-primary-forward"@, doc: "Cycle the primary selection forward."@ })
    } else if n == "remove-primary-selection"@ {
        Some(Cmd::Selection { name: "remove-primary-selection"@, doc: "Remove the primary selection, promoting the next."@ })
    } else if n == "select-all"@ {
        Some(Cmd::Selection { name: "select-all"@, doc: "Select the entire buffer."@ })
    } else if n == "keep-primary-selection"@ {
        Some(Cmd::Selection { name: "keep-primary-selection"@, doc: "Remove all selections except the primary."@ })
    } else if n == "flip-selections"@ {
        Some(Cmd::Selection { name: "flip-selections"@, doc: "Swap anchor and head for each selection."@ })
    } else if n == "collapse-selection"@ {
        Some(Cmd::Selection { name: "collapse-selection"@, doc: "Collapse each selection to a single cursor at the head."@ })
    } else if n == "select-line-backward"@ {
        Some(Cmd::Selection { name: "select-line-backward"@, doc: "Select the full current line (backward)."@ })
    } else if n == "select-line"@ {
        Some(Cmd::Selection { name: "select-line"@, doc: "Select the full current line (forward)."@ })
    } else {
        None
    }
}

/// Text objects: lines, words and arguments.
pub open spec fn object_command(n: Seq<char>) -> Option<Cmd> {
    if n == "around-argument"@ {
        Some(Cmd::Selection { name: "around-argument"@, doc: "Select the argument and its separator comma."@ })
    } else if n == "inner-argument"@ {
        Some(Cmd::Selection { name: "inner-argument"@, doc: "Select the argument at the cursor (trimmed)."@ })
    } else if n == "around-WORD"@ {
        Some(Cmd::Selection { name: "around-WORD"@, doc: "Select WORD plus surrounding whitespace."@ })
    } else if n == "inner-WORD"@ {
        Some(Cmd::Selection { name: "inner-WORD"@, doc: "Select inner WORD (whitespace-delimited)."@ })
    } else if n == "around-word"@ {
        Some(Cmd::Selection { name: "around-word"@, doc: "Select word plus surrounding whitespace."@ })
    } else if n == "inner-word"@ {
        Some(Cmd::Selection { name: "inner-word"@, doc: "Select inner word."@ })
    } else if n == "around-line"@ {
        Some(Cmd::Selection { name: "around-line"@, doc: "Select the line including its newline."@ })
    } else if n == "inner-line"@ {
        Some(Cmd::Selection { name: "inner-line"@, doc: "Select inner line content (excluding the newline)."@ })
    } else {
        None
    }
}

/// Text objects between delimiters.
pub open spec fn delimiter_command(n: Seq<char>) -> Option<Cmd> {
    if n == "around-backtick"@ {
        Some(Cmd::Selection { name: "around-backtick"@, doc: "Select content including the nearest backtick pair."@ })
    } else if n == "inner-backtick"@ {
        Some(Cmd::Selection { name: "inner-backtick"@, doc: "Select content inside the nearest backtick pair."@ })
    } else if n == "around-single-quote"@ {
        Some(Cmd::Selection { name: "around-single-quote"@, doc: "Select content including the nearest `'`."@ })
    } else if n == "inner-single-quote"@ {
        Some(Cmd::Selection { name: "inner-single-quote"@, doc: "Select content inside the nearest `'`."@ })
    } else if n == "around-double-quote"@ {
        Some(Cmd::Selection { name: "around-double-quote"@, doc: "Select content including the nearest `\"`."@ })
    } else if n == "inner-double-quote"@ {
        Some(Cmd::Selection { name: "inner-double-quote"@, doc: "Select content inside the nearest `\"`."@ })
    } else if n == "around-angle"@ {
        Some(Cmd::Selection { name: "around-angle"@, doc: "Select content including the nearest `<>`."@ })
    } else if n == "inner-angle"@ {
        Some(Cmd::Selection { name: "inner-angle"@, doc: "Select content inside the nearest `<>`."@ })
    } else if n == "around-brace"@ {
        Some(Cmd::Selection { name: "around-brace"@, doc: "Select content including the nearest `{}`."@ })
    } else if n == "inner-brace"@ {
        Some(Cmd::Selection { name: "inner-brace"@, doc: "Select content inside the nearest `{}`."@ })
    } else if n == "around-bracket"@ {
        Some(Cmd::Selection { name: "around-bracket"@, doc: "Select content including the nearest `[]`."@ })
    } else if n == "inner-bracket"@ {
        Some(Cmd::Selection { name: "inner-bracket"@, doc: "Select content inside the nearest `[]`."@ })
    } else if n == "around-paren"@ {
        Some(Cmd::Selection { name: "around-paren"@, doc: "Select content including the nearest `()`."@ })
    } else if n == "inner-paren"@ {
        Some(Cmd::Selection { name: "inner-paren"@, doc: "Select content inside the nearest `()`."@ })
    } else {
        None
    }
}

/// Delimiters around.
pub open spec fn surround_command(n: Seq<char>) -> Option<Cmd> {
    if n == "surround-backtick"@ {
        Some(Cmd::Selection { name: "surround-backtick"@, doc: "Select surrounding backtick delimiters."@ })
    } else if n == "surround-single-quote"@ {
        Some(Cmd::Selection { name: "surround-single-quote"@, doc: "Select surrounding `'` delimiters."@ })
    } else if n == "surround-double-quote"@ {
        Some(Cmd::Selection { name: "surround-double-quote"@, doc: "Select surrounding `\"` delimiters."@ })
    } else if n == "surround-angle"@ {
        Some(Cmd::Selection { name: "surround-angle"@, doc: "Select surrounding `<>` delimiters."@ })
    } else if n == "surround-brace"@ {
        Some(Cmd::Selection { name: "surround-brace"@, doc: "Select surrounding `{}` delimiters."@ })
    } else if n == "surround-bracket"@ {
        Some(Cmd::Selection { name: "surround-bracket"@, doc: "Select surrounding `[]` delimiters."@ })
    } else if n == "surround-paren"@ {
        Some(Cmd::Selection { name: "surround-paren"@, doc: "Select surrounding `()` delimiters."@ })
    } else {
        None
    }
}

/// Edits.
pub open spec fn edit_command(n: Seq<char>) -> Option<Cmd> {
    if n == "delete-selection"@ {
        Some(Cmd::Edit { name: "delete-selection"@, doc: "Delete all selections."@, repeatable: false })
    } else if n == "delete-char-backward"@ {
        Some(Cmd::Edit { name: "delete-char-backward"@, doc: "Delete the character before each cursor."@, repeatable: false })
    } else if n == "delete-char-forward"@ {
        Some(Cmd::Edit { name: "delete-char-forward"@, doc: "Delete the character (or selection) under the cursor."@, repeatable: false })
    } else {
        None
    }
}

/// Mode changes.
pub open spec fn mode_command(n: Seq<char>) -> Option<Cmd> {
    if n == "exit-insert"@ {
        Some(editor_cmd("exit-insert"@, "Return to normal mode from insert mode."@, false, false, false, false))
    } else if n == "command-mode"@ {
        Some(editor_cmd("command-mode"@, "Open the command-mode mini-buffer."@, false, false, false, false))
    } else if n == "open-line-above"@ {
        Some(editor_cmd("open-line-above"@, "Open a new line above the cursor and enter insert mode."@, true, false, false, false))
    } else if n == "open-line-below"@ {
        Some(editor_cmd("open-line-below"@, "Open a new line below the cursor and enter insert mode."@, true, false, false, false))
    } else if n == "insert-at-selection-end"@ {
        Some(editor_cmd("insert-at-selection-end"@, "Enter insert mode after the end of the selection."@, true, false, false, false))
    } else if n == "insert-at-selection-start"@ {
        Some(editor_cmd("insert-at-selection-start"@, "Enter insert mode at the start of the selection."@, true, false, false, false))
    } else if n == "insert-at-line-end"@ {
        Some(editor_cmd("insert-at-line-end"@, "Enter insert mode after the last character on the line."@, true, false, false, false))
    } else if n == "insert-at-line-start"@ {
        Some(editor_cmd("insert-at-line-start"@, "Enter insert mode at the first non-blank character on the line."@, true, false, false, false))
    } else if n == "insert-after"@ {
        Some(editor_cmd("insert-after"@, "Enter insert mode after the cursor (move one grapheme right)."@, true, false, false, false))
    } else if n == "insert-before"@ {
        Some(editor_cmd("insert-before"@, "Enter insert mode; collapse each selection to its start."@, true, false, false, false))
    } else {
        None
    }
}

/// Edits that use registers and the history, and the extend state.
pub open spec fn composite_command(n: Seq<char>) -> Option<Cmd> {
    if n == "collapse-and-exit-extend"@ {
        Some(editor_cmd("collapse-and-exit-extend"@, "Collapse each selection to its cursor and exit extend mode."@, false, false, false, false))
    } else if n == "toggle-extend"@ {
        Some(editor_cmd("toggle-extend"@, "Toggle sticky extend mode."@, false, false, false, false))
    } else if n == "redo"@ {
        Some(editor_cmd("redo"@, "Redo the last undone change."@, false, false, false, false))
    } else if n == "undo"@ {
        Some(editor_cmd("undo"@, "Undo the last change."@, false, false, false, false))
    } else if n == "paste-before"@ {
        Some(editor_cmd("paste-before"@, "Paste register contents before the selection."@, true, false, false, false))
    } else if n == "paste-after"@ {
        Some(editor_cmd("paste-after"@, "Paste register contents after the selection."@, true, false, false, false))
    } else if n == "yank"@ {
        Some(editor_cmd("yank"@, "Yank selections into the default register without deleting."@, false, false, false, false))
    } else if n == "change"@ {
        Some(editor_cmd("change"@, "Yank, delete selections, then enter insert mode (one undo group)."@, true, false, false, false))
    } else if n == "delete"@ {
        Some(editor_cmd("delete"@, "Yank selections into the default register, then delete them."@, true, false, false, false))
    } else {
        None
    }
}

/// Finding and replacing a character.
pub open spec fn find_command(n: Seq<char>) -> Option<Cmd> {
    if n == "replace"@ {
        Some(editor_cmd("replace"@, "Replace every character in each selection with the next typed character."@, true, false, false, false))
    } else if n == "repeat-find-backward"@ {
        Some(editor_cmd("repeat-find-backward"@, "Repeat the last find/till motion backward."@, false, false, false, true))
    } else if n == "repeat-find-forward"@ {
        Some(editor_cmd("repeat-find-forward"@, "Repeat the last find/till motion forward."@, false, false, false, true))
    } else if n == "till-backward"@ {
        Some(editor_cmd("till-backward"@, "Move to just after previous occurrence of a character (exclusive)."@, false, false, false, true))
    } else if n == "till-forward"@ {
        Some(editor_cmd("till-forward"@, "Move to just before next occurrence of a character (exclusive)."@, false, false, false, true))
    } else if n == "find-backward"@ {
        Some(editor_cmd("find-backward"@, "Find previous occurrence of a character (inclusive, backward)."@, false, false, false, true))
    } else if n == "find-forward"@ {
        Some(editor_cmd("find-forward"@, "Find next occurrence of a character (inclusive, forward)."@, false, false, false, true))
    } else {
        None
    }
}

/// Scrolling, and repeating.
pub open spec fn scroll_command(n: Seq<char>) -> Option<Cmd> {
    if n == "repeat-last-action"@ {
        Some(editor_cmd("repeat-last-action"@, "Repeat the last editing action."@, false, false, false, false))
    } else if n == "half-page-up"@ {
        Some(editor_cmd("half-page-up"@, "Scroll up by half a viewport height."@, false, false, false, true))
    } else if n == "half-page-down"@ {
        Some(editor_cmd("half-page-down"@, "Scroll down by half a viewport height."@, false, false, false, true))
    } else if n == "page-up"@ {
        Some(editor_cmd("page-up"@, "Scroll up by one viewport height."@, false, true, false, true))
    } else if n == "page-down"@ {
        Some(editor_cmd("page-down"@, "Scroll down by one viewport height."@, false, true, false, true))
    } else {
        None
    }
}

/// Searching, selecting by pattern, jumping, quitting.
pub open spec fn search_command(n: Seq<char>) -> Option<Cmd> {
    if n == "force-quit"@ {
        Some(editor_cmd("force-quit"@, "Quit without checking for unsaved changes."@, false, false, false, false))
    } else if n == "jump-forward"@ {
        Some(editor_cmd("jump-forward"@, "Navigate to the next position in the jump list."@, false, false, false, false))
    } else if n == "jump-backward"@ {
        Some(editor_cmd("jump-backward"@, "Navigate to the previous position in the jump list."@, false, false, false, false))
    } else if n == "use-selection-as-search"@ {
        Some(editor_cmd("use-selection-as-search"@, "Use primary selection text as the search pattern."@, false, false, false, false))
    } else if n == "select-all-matches"@ {
        Some(editor_cmd("select-all-matches"@, "Turn every search match in the buffer into a selection."@, false, false, false, false))
    } else if n == "select-within"@ {
        Some(editor_cmd("select-within"@, "Select regex matches within current selections."@, false, false, false, false))
    } else if n == "clear-search"@ {
        Some(editor_cmd("clear-search"@, "Clear search highlights (`:clear-search` / `:cs`)."@, false, false, false, false))
    } else if n == "search-prev"@ {
        Some(editor_cmd("search-prev"@, "Jump to the previous search match."@, false, true, false, true))
    } else if n == "search-next"@ {
        Some(editor_cmd("search-next"@, "Jump to the next search match."@, false, true, false, true))
    } else if n == "search-backward"@ {
        Some(editor_cmd("search-backward"@, "Enter search mode (backward)."@, false, false, false, false))
    } else if n == "search-forward"@ {
        Some(editor_cmd("search-forward"@, "Enter search mode (forward)."@, false, false, false, false))
    } else {
        None
    }
}

/// The commands of the command line.
pub open spec fn typed_command(n: Seq<char>) -> Option<Entry> {
    if n == "set"@ {
        Some(typed("set"@, "Set a configuration value: :set global|buffer key=value."@, Seq::empty()))
    } else if n == "toggle-soft-wrap"@ {
        Some(typed("toggle-soft-wrap"@, "Toggle soft line wrapping."@, seq!["wrap"@]))
    } else if n == "write-quit"@ {
        Some(typed("write-quit"@, "Write changes and quit."@, seq!["wq"@]))
    } else if n == "write"@ {
        Some(typed("write"@, "Write changes to disk."@, seq!["w"@]))
    } else if n == "quit"@ {
        Some(typed("quit"@, "Close the editor."@, seq!["q"@]))
    } else {
        None
    }
}

/// The short forms of typed commands.
pub open spec fn default_aliases() -> Map<Seq<char>, Seq<char>> {
    Map::empty().insert("q"@, "quit"@).insert("w"@, "write"@).insert("wq"@, "write-quit"@).insert("wrap"@, "toggle-soft-wrap"@)
}

/// The default command called `n`.
pub open spec fn default_entry(n: Seq<char>) -> Option<Entry> {
    match typed_command(n) {
        Some(e) => Some(e),
        None => or_else(search_command(n), or_else(scroll_command(n), or_else(find_command(n), or_else(composite_command(n), or_else(mode_command(n), or_else(edit_command(n), or_else(surround_command(n), or_else(delimiter_command(n), or_else(object_command(n), or_else(selection_command(n), or_else(motion_command(n), None))))))))))),
    }
}

/// A command that was just registered is found under its name, and every other name
/// means what it meant.
pub proof fn law_register_is_found(before: CommandRegistry, after: CommandRegistry, c: Cmd)
    requires
        forall|n: Seq<char>| #[trigger]
            after.entry(n) == (if n == c.name() {
                Some(Entry::Mappable(c))
            } else {
                before.entry(n)
            }),
    ensures
        after.mappable(c.name()) == Some(c),
        forall|n: Seq<char>| n != c.name() ==> #[trigger] after.mappable(n) == before.mappable(n),
{
}

/// A name calls at most one command: what is found as a mappable command is not a typed
/// one.
pub proof fn law_one_name_space(r: CommandRegistry, n: Seq<char>)
    requires
        !r.aliases().contains_key(n),
    ensures
        !(r.mappable(n) is Some && r.typed(n) is Some),
{
}

/// The command that a binding of a built-in layer names is registered, or is one of the two
/// for which a layer has a key and the editor has no command.
pub open spec fn names_default(b: Option<Walk>) -> bool {
    match b {
        Some(Walk::Leaf(n)) => default_entry(n) is Some || n == "extend-select-line"@ || n
            == "extend-select-line-backward"@,
        Some(Walk::WaitChar(n, _)) => default_entry(n) is Some,
        _ => true,
    }
}

proof fn lemma_layers_name_defaults(k: KeyEvent)
    ensures
        names_default(motion_binding(k)),
        names_default(word_binding(k)),
        names_default(line_binding(k)),
        names_default(page_binding(k)),
        names_default(selection_binding(k)),
        names_default(edit_binding(k)),
        names_default(find_binding(k)),
        names_default(search_binding(k)),
        names_default(mode_binding(k)),
{
}

proof fn lemma_object_layers_name_defaults(k: KeyEvent)
    ensures
        names_default(goto_binding(k)),
        names_default(inner_binding(k)),
        names_default(around_binding(k)),
        names_default(surround_binding(k)),
        names_default(extend_binding(k)),
        names_default(insert_binding(k)),
{
}

/// Whatever the default keymaps lead to is a registered command, but for the two commands
/// that add whole lines to the selection, which nothing registers.
pub proof fn law_default_keymaps_name_registered_commands(ks: Seq<KeyEvent>)
    requires
        ks.len() > 0,
    ensures
        names_default(Some(normal_at(ks))),
        names_default(Some(layered(extend_binding(ks[0]), ks, Walk::NoMatch))),
        names_default(Some(layered(insert_binding(ks[0]), ks, Walk::NoMatch))),
{
    lemma_layers_name_defaults(ks[0]);
    lemma_object_layers_name_defaults(ks[0]);
    if ks.len() > 1 {
        let d = ks.drop_first();
        assert(d[0] == ks[1]);
        lemma_object_layers_name_defaults(d[0]);
        if d.len() > 1 {
            assert(d.drop_first()[0] == d[1]);
            lemma_object_layers_name_defaults(d[1]);
        }
    }
}

/// Exactly these commands always leave an entry in the jump list.
#[verifier::rlimit(60)]
pub proof fn law_commands_that_jump(n: Seq<char>)
    ensures
        (match default_entry(n) {
            Some(Entry::Mappable(c)) => c.jump(),
            _ => false,
        }) <==> (n == "goto-last-line"@
            || n == "goto-first-line"@
            || n == "page-up"@
            || n == "page-down"@
            || n == "search-prev"@
            || n == "search-next"@),
{
    lemma_lengths_of_names();
}

/// Exactly these commands are done again by the repeat command.
#[verifier::rlimit(60)]
pub proof fn law_commands_that_repeat(n: Seq<char>)
    ensures
        (match default_entry(n) {
            Some(Entry::Mappable(c)) => c.repeatable(),
            _ => false,
        }) <==> (n == "open-line-above"@
            || n == "open-line-below"@
            || n == "insert-at-selection-end"@
            || n == "insert-at-selection-start"@
            || n == "insert-at-line-end"@
            || n == "insert-at-line-start"@
            || n == "insert-after"@
            || n == "insert-before"@
            || n == "paste-before"@
            || n == "paste-after"@
            || n == "change"@
            || n == "delete"@
            || n == "replace"@),
{
    lemma_lengths_of_names();
}

/// Exactly these commands move by visual lines.
#[verifier::rlimit(60)]
pub proof fn law_commands_by_visual_lines(n: Seq<char>)
    ensures
        (match default_entry(n) {
            Some(Entry::Mappable(c)) => c.visual_move(),
            _ => false,
        }) <==> (n == "move-up"@
            || n == "move-down"@),
{
    lemma_lengths_of_names();
}

/// Of the commands that work on the editor as a whole, exactly these have a form that
/// extends the selection.
#[verifier::rlimit(60)]
pub proof fn law_editor_commands_that_extend(n: Seq<char>)
    ensures
        (match default_entry(n) {
            Some(Entry::Mappable(c)) => c is EditorCmd && c.extendable(),
            _ => false,
        }) <==> (n == "move-up"@
            || n == "move-down"@
            || n == "repeat-find-backward"@
            || n == "repeat-find-forward"@
            || n == "till-backward"@
            || n == "till-forward"@
            || n == "find-backward"@
            || n == "find-forward"@
            || n == "half-page-up"@
            || n == "half-page-down"@
            || n == "page-up"@
            || n == "page-down"@
            || n == "search-prev"@
            || n == "search-next"@),
{
    lemma_lengths_of_names();
}

/// Exactly these commands are motions, which take a count.
#[verifier::rlimit(60)]
pub proof fn law_motions(n: Seq<char>)
    ensures
        (match default_entry(n) {
            Some(Entry::Mappable(c)) => c is Motion,
            _ => false,
        }) <==> (n == "prev-paragraph"@
            || n == "next-paragraph"@
            || n == "select-prev-WORD"@
            || n == "select-prev-word"@
            || n == "select-next-WORD"@
            || n == "select-next-word"@
            || n == "goto-first-nonblank"@
            || n == "goto-line-end"@
            || n == "goto-line-start"@
            || n == "goto-last-line"@
            || n == "goto-first-line"@
            || n == "move-left"@
            || n == "move-right"@),
{
    lemma_lengths_of_names();
}

/// A default command is registered under its own name.
pub proof fn law_default_commands_have_their_names(n: Seq<char>)
    ensures
        match default_entry(n) {
            Some(Entry::Mappable(c)) => c.name() == n,
            Some(Entry::Typed(t)) => t.name == n,
            None => true,
        },
{
}

/// The short forms of the commands of the command line, and no others, stand for their
/// commands.
pub proof fn law_default_short_forms(n: Seq<char>)
    ensures
        default_aliases().contains_key(n) <==> n == "q"@ || n == "w"@ || n == "wq"@ || n == "wrap"@,
        default_aliases()["q"@] == "quit"@,
        default_aliases()["w"@] == "write"@,
        default_aliases()["wq"@] == "write-quit"@,
        default_aliases()["wrap"@] == "toggle-soft-wrap"@,
        default_entry(n) matches Some(Entry::Typed(t)) ==> forall|i: int|
            0 <= i < t.aliases.len() ==> default_aliases().contains_key(#[trigger] t.aliases[i])
                && default_aliases()[t.aliases[i]] == n,
        (default_entry(n) is Some && (default_entry(n)->0) is Typed) <==> n == "quit"@ || n
            == "write"@ || n == "write-quit"@ || n == "toggle-soft-wrap"@ || n == "set"@,
{
    reveal_strlit("q");
    reveal_strlit("w");
    reveal_strlit("wq");
    reveal_strlit("wrap");
    assert("q"@.len() == 1 && "q"@[0] == 'q');
    assert("w"@.len() == 1 && "w"@[0] == 'w');
    assert("wq"@.len() == 2);
    assert("wrap"@.len() == 4);
    lemma_lengths_of_names();
}

/// The short forms that a command comes with stand for it; where two commands have one, for
/// the one that came last, and every other name stands for what it stood for.
pub proof fn law_short_forms_stand_for_the_command(
    m: Map<Seq<char>, Seq<char>>,
    aliases: Seq<Seq<char>>,
    name: Seq<char>,
    n: Seq<char>,
)
    ensures
        aliases.contains(n) ==> with_aliases(m, aliases, name).contains_key(n) && with_aliases(
            m,
            aliases,
            name,
        )[n] == name,
        !aliases.contains(n) ==> (with_aliases(m, aliases, name).contains_key(n)
            <==> m.contains_key(n)),
        !aliases.contains(n) && m.contains_key(n) ==> with_aliases(m, aliases, name)[n] == m[n],
    decreases aliases.len(),
{
    if aliases.len() > 0 {
        let front = aliases.drop_last();
        law_short_forms_stand_for_the_command(m, front, name, n);
        assert(aliases[aliases.len() - 1] == aliases.last());
        if aliases.contains(n) && n != aliases.last() {
            let i = choose|i: int| 0 <= i < aliases.len() && aliases[i] == n;
            assert(front[i] == n);
        }
        if front.contains(n) {
            let i = choose|i: int| 0 <= i < front.len() && front[i] == n;
            assert(aliases[i] == n);
        }
    }
}

/// A short form calls what its command calls.
pub proof fn law_short_form_calls_the_command(r: CommandRegistry, short: Seq<char>)
    requires
        r.aliases().contains_key(short),
        !r.aliases().contains_key(r.aliases()[short]),
    ensures
        r.typed(short) == r.typed(r.aliases()[short]),
        r.known(short),
{
}

/// The names of the default commands differ in their lengths or in these characters.
proof fn lemma_lengths_of_names()
    ensures
        "prev-paragraph"@.len() == 14 && "prev-paragraph"@[0] == 'p' && "prev-paragraph"@[9] == 'g',
        "next-paragraph"@.len() == 14 && "next-paragraph"@[0] == 'n' && "next-paragraph"@[9] == 'g',
        "select-prev-WORD"@.len() == 16 && "select-prev-WORD"@[9] == 'e' && "select-prev-WORD"@[12] == 'W',
        "select-prev-word"@.len() == 16 && "select-prev-word"@[9] == 'e' && "select-prev-word"@[12] == 'w',
        "select-next-WORD"@.len() == 16 && "select-next-WORD"@[9] == 'x' && "select-next-WORD"@[12] == 'W',
        "select-next-word"@.len() == 16 && "select-next-word"@[9] == 'x' && "select-next-word"@[12] == 'w',
        "goto-first-nonblank"@.len() == 19 && "goto-first-nonblank"@[7] == 'r',
        "goto-line-end"@.len() == 13 && "goto-line-end"@[0] == 'g' && "goto-line-end"@[2] == 't',
        "goto-line-start"@.len() == 15 && "goto-line-start"@[0] == 'g' && "goto-line-start"@[10] == 's',
        "goto-last-line"@.len() == 14 && "goto-last-line"@[0] == 'g' && "goto-last-line"@[9] == '-',
        "goto-first-line"@.len() == 15 && "goto-first-line"@[0] == 'g' && "goto-first-line"@[10] == '-',
        "move-up"@.len() == 7 && "move-up"@[0] == 'm',
        "move-down"@.len() == 9 && "move-down"@[0] == 'm' && "move-down"@[5] == 'd',
        "move-left"@.len() == 9 && "move-left"@[0] == 'm' && "move-left"@[5] == 'l',
        "move-right"@.len() == 10 && "move-right"@[0] == 'm' && "move-right"@[6] == 'i',
        "copy-selection-on-prev-line"@.len() == 27 && "copy-selection-on-prev-line"@[18] == 'p',
        "copy-selection-on-next-line"@.len() == 27 && "copy-selection-on-next-line"@[18] == 'n',
        "trim-selection-whitespace"@.len() == 25 && "trim-selection-whitespace"@[0] == 't',
        "split-selection-on-newlines"@.len() == 27 && "split-selection-on-newlines"@[18] == '-',
        "cycle-primary-backward"@.len() == 22 && "cycle-primary-backward"@[0] == 'c',
        "cycle-primary-forward"@.len() == 21 && "cycle-primary-forward"@[9] == 'm',
        "remove-primary-selection"@.len() == 24 && "remove-primary-selection"@[0] == 'r',
        "select-all"@.len() == 10 && "select-all"@[0] == 's' && "select-all"@[6] == '-',
        "keep-primary-selection"@.len() == 22 && "keep-primary-selection"@[0] == 'k',
        "flip-selections"@.len() == 15 && "flip-selections"@[0] == 'f' && "flip-selections"@[10] == 't',
        "collapse-selection"@.len() == 18 && "collapse-selection"@[8] == '-',
        "select-line-backward"@.len() == 20 && "select-line-backward"@[0] == 's',
        "select-line"@.len() == 11 && "select-line"@[0] == 's' && "select-line"@[7] == 'l',
        "around-argument"@.len() == 15 && "around-argument"@[0] == 'a' && "around-argument"@[10] == 'u',
        "inner-argument"@.len() == 14 && "inner-argument"@[0] == 'i' && "inner-argument"@[9] == 'u',
        "around-WORD"@.len() == 11 && "around-WORD"@[0] == 'a' && "around-WORD"@[7] == 'W',
        "inner-WORD"@.len() == 10 && "inner-WORD"@[0] == 'i' && "inner-WORD"@[6] == 'W',
        "around-word"@.len() == 11 && "around-word"@[0] == 'a' && "around-word"@[7] == 'w',
        "inner-word"@.len() == 10 && "inner-word"@[0] == 'i' && "inner-word"@[6] == 'w',
        "around-line"@.len() == 11 && "around-line"@[0] == 'a' && "around-line"@[7] == 'l',
        "inner-line"@.len() == 10 && "inner-line"@[0] == 'i' && "inner-line"@[6] == 'l',
        "around-backtick"@.len() == 15 && "around-backtick"@[0] == 'a' && "around-backtick"@[10] == 'k',
        "inner-backtick"@.len() == 14 && "inner-backtick"@[0] == 'i' && "inner-backtick"@[9] == 'k',
        "around-single-quote"@.len() == 19 && "around-single-quote"@[7] == 's',
        "inner-single-quote"@.len() == 18 && "inner-single-quote"@[8] == 'n',
        "around-double-quote"@.len() == 19 && "around-double-quote"@[7] == 'd',
        "inner-double-quote"@.len() == 18 && "inner-double-quote"@[8] == 'u',
        "around-angle"@.len() == 12 && "around-angle"@[3] == 'u' && "around-angle"@[7] == 'a',
        "inner-angle"@.len() == 11 && "inner-angle"@[0] == 'i' && "inner-angle"@[7] == 'n',
        "around-brace"@.len() == 12 && "around-brace"@[3] == 'u' && "around-brace"@[7] == 'b',
        "inner-brace"@.len() == 11 && "inner-brace"@[0] == 'i' && "inner-brace"@[7] == 'r',
        "around-bracket"@.len() == 14 && "around-bracket"@[0] == 'a' && "around-bracket"@[9] == 'a',
        "inner-bracket"@.len() == 13 && "inner-bracket"@[0] == 'i' && "inner-bracket"@[2] == 'n',
        "around-paren"@.len() == 12 && "around-paren"@[3] == 'u' && "around-paren"@[7] == 'p',
        "inner-paren"@.len() == 11 && "inner-paren"@[0] == 'i' && "inner-paren"@[7] == 'a',
        "surround-backtick"@.len() == 17,
        "surround-single-quote"@.len() == 21 && "surround-single-quote"@[9] == 's',
        "surround-double-quote"@.len() == 21 && "surround-double-quote"@[9] == 'd',
        "surround-angle"@.len() == 14 && "surround-angle"@[0] == 's' && "surround-angle"@[9] == 'a',
        "surround-brace"@.len() == 14 && "surround-brace"@[0] == 's' && "surround-brace"@[9] == 'b',
        "surround-bracket"@.len() == 16 && "surround-bracket"@[9] == 'b' && "surround-bracket"@[12] == 'c',
        "surround-paren"@.len() == 14 && "surround-paren"@[0] == 's' && "surround-paren"@[9] == 'p',
        "delete-selection"@.len() == 16 && "delete-selection"@[9] == 'l' && "delete-selection"@[12] == 't',
        "delete-char-backward"@.len() == 20 && "delete-char-backward"@[0] == 'd',
        "delete-char-forward"@.len() == 19 && "delete-char-forward"@[7] == 'c',
        "exit-insert"@.len() == 11 && "exit-insert"@[0] == 'e' && "exit-insert"@[7] == 's',
        "command-mode"@.len() == 12 && "command-mode"@[3] == 'm' && "command-mode"@[7] == '-',
        "open-line-above"@.len() == 15 && "open-line-above"@[0] == 'o' && "open-line-above"@[10] == 'a',
        "open-line-below"@.len() == 15 && "open-line-below"@[0] == 'o' && "open-line-below"@[10] == 'b',
        "insert-at-selection-end"@.len() == 23 && "insert-at-selection-end"@[0] == 'i',
        "insert-at-selection-start"@.len() == 25 && "insert-at-selection-start"@[0] == 'i',
        "insert-at-line-end"@.len() == 18 && "insert-at-line-end"@[8] == 't',
        "insert-at-line-start"@.len() == 20 && "insert-at-line-start"@[0] == 'i',
        "insert-after"@.len() == 12 && "insert-after"@[3] == 'e' && "insert-after"@[7] == 'a',
        "insert-before"@.len() == 13 && "insert-before"@[0] == 'i' && "insert-before"@[2] == 's',
        "collapse-and-exit-extend"@.len() == 24 && "collapse-and-exit-extend"@[0] == 'c',
        "toggle-extend"@.len() == 13 && "toggle-extend"@[0] == 't' && "toggle-extend"@[2] == 'g',
        "redo"@.len() == 4 && "redo"@[0] == 'r',
        "undo"@.len() == 4 && "undo"@[0] == 'u',
        "paste-before"@.len() == 12 && "paste-before"@[3] == 't' && "paste-before"@[7] == 'e',
        "paste-after"@.len() == 11 && "paste-after"@[0] == 'p' && "paste-after"@[7] == 'f',
        "yank"@.len() == 4 && "yank"@[0] == 'y',
        "change"@.len() == 6 && "change"@[0] == 'c',
        "delete"@.len() == 6 && "delete"@[0] == 'd',
        "replace"@.len() == 7 && "replace"@[0] == 'r',
        "repeat-find-backward"@.len() == 20 && "repeat-find-backward"@[0] == 'r',
        "repeat-find-forward"@.len() == 19 && "repeat-find-forward"@[7] == 'f',
        "till-backward"@.len() == 13 && "till-backward"@[0] == 't' && "till-backward"@[2] == 'l',
        "till-forward"@.len() == 12 && "till-forward"@[3] == 'l' && "till-forward"@[7] == 'r',
        "find-backward"@.len() == 13 && "find-backward"@[0] == 'f' && "find-backward"@[2] == 'n',
        "find-forward"@.len() == 12 && "find-forward"@[3] == 'd' && "find-forward"@[7] == 'r',
        "repeat-last-action"@.len() == 18 && "repeat-last-action"@[8] == 'a',
        "half-page-up"@.len() == 12 && "half-page-up"@[3] == 'f' && "half-page-up"@[7] == 'g',
        "half-page-down"@.len() == 14 && "half-page-down"@[0] == 'h' && "half-page-down"@[9] == '-',
        "page-up"@.len() == 7 && "page-up"@[0] == 'p',
        "page-down"@.len() == 9 && "page-down"@[0] == 'p' && "page-down"@[5] == 'd',
        "force-quit"@.len() == 10 && "force-quit"@[0] == 'f' && "force-quit"@[6] == 'q',
        "jump-forward"@.len() == 12 && "jump-forward"@[3] == 'p' && "jump-forward"@[7] == 'r',
        "jump-backward"@.len() == 13 && "jump-backward"@[0] == 'j' && "jump-backward"@[2] == 'm',
        "use-selection-as-search"@.len() == 23 && "use-selection-as-search"@[0] == 'u',
        "select-all-matches"@.len() == 18 && "select-all-matches"@[8] == 'l',
        "select-within"@.len() == 13 && "select-within"@[0] == 's' && "select-within"@[2] == 'l',
        "clear-search"@.len() == 12 && "clear-search"@[3] == 'a' && "clear-search"@[7] == 'e',
        "search-prev"@.len() == 11 && "search-prev"@[0] == 's' && "search-prev"@[7] == 'p',
        "search-next"@.len() == 11 && "search-next"@[0] == 's' && "search-next"@[7] == 'n',
        "search-backward"@.len() == 15 && "search-backward"@[0] == 's' && "search-backward"@[10] == 'k',
        "search-forward"@.len() == 14 && "search-forward"@[0] == 's' && "search-forward"@[9] == 'r',
        "set"@.len() == 3,
        "toggle-soft-wrap"@.len() == 16 && "toggle-soft-wrap"@[9] == 'f' && "toggle-soft-wrap"@[12] == 'w',
        "write-quit"@.len() == 10 && "write-quit"@[0] == 'w' && "write-quit"@[6] == 'q',
        "write"@.len() == 5,
        "quit"@.len() == 4 && "quit"@[0] == 'q',
{
    reveal_strlit("prev-paragraph");
    reveal_strlit("next-paragraph");
    reveal_strlit("select-prev-WORD");
    reveal_strlit("select-prev-word");
    reveal_strlit("select-next-WORD");
    reveal_strlit("select-next-word");
    reveal_strlit("goto-first-nonblank");
    reveal_strlit("goto-line-end");
    reveal_strlit("goto-line-start");
    reveal_strlit("goto-last-line");
    reveal_strlit("goto-first-line");
    reveal_strlit("move-up");
    reveal_strlit("move-down");
    reveal_strlit("move-left");
    reveal_strlit("move-right");
    reveal_strlit("copy-selection-on-prev-line");
    reveal_strlit("copy-selection-on-next-line");
    reveal_strlit("trim-selection-whitespace");
    reveal_strlit("split-selection-on-newlines");
    reveal_strlit("cycle-primary-backward");
    reveal_strlit("cycle-primary-forward");
    reveal_strlit("remove-primary-selection");
    reveal_strlit("select-all");
    reveal_strlit("keep-primary-selection");
    reveal_strlit("flip-selections");
    reveal_strlit("collapse-selection");
    reveal_strlit("select-line-backward");
    reveal_strlit("select-line");
    reveal_strlit("around-argument");
    reveal_strlit("inner-argument");
    reveal_strlit("around-WORD");
    reveal_strlit("inner-WORD");
    reveal_strlit("around-word");
    reveal_strlit("inner-word");
    reveal_strlit("around-line");
    reveal_strlit("inner-line");
    reveal_strlit("around-backtick");
    reveal_strlit("inner-backtick");
    reveal_strlit("around-single-quote");
    reveal_strlit("inner-single-quote");
    reveal_strlit("around-double-quote");
    reveal_strlit("inner-double-quote");
    reveal_strlit("around-angle");
    reveal_strlit("inner-angle");
    reveal_strlit("around-brace");
    reveal_strlit("inner-brace");
    reveal_strlit("around-bracket");
    reveal_strlit("inner-bracket");
    reveal_strlit("around-paren");
    reveal_strlit("inner-paren");
    reveal_strlit("surround-backtick");
    reveal_strlit("surround-single-quote");
    reveal_strlit("surround-double-quote");
    reveal_strlit("surround-angle");
    reveal_strlit("surround-brace");
    reveal_strlit("surround-bracket");
    reveal_strlit("surround-paren");
    reveal_strlit("delete-selection");
    reveal_strlit("delete-char-backward");
    reveal_strlit("delete-char-forward");
    reveal_strlit("exit-insert");
    reveal_strlit("command-mode");
    reveal_strlit("open-line-above");
    reveal_strlit("open-line-below");
    reveal_strlit("insert-at-selection-end");
    reveal_strlit("insert-at-selection-start");
    reveal_strlit("insert-at-line-end");
    reveal_strlit("insert-at-line-start");
    reveal_strlit("insert-after");
    reveal_strlit("insert-before");
    reveal_strlit("collapse-and-exit-extend");
    reveal_strlit("toggle-extend");
    reveal_strlit("redo");
    reveal_strlit("undo");
    reveal_strlit("paste-before");
    reveal_strlit("paste-after");
    reveal_strlit("yank");
    reveal_strlit("change");
    reveal_strlit("delete");
    reveal_strlit("replace");
    reveal_strlit("repeat-find-backward");
    reveal_strlit("repeat-find-forward");
    reveal_strlit("till-backward");
    reveal_strlit("till-forward");
    reveal_strlit("find-backward");
    reveal_strlit("find-forward");
    reveal_strlit("repeat-last-action");
    reveal_strlit("half-page-up");
    reveal_strlit("half-page-down");
    reveal_strlit("page-up");
    reveal_strlit("page-down");
    reveal_strlit("force-quit");
    reveal_strlit("jump-forward");
    reveal_strlit("jump-backward");
    reveal_strlit("use-selection-as-search");
    reveal_strlit("select-all-matches");
    reveal_strlit("select-within");
    reveal_strlit("clear-search");
    reveal_strlit("search-prev");
    reveal_strlit("search-next");
    reveal_strlit("search-backward");
    reveal_strlit("search-forward");
    reveal_strlit("set");
    reveal_strlit("toggle-soft-wrap");
    reveal_strlit("write-quit");
    reveal_strlit("write");
    reveal_strlit("quit");
}

} // verus!

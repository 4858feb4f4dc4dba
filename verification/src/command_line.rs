//! Commands typed into the input line.

use crate::dispatch::Mode;
use crate::keys::KeyEvent;
use crate::message_log::Severity;
use crate::messages::Messages;
use crate::minibuf::{LineEvent, MiniBufferEvent};
use crate::modes::{Modal, ModalV};
use crate::paths::Separators;
use crate::registry::CommandRegistry;
use crate::strings::{
    byte_len, chars_of, concat2, find_char, first_index, lemma_first_index, string_of_range,
    trim_range, trimmed,
};
use vstd::prelude::*;
use vstd::string::*;

verus! {

/// A command line taken apart: the command, whether it was forced by an exclamation mark,
/// and its argument.
pub struct Parsed {
    pub command: Seq<char>,
    pub force: bool,
    pub arg: Option<Seq<char>>,
}

/// `cmd` without a final exclamation mark, and whether there was one.
pub open spec fn unforced(cmd: Seq<char>) -> (Seq<char>, bool) {
    if cmd.len() > 0 && cmd.last() == '!' {
        (cmd.drop_last(), true)
    } else {
        (cmd, false)
    }
}

/// Takes a command line apart. The argument begins behind the first space.
pub open spec fn parsed(line: Seq<char>) -> Parsed {
    let s = trimmed(line);
    let i = first_index(s, ' ');
    let (word, arg) = if i >= 0 {
        (s.take(i), Some(trimmed(s.skip(i + 1))))
    } else {
        (s, None)
    };
    Parsed { command: unforced(word).0, force: unforced(word).1, arg }
}

/// A command line taken apart.
#[derive(Debug)]
pub struct TypedLine {
    pub command: String,
    pub force: bool,
    pub arg: Option<String>,
}

impl View for TypedLine {
    type V = Parsed;

    open spec fn view(&self) -> Parsed {
        Parsed {
            command: self.command@,
            force: self.force,
            arg: match self.arg {
                Some(a) => Some(a@),
                None => None,
            },
        }
    }
}

/// Takes a command line apart; see [`parsed`].
pub fn parse_typed_command(line: &str) -> (r: TypedLine)
    ensures
        r@ == parsed(line@),
{
    let all = chars_of(line);
    let n = all.len();
    assert(all@.subrange(0, n as int) =~= all@);
    let (from, to) = trim_range(&all, 0, n);
    let trimmed_line = string_of_range(&all, from, to);
    let chars = chars_of(trimmed_line.as_str());
    let ghost s = trimmed(line@);
    assert(chars@ =~= s);
    let len = chars.len();
    proof {
        lemma_first_index(s, ' ');
    }
    let (word_end, arg): (usize, Option<String>) = match find_char(&chars, ' ') {
        Some(i) => {
            let (a, b) = trim_range(&chars, i + 1, len);
            assert(s.skip(i + 1) =~= s.subrange(i + 1, len as int));
            let arg = string_of_range(&chars, a, b);
            assert(arg@ =~= trimmed(s.skip(i + 1)));
            (i, Some(arg))
        },
        None => (len, None),
    };
    let ghost word = s.take(word_end as int);
    if word_end > 0 && chars[word_end - 1] == '!' {
        let command = string_of_range(&chars, 0, word_end - 1);
        assert(command@ =~= word.drop_last());
        assert(s.take(len as int) =~= s);
        TypedLine { command, force: true, arg }
    } else {
        let command = string_of_range(&chars, 0, word_end);
        assert(command@ =~= word);
        assert(s.take(len as int) =~= s);
        TypedLine { command, force: false, arg }
    }
}

/// What a command line asks for.
#[derive(Debug)]
pub enum LineAction {
    /// Run a typed command, by its full name.
    Typed { name: String, force: bool, arg: Option<String> },
    /// Run a mappable command once.
    Mappable { name: String },
    /// No command is called that.
    Unknown { name: String },
}

/// What a command line asks for, as a value.
pub enum Asked {
    Typed(Seq<char>, bool, Option<Seq<char>>),
    Mappable(Seq<char>),
    Unknown(Seq<char>),
}

impl View for LineAction {
    type V = Asked;

    open spec fn view(&self) -> Asked {
        match self {
            LineAction::Typed { name, force, arg } => Asked::Typed(
                name@,
                *force,
                match arg {
                    Some(a) => Some(a@),
                    None => None,
                },
            ),
            LineAction::Mappable { name } => Asked::Mappable(name@),
            LineAction::Unknown { name } => Asked::Unknown(name@),
        }
    }
}

/// What a command line asks for. Typed commands come first, by their name or a short
/// form.
pub open spec fn asked(registry: CommandRegistry, line: Seq<char>) -> Asked {
    let p = parsed(line);
    match registry.typed(p.command) {
        Some(t) => Asked::Typed(t.name, p.force, p.arg),
        None => if registry.mappable(p.command) is Some {
            Asked::Mappable(p.command)
        } else {
            Asked::Unknown(p.command)
        },
    }
}

/// Finds what a command line asks for; see [`asked`]. An unknown command gives a warning.
pub fn execute_command(registry: &CommandRegistry, messages: &mut Messages, line: &str) -> (r:
    LineAction)
    ensures
        r@ == asked(*registry, line@),
        final(messages)@ == (match asked(*registry, line@) {
            Asked::Unknown(c) => old(messages)@.reported(
                Severity::Warning,
                "Unknown command: "@ + c,
            ),
            _ => old(messages)@,
        }),
{
    let typed_line = parse_typed_command(line);
    match registry.get_typed(typed_line.command.as_str()) {
        Some(t) => LineAction::Typed {
            name: t.name.clone(),
            force: typed_line.force,
            arg: typed_line.arg,
        },
        None => {
            if registry.get_mappable(typed_line.command.as_str()).is_some() {
                LineAction::Mappable { name: typed_line.command }
            } else {
                messages.report(
                    Severity::Warning,
                    concat2("Unknown command: ", typed_line.command.as_str()),
                );
                LineAction::Unknown { name: typed_line.command }
            }
        },
    }
}

/// Finds the typed command that a text asks for, its own argument first and `extra` else;
/// `None` where there is no such command.
pub fn execute_typed(registry: &CommandRegistry, line: &str, extra: Option<String>) -> (r: Option<
    TypedLine,
>)
    ensures
        match registry.typed(parsed(line@).command) {
            Some(t) => r is Some && r->0@ == (Parsed {
                command: t.name,
                force: parsed(line@).force,
                arg: match parsed(line@).arg {
                    Some(a) => Some(a),
                    None => match extra {
                        Some(e) => Some(e@),
                        None => None,
                    },
                },
            }),
            None => r is None,
        },
{
    let typed_line = parse_typed_command(line);
    match registry.get_typed(typed_line.command.as_str()) {
        Some(t) => {
            let arg = match typed_line.arg {
                Some(a) => Some(a),
                None => extra,
            };
            Some(TypedLine { command: t.name.clone(), force: typed_line.force, arg })
        },
        None => None,
    }
}

/// What a key in the command line leads to.
#[derive(Debug)]
pub enum CommandKey {
    /// The line goes on.
    Open,
    /// The line was closed.
    Closed,
    /// The line is to be run; it stays open until [`finish_command_line`].
    Run { line: String },
}

/// Handles a key in command mode. Escape, and backspace on an empty line, close the line.
pub fn handle_command(modal: &mut Modal, key: KeyEvent, separators: Separators) -> (r: CommandKey)
    requires
        old(modal).wf(),
        old(modal).minibuf matches Some(mb) ==> byte_len(mb.input@) + 4 <= usize::MAX,
    ensures
        final(modal).wf(),
        match old(modal)@.line {
            Some(line) => {
                let typed = ModalV { line: Some(line.pressed(key, separators).0), ..old(modal)@ };
                match line.pressed(key, separators).1 {
                    LineEvent::Cancel | LineEvent::EmptiedByBackspace
                    | LineEvent::BackspaceOnEmpty => {
                        &&& r is Closed
                        &&& final(modal)@ == typed.entering(Mode::Normal).closed()
                    },
                    LineEvent::Confirm(_) | LineEvent::ConfirmEmpty => {
                        &&& r is Run
                        &&& r->line@ == line.pressed(key, separators).0.text()
                        &&& final(modal)@ == typed
                    },
                    _ => r is Open && final(modal)@ == typed,
                }
            },
            None => r is Open && *final(modal) == *old(modal),
        },
{
    let mut mb = match modal.minibuf.take() {
        Some(mb) => mb,
        None => {
            return CommandKey::Open;
        },
    };
    let event = mb.handle_key(key, separators);
    let line = mb.input.clone();
    modal.minibuf = Some(mb);
    match event {
        MiniBufferEvent::Cancel | MiniBufferEvent::EmptiedByBackspace
        | MiniBufferEvent::BackspaceOnEmpty => {
            modal.set_mode(Mode::Normal);
            modal.close_minibuf();
            CommandKey::Closed
        },
        MiniBufferEvent::Confirm(_) | MiniBufferEvent::ConfirmEmpty => CommandKey::Run { line },
        _ => CommandKey::Open,
    }
}

/// Leaves command mode once the line was run.
pub fn finish_command_line(modal: &mut Modal)
    ensures
        final(modal)@ == old(modal)@.entering(Mode::Normal).closed(),
        final(modal).wf(),
{
    modal.set_mode(Mode::Normal);
    modal.close_minibuf();
}

/// The words of a command line. Its command ends at the first space, what stands behind
/// that is its argument, and white space around either does not count.
pub proof fn law_words_of_a_line(word: Seq<char>, arg: Seq<char>)
    requires
        word.len() > 0,
        forall|i: int| 0 <= i < word.len() ==> word[i] != ' ',
        trimmed(word + seq![' '] + arg) == word + seq![' '] + arg,
        trimmed(word) == word,
    ensures
        parsed(word + seq![' '] + arg).arg == Some(trimmed(arg)),
        parsed(word).arg is None,
        parsed(word).command == parsed(word + seq![' '] + arg).command,
        parsed(word).force == parsed(word + seq![' '] + arg).force,
        word.last() != '!' ==> parsed(word).command == word && !parsed(word).force,
{
    let s = word + seq![' '] + arg;
    lemma_first_index(s, ' ');
    lemma_first_index(word, ' ');
    assert(s[word.len() as int] == ' ');
    assert(first_index(s, ' ') == word.len());
    assert(s.take(word.len() as int) =~= word);
    assert(s.skip(word.len() as int + 1) =~= arg);
}

/// One exclamation mark at the end of the command, and none elsewhere, makes it forced.
pub proof fn law_exclamation_mark_forces(word: Seq<char>)
    requires
        forall|i: int| 0 <= i < word.len() ==> word[i] != ' ',
        trimmed(word + seq!['!']) == word + seq!['!'],
    ensures
        parsed(word + seq!['!']).command == word,
        parsed(word + seq!['!']).force,
        parsed(word + seq!['!']).arg is None,
{
    let s = word + seq!['!'];
    lemma_first_index(s, ' ');
    assert(s.drop_last() =~= word);
}

/// Only the text inside the white space of a line counts.
pub proof fn law_white_space_around_a_line(line: Seq<char>, other: Seq<char>)
    requires
        trimmed(line) == trimmed(other),
    ensures
        parsed(line) == parsed(other),
{
}

/// A typed command is run under its full name whatever it was called by, with what the
/// line says. Where none has that name a mappable command may, and a line that names
/// neither is unknown by the word that was typed.
pub proof fn law_typed_commands_come_first(registry: CommandRegistry, line: Seq<char>)
    ensures
        match asked(registry, line) {
            Asked::Typed(name, force, arg) => {
                &&& registry.typed(parsed(line).command) is Some
                &&& name == (registry.typed(parsed(line).command)->0).name
                &&& force == parsed(line).force
                &&& arg == parsed(line).arg
            },
            Asked::Mappable(name) => {
                &&& name == parsed(line).command
                &&& registry.typed(name) is None
                &&& registry.mappable(name) is Some
            },
            Asked::Unknown(name) => {
                &&& name == parsed(line).command
                &&& registry.typed(name) is None
                &&& registry.mappable(name) is None
            },
        },
{
}

} // verus!

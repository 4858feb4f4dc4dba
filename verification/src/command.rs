//! Commands as the registry knows them: their names, and what dispatching them involves.

use vstd::prelude::*;
use vstd::string::*;

verus! {

/// A command that a key can be bound to.
#[derive(Debug)]
pub enum MappableCommand {
    /// Moves the selections, as often as the count says.
    Motion {
        name: String,
        doc: String,
        /// Always leaves an entry in the jump list.
        jump: bool,
    },
    /// Changes the selections, without a count.
    Selection { name: String, doc: String },
    /// Changes the text.
    Edit {
        name: String,
        doc: String,
        /// Done again by the repeat command.
        repeatable: bool,
    },
    /// Works on the editor as a whole.
    EditorCmd {
        name: String,
        doc: String,
        repeatable: bool,
        jump: bool,
        /// Moves by visual lines, which keeps the preferred column.
        visual_move: bool,
        /// Has a form that extends the selection.
        extendable: bool,
    },
    /// A procedure of a script.
    SteelBacked {
        name: String,
        doc: String,
        steel_proc: String,
        extendable: bool,
        arity: u16,
        is_variadic: bool,
        inline_output: bool,
    },
    /// Stands for a command of a plugin that is not loaded yet.
    Lazy { name: String, plugin: String },
}

/// A mappable command as a value.
pub enum Cmd {
    Motion { name: Seq<char>, doc: Seq<char>, jump: bool },
    Selection { name: Seq<char>, doc: Seq<char> },
    Edit { name: Seq<char>, doc: Seq<char>, repeatable: bool },
    EditorCmd {
        name: Seq<char>,
        doc: Seq<char>,
        repeatable: bool,
        jump: bool,
        visual_move: bool,
        extendable: bool,
    },
    SteelBacked {
        name: Seq<char>,
        doc: Seq<char>,
        steel_proc: Seq<char>,
        extendable: bool,
        arity: u16,
        is_variadic: bool,
        inline_output: bool,
    },
    Lazy { name: Seq<char>, plugin: Seq<char> },
}

impl View for MappableCommand {
    type V = Cmd;

    open spec fn view(&self) -> Cmd {
        match self {
            MappableCommand::Motion { name, doc, jump } => Cmd::Motion {
                name: name@,
                doc: doc@,
                jump: *jump,
            },
            MappableCommand::Selection { name, doc } => Cmd::Selection { name: name@, doc: doc@ },
            MappableCommand::Edit { name, doc, repeatable } => Cmd::Edit {
                name: name@,
                doc: doc@,
                repeatable: *repeatable,
            },
            MappableCommand::EditorCmd {
                name,
                doc,
                repeatable,
                jump,
                visual_move,
                extendable,
            } => Cmd::EditorCmd {
                name: name@,
                doc: doc@,
                repeatable: *repeatable,
                jump: *jump,
                visual_move: *visual_move,
                extendable: *extendable,
            },
            MappableCommand::SteelBacked {
                name,
                doc,
                steel_proc,
                extendable,
                arity,
                is_variadic,
                inline_output,
            } => Cmd::SteelBacked {
                name: name@,
                doc: doc@,
                steel_proc: steel_proc@,
                extendable: *extendable,
                arity: *arity,
                is_variadic: *is_variadic,
                inline_output: *inline_output,
            },
            MappableCommand::Lazy { name, plugin } => Cmd::Lazy { name: name@, plugin: plugin@ },
        }
    }
}

impl Cmd {
    pub open spec fn name(self) -> Seq<char> {
        match self {
            Cmd::Motion { name, .. } => name,
            Cmd::Selection { name, .. } => name,
            Cmd::Edit { name, .. } => name,
            Cmd::EditorCmd { name, .. } => name,
            Cmd::SteelBacked { name, .. } => name,
            Cmd::Lazy { name, .. } => name,
        }
    }

    pub open spec fn doc(self) -> Seq<char> {
        match self {
            Cmd::Motion { doc, .. } => doc,
            Cmd::Selection { doc, .. } => doc,
            Cmd::Edit { doc, .. } => doc,
            Cmd::EditorCmd { doc, .. } => doc,
            Cmd::SteelBacked { doc, .. } => doc,
            Cmd::Lazy { .. } => ""@,
        }
    }

    /// The repeat command does it again.
    pub open spec fn repeatable(self) -> bool {
        match self {
            Cmd::Edit { repeatable, .. } => repeatable,
            Cmd::EditorCmd { repeatable, .. } => repeatable,
            _ => false,
        }
    }

    /// It always leaves an entry in the jump list.
    pub open spec fn jump(self) -> bool {
        match self {
            Cmd::Motion { jump, .. } => jump,
            Cmd::EditorCmd { jump, .. } => jump,
            _ => false,
        }
    }

    /// It moves by visual lines.
    pub open spec fn visual_move(self) -> bool {
        match self {
            Cmd::EditorCmd { visual_move, .. } => visual_move,
            _ => false,
        }
    }

    /// It has a form that extends the selection.
    pub open spec fn extendable(self) -> bool {
        match self {
            Cmd::Motion { .. } => true,
            Cmd::Selection { .. } => true,
            Cmd::EditorCmd { extendable, .. } => extendable,
            Cmd::SteelBacked { extendable, .. } => extendable,
            _ => false,
        }
    }

    /// It needs no script to run.
    pub open spec fn native(self) -> bool {
        !(self is SteelBacked) && !(self is Lazy)
    }
}

impl MappableCommand {
    pub fn name(&self) -> (r: &str)
        ensures
            r@ == self@.name(),
    {
        match self {
            MappableCommand::Motion { name, .. } => name.as_str(),
            MappableCommand::Selection { name, .. } => name.as_str(),
            MappableCommand::Edit { name, .. } => name.as_str(),
            MappableCommand::EditorCmd { name, .. } => name.as_str(),
            MappableCommand::SteelBacked { name, .. } => name.as_str(),
            MappableCommand::Lazy { name, .. } => name.as_str(),
        }
    }

    /// What the command does, in one line.
    pub fn doc(&self) -> (r: &str)
        ensures
            r@ == self@.doc(),
    {
        match self {
            MappableCommand::Motion { doc, .. } => doc.as_str(),
            MappableCommand::Selection { doc, .. } => doc.as_str(),
            MappableCommand::Edit { doc, .. } => doc.as_str(),
            MappableCommand::EditorCmd { doc, .. } => doc.as_str(),
            MappableCommand::SteelBacked { doc, .. } => doc.as_str(),
            MappableCommand::Lazy { .. } => "",
        }
    }

    pub fn is_repeatable(&self) -> (r: bool)
        ensures
            r == self@.repeatable(),
    {
        match self {
            MappableCommand::Edit { repeatable, .. } => *repeatable,
            MappableCommand::EditorCmd { repeatable, .. } => *repeatable,
            _ => false,
        }
    }

    pub fn is_jump(&self) -> (r: bool)
        ensures
            r == self@.jump(),
    {
        match self {
            MappableCommand::Motion { jump, .. } => *jump,
            MappableCommand::EditorCmd { jump, .. } => *jump,
            _ => false,
        }
    }

    pub fn is_visual_move(&self) -> (r: bool)
        ensures
            r == self@.visual_move(),
    {
        match self {
            MappableCommand::EditorCmd { visual_move, .. } => *visual_move,
            _ => false,
        }
    }

    pub fn is_extendable(&self) -> (r: bool)
        ensures
            r == self@.extendable(),
    {
        match self {
            MappableCommand::Motion { .. } => true,
            MappableCommand::Selection { .. } => true,
            MappableCommand::EditorCmd { extendable, .. } => *extendable,
            MappableCommand::SteelBacked { extendable, .. } => *extendable,
            _ => false,
        }
    }
}

/// A command of the command line, with short forms of its name.
#[derive(Debug)]
pub struct TypedCommand {
    pub name: String,
    pub doc: String,
    pub aliases: Vec<String>,
}

/// A typed command as a value.
pub struct Typed {
    pub name: Seq<char>,
    pub doc: Seq<char>,
    pub aliases: Seq<Seq<char>>,
}

impl View for TypedCommand {
    type V = Typed;

    open spec fn view(&self) -> Typed {
        Typed {
            name: self.name@,
            doc: self.doc@,
            aliases: self.aliases@.map_values(|a: String| a@),
        }
    }
}

/// A command of either kind. Both share one name space.
#[derive(Debug)]
pub enum Command {
    Mappable(MappableCommand),
    Typed(TypedCommand),
}

/// A command of either kind, as a value.
pub enum Entry {
    Mappable(Cmd),
    Typed(Typed),
}

impl View for Command {
    type V = Entry;

    open spec fn view(&self) -> Entry {
        match self {
            Command::Mappable(c) => Entry::Mappable(c@),
            Command::Typed(t) => Entry::Typed(t@),
        }
    }
}

/// Motions and selections can always extend, and are never repeated. Edits never extend.
/// What scripts define is not repeated, and no command of theirs moves by visual lines.
pub proof fn law_kinds(c: Cmd)
    ensures
        c is Motion || c is Selection ==> c.extendable() && !c.repeatable(),
        c is Edit ==> !c.extendable() && !c.jump(),
        !c.native() ==> !c.repeatable() && !c.jump() && !c.visual_move(),
        c.visual_move() ==> c is EditorCmd,
{
}

} // verus!

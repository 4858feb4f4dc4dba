//! Registers with the clipboard behind one of them.

use crate::registers::{copy_texts, texts, Held, RegisterSet, CLIPBOARD_REGISTER};
use crate::strings::{concat3, join_strings, joined_with};
use vstd::prelude::*;
use vstd::string::*;

verus! {

/// The warning when the system clipboard cannot be used.
pub open spec fn clipboard_warning(err: Seq<char>) -> Seq<char> {
    "system clipboard unavailable ("@ + err + "), using in-memory 'c'"@
}

pub fn clipboard_warn(err: &str) -> (r: String)
    ensures
        r@ == clipboard_warning(err@),
{
    concat3("system clipboard unavailable (", err, "), using in-memory 'c'")
}

/// All texts in a row, with a line feed between two.
pub open spec fn lines_joined(v: Seq<Seq<char>>) -> Seq<char> {
    joined_with(v, "\n"@)
}

/// What goes to the system clipboard for `values`.
pub fn clipboard_blob(values: &Vec<String>) -> (r: String)
    ensures
        r@ == lines_joined(texts(values@)),
{
    assert(texts(values@) =~= values@.map_values(|s: String| s@));
    join_strings(values, "\n")
}

/// What a read of the register `name` gives. For the clipboard register that is what the
/// system clipboard held (`clip`); where it could not be read, what was last written to
/// the register.
pub open spec fn register_text(
    registers: RegisterSet,
    clip: Result<String, String>,
    name: char,
) -> Option<Seq<Seq<char>>> {
    if name == CLIPBOARD_REGISTER && clip is Ok {
        Some(seq![clip->Ok_0@])
    } else {
        registers.text(name)
    }
}

/// The warning that comes with a read of the register `name`.
pub open spec fn read_warning(clip: Result<String, String>, name: char) -> Option<Seq<char>> {
    if name == CLIPBOARD_REGISTER && clip is Err {
        Some(clipboard_warning(clip->Err_0@))
    } else {
        None
    }
}

/// A list of strings that may be missing, as a value.
pub open spec fn some_texts(v: Option<Vec<String>>) -> Option<Seq<Seq<char>>> {
    match v {
        Some(v) => Some(texts(v@)),
        None => None,
    }
}

/// A string that may be missing, as a value.
pub open spec fn some_text(s: Option<String>) -> Option<Seq<char>> {
    match s {
        Some(s) => Some(s@),
        None => None,
    }
}

/// Reads the register `name`; see [`register_text`] and [`read_warning`].
pub fn read_register_text(
    registers: &RegisterSet,
    clip: &Result<String, String>,
    name: char,
) -> (r: (Option<Vec<String>>, Option<String>))
    ensures
        some_texts(r.0) == register_text(*registers, *clip, name),
        some_text(r.1) == read_warning(*clip, name),
{
    if name == CLIPBOARD_REGISTER {
        match clip {
            Ok(text) => {
                let mut v: Vec<String> = Vec::new();
                v.push(text.clone());
                assert(texts(v@) =~= seq![text@]);
                (Some(v), None)
            },
            Err(e) => {
                let warning = clipboard_warn(e.as_str());
                match registers.read_text(name) {
                    Some(v) => (Some(copy_texts(v)), Some(warning)),
                    None => (None, Some(warning)),
                }
            },
        }
    } else {
        match registers.read_text(name) {
            Some(v) => (Some(copy_texts(v)), None),
            None => (None, None),
        }
    }
}

/// Writes `values` to the register `name`. For the clipboard register, `clip` is what
/// came of writing [`clipboard_blob`] to the system clipboard; where that failed there is
/// a warning. The register itself is written in any case.
pub fn write_register(
    registers: &mut RegisterSet,
    clip: &Result<(), String>,
    name: char,
    values: Vec<String>,
) -> (r: Option<String>)
    ensures
        forall|c: char| #[trigger]
            final(registers).held(c) == (if c == name {
                Some(Held::Text(texts(values@)))
            } else {
                old(registers).held(c)
            }),
        match r {
            Some(w) => name == CLIPBOARD_REGISTER && clip is Err && w@ == clipboard_warning(
                clip->Err_0@,
            ),
            None => name != CLIPBOARD_REGISTER || clip is Ok,
        },
{
    if name == CLIPBOARD_REGISTER {
        let warning = match clip {
            Ok(_) => None,
            Err(e) => Some(clipboard_warn(e.as_str())),
        };
        registers.write_text(CLIPBOARD_REGISTER, values);
        warning
    } else {
        registers.write_text(name, values);
        None
    }
}

/// Writes `values` to the clipboard register; see [`write_register`].
pub fn write_clipboard(
    registers: &mut RegisterSet,
    clip: &Result<(), String>,
    values: &Vec<String>,
) -> (r: Option<String>)
    ensures
        forall|c: char| #[trigger]
            final(registers).held(c) == (if c == CLIPBOARD_REGISTER {
                Some(Held::Text(texts(values@)))
            } else {
                old(registers).held(c)
            }),
        match r {
            Some(w) => clip is Err && w@ == clipboard_warning(clip->Err_0@),
            None => clip is Ok,
        },
{
    write_register(registers, clip, CLIPBOARD_REGISTER, copy_texts(values))
}

/// What was written to a register is read back from it. For the clipboard register that
/// holds as long as the system clipboard cannot be read, or still holds what was written
/// to it: that is one text, which for a single value is the value itself.
pub proof fn law_register_read_back(
    before: RegisterSet,
    after: RegisterSet,
    name: char,
    values: Seq<Seq<char>>,
    clip: Result<String, String>,
)
    requires
        forall|c: char| #[trigger]
            after.held(c) == (if c == name {
                Some(Held::Text(values))
            } else {
                before.held(c)
            }),
        clip matches Ok(t) ==> t@ == lines_joined(values),
    ensures
        name != CLIPBOARD_REGISTER || clip is Err || values.len() == 1 ==> register_text(
            after,
            clip,
            name,
        ) == Some(values),
        name == CLIPBOARD_REGISTER && clip is Ok ==> register_text(after, clip, name) == Some(
            seq![lines_joined(values)],
        ),
        forall|c: char| c != name && c != CLIPBOARD_REGISTER ==> #[trigger] register_text(
            after,
            clip,
            c,
        ) == register_text(before, clip, c),
{
    if values.len() == 1 {
        assert(seq![lines_joined(values)] =~= values);
    }
    assert forall|c: char| c != name && c != CLIPBOARD_REGISTER implies #[trigger] register_text(
        after,
        clip,
        c,
    ) == register_text(before, clip, c) by {
        assert(after.held(c) == before.held(c));
    }
}

/// Several texts go to the clipboard as one, with a line feed between two and none behind the
/// last.
pub proof fn law_clipboard_holds_lines(a: Seq<char>, b: Seq<char>, more: Seq<Seq<char>>)
    ensures
        lines_joined(seq![a]) == a,
        lines_joined(seq![a, b]) == a + seq!['\n'] + b,
        more.len() > 0 ==> lines_joined(more.push(a)) == lines_joined(more) + seq!['\n'] + a,
{
    reveal_strlit("\n");
    assert("\n"@ =~= seq!['\n']);
    crate::strings::law_parts_are_joined(seq![a], b, "\n"@);
    assert(seq![a].push(b) =~= seq![a, b]);
    if more.len() > 0 {
        crate::strings::law_parts_are_joined(more, a, "\n"@);
    }
}

/// The clipboard register reads what the clipboard holds; only where that cannot be read does it
/// read what was written to it, with a warning. No other register asks the clipboard.
pub proof fn law_clipboard_register(r: RegisterSet, t: String, e: String, name: char)
    requires
        name != 'c',
    ensures
        register_text(r, Ok(t), 'c') == Some(seq![t@]),
        register_text(r, Err(e), 'c') == r.text('c'),
        register_text(r, Ok(t), name) == r.text(name),
        read_warning(Ok(t), 'c') is None,
        read_warning(Err(e), 'c') is Some,
        read_warning(Err(e), name) is None,
{
}

} // verus!

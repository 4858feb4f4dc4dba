//! Typed commands that show something: messages, buffers, plugins, themes; and settings.

use crate::buffer::{Buffer, SCRATCH_BUFFER_NAME};
use crate::buffer_store::{last_other, BufferId, BufferStore};
use crate::message_log::{display, Severity};
use crate::messages::{fails, CommandError, Messages, Shown};
use crate::ops::Workspace;
use crate::strings::{
    chars_of, concat2, concat3, decimal, decimal_string, find_char, first_index, join_strings,
    joined_with, lemma_first_index, last_index, lemma_last_index, rfind_char, str_eq, string_of,
    string_of_range, trimmed, trimmed_arg,
};
use crate::text::newlines;
use vstd::prelude::*;
use vstd::string::*;

verus! {

/// A view to be opened: its name, what it shows, and the line that the cursor is put on.
pub struct ViewRequest {
    pub label: &'static str,
    pub content: String,
    pub line: usize,
}

/// The number of line feeds in a text.
fn count_lines(s: &str) -> (r: usize)
    ensures
        r == newlines(s@),
{
    let chars = chars_of(s);
    let n = chars.len();
    let mut lines: usize = 0;
    let mut i: usize = 0;
    assert(chars@.take(0) =~= Seq::empty());
    while i < n
        invariant
            i <= n == chars@.len(),
            lines <= i,
            lines == newlines(chars@.take(i as int)),
        decreases n - i,
    {
        assert(chars@.take(i + 1).drop_last() =~= chars@.take(i as int));
        if chars[i] == '\n' {
            lines = lines + 1;
        }
        i = i + 1;
    }
    assert(chars@.take(n as int) =~= chars@);
    lines
}

/// Shows the log, with the cursor on its last line. It counts as reviewed. An empty log
/// only gives a message.
pub fn typed_messages(messages: &mut Messages) -> (r: Option<ViewRequest>)
    ensures
        ({
            let content = display(old(messages)@.entries);
            if content.len() == 0 {
                &&& r is None
                &&& final(messages)@ == old(messages)@.reported(Severity::Info, "No messages"@)
            } else {
                &&& r is Some
                &&& r->0.label@ == "[messages]"@
                &&& r->0.content@ == content
                &&& r->0.line == (if newlines(content) > 0 {
                    newlines(content) - 1
                } else {
                    0
                })
                &&& final(messages)@ == (Shown {
                    seen: old(messages)@.entries.len(),
                    ..old(messages)@
                })
            }
        }),
{
    let content = messages.log.format_for_display();
    if content.as_str().is_empty() {
        messages.report(Severity::Info, "No messages".to_owned());
        return None;
    }
    let lines = count_lines(content.as_str());
    messages.log.mark_all_seen();
    let line: usize = if lines > 0 {
        lines - 1
    } else {
        0
    };
    Some(ViewRequest { label: "[messages]", content, line })
}

/// `n` spaces.
pub open spec fn spaces(n: nat) -> Seq<char> {
    Seq::new(n, |i: int| ' ')
}

/// `s` with spaces before it, at least `width` characters wide.
pub open spec fn right_aligned(s: Seq<char>, width: nat) -> Seq<char> {
    if s.len() < width {
        spaces((width - s.len()) as nat) + s
    } else {
        s
    }
}

/// `s` with spaces behind it, at least `width` characters wide.
pub open spec fn left_aligned(s: Seq<char>, width: nat) -> Seq<char> {
    if s.len() < width {
        s + spaces((width - s.len()) as nat)
    } else {
        s
    }
}

fn space_string(n: usize) -> (r: String)
    ensures
        r@ == spaces(n as nat),
{
    let mut v: Vec<char> = Vec::new();
    let mut i: usize = 0;
    while i < n
        invariant
            i <= n,
            v@ == spaces(i as nat),
        decreases n - i,
    {
        v.push(' ');
        i = i + 1;
        assert(v@ =~= spaces(i as nat));
    }
    string_of(&v)
}

fn align_right(s: &str, width: usize) -> (r: String)
    ensures
        r@ == right_aligned(s@, width as nat),
{
    let n = chars_of(s).len();
    if n < width {
        concat2(space_string(width - n).as_str(), s)
    } else {
        s.to_owned()
    }
}

fn align_left(s: &str, width: usize) -> (r: String)
    ensures
        r@ == left_aligned(s@, width as nat),
{
    let n = chars_of(s).len();
    if n < width {
        concat2(s, space_string(width - n).as_str())
    } else {
        s.to_owned()
    }
}

/// The name of a buffer in the list: the last component of its path, or else its label,
/// or else the name of scratch buffers.
pub open spec fn listed_name(b: Buffer) -> Seq<char> {
    let fallback = match b.label {
        Some(l) => l@,
        None => SCRATCH_BUFFER_NAME@,
    };
    match b.path {
        Some(p) => match p.base() {
            Some(n) => n,
            None => fallback,
        },
        None => fallback,
    }
}

/// The two marks of a buffer in the list: the current and the alternate one, and whether
/// it has changes that are not saved.
pub open spec fn marks(id: u64, b: Buffer, current: u64, alternate: Option<u64>) -> Seq<char> {
    (if id == current {
        "%"@
    } else if alternate == Some(id) {
        "#"@
    } else {
        " "@
    }) + (if b.dirty() {
        "+"@
    } else {
        " "@
    })
}

/// One row of the list of buffers. `path` is its path as it is to be shown.
pub open spec fn buffer_row(
    number: nat,
    id: u64,
    b: Buffer,
    current: u64,
    alternate: Option<u64>,
    path: Seq<char>,
) -> Seq<char> {
    right_aligned(decimal(number), 4) + "  "@ + marks(id, b, current, alternate) + "  "@
        + left_aligned(listed_name(b), 32) + "  "@ + path + "\n"@
}

/// The first line of the list of buffers.
pub open spec fn list_header() -> Seq<char> {
    right_aligned("buf"@, 4) + "    "@ + left_aligned("name"@, 32) + "  "@ + "path"@ + "\n"@
}

/// The list of the first `n` buffers.
pub open spec fn buffer_rows(
    store: BufferStore,
    current: u64,
    alternate: Option<u64>,
    paths: Seq<String>,
    n: nat,
) -> Seq<char>
    decreases n,
{
    if n == 0 {
        list_header()
    } else {
        let id = store.opened()[n - 1];
        buffer_rows(store, current, alternate, paths, (n - 1) as nat) + buffer_row(
            n,
            id,
            store@[id],
            current,
            alternate,
            paths[n - 1]@,
        )
    }
}

/// The line of a buffer in the list: one for the first, and so on; one where it is not in
/// the list.
pub open spec fn row_of(ids: Seq<u64>, id: u64) -> nat
    decreases ids.len(),
{
    if ids.len() == 0 {
        1
    } else if ids.last() == id {
        ids.len()
    } else {
        row_of(ids.drop_last(), id)
    }
}

fn list_name(b: &Buffer) -> (r: String)
    ensures
        r@ == listed_name(*b),
{
    let fallback: String = match &b.label {
        Some(l) => l.clone(),
        None => SCRATCH_BUFFER_NAME.to_owned(),
    };
    match &b.path {
        Some(p) => match p.file_name() {
            Some(n) => n,
            None => fallback,
        },
        None => fallback,
    }
}

fn list_row(
    number: usize,
    id: u64,
    b: &Buffer,
    current: u64,
    alternate: Option<u64>,
    path: &str,
) -> (r: String)
    ensures
        r@ == buffer_row(number as nat, id, *b, current, alternate, path@),
{
    let mut out = align_right(decimal_string(number).as_str(), 4);
    out.append("  ");
    let is_alternate = match alternate {
        Some(a) => a == id,
        None => false,
    };
    let first = if id == current {
        "%"
    } else if is_alternate {
        "#"
    } else {
        " "
    };
    let second = if b.is_dirty() {
        "+"
    } else {
        " "
    };
    out.append(concat2(first, second).as_str());
    out.append("  ");
    out.append(align_left(list_name(b).as_str(), 32).as_str());
    out.append("  ");
    out.append(path);
    out.append("\n");
    out
}

fn list_first_line() -> (r: String)
    ensures
        r@ == list_header(),
{
    let mut out = align_right("buf", 4);
    out.append("    ");
    out.append(align_left("name", 32).as_str());
    out.append("  ");
    out.append("path");
    out.append("\n");
    out
}

/// Lists the open buffers, with the cursor on the focused one. `paths` are the paths of
/// the buffers in the order they were opened, as they are to be shown.
pub fn typed_list_buffers(ws: &Workspace, paths: &Vec<String>) -> (r: ViewRequest)
    requires
        ws.wf(),
        paths@.len() == ws.buffers.opened().len(),
    ensures
        r.label@ == "[buffers]"@,
        r.content@ == buffer_rows(
            ws.buffers,
            ws.shown(),
            last_other(ws.buffers.used(), ws.shown()),
            paths@,
            paths@.len(),
        ),
        r.line == row_of(ws.buffers.opened(), ws.shown()),
{
    let current = ws.focused_buffer_id();
    let alternate: Option<u64> = match ws.buffers.mru_excluding(current) {
        Some(id) => Some(id.0),
        None => None,
    };
    let ids = ws.buffers.ids();
    let n = ids.len();
    let mut out = list_first_line();
    let mut line: usize = 1;
    let mut i: usize = 0;
    let ghost opened = ws.buffers.opened();
    assert(opened.take(0) =~= Seq::empty());
    while i < n
        invariant
            i <= n == ids@.len() == paths@.len() == opened.len(),
            opened == ws.buffers.opened(),
            opened == ids@.map_values(|b: BufferId| b.0),
            forall|j: int| 0 <= j < ids@.len() ==> ws.buffers@.contains_key((#[trigger] ids@[j]).0),
            current.0 == ws.shown(),
            out@ == buffer_rows(ws.buffers, current.0, alternate, paths@, i as nat),
            line == row_of(opened.take(i as int), current.0),
        decreases n - i,
    {
        let id = ids[i];
        assert(opened[i as int] == id.0);
        assert(opened.take(i + 1).drop_last() =~= opened.take(i as int));
        let b = ws.buffers.get(id);
        let row = list_row(i + 1, id.0, b, current.0, alternate, paths[i].as_str());
        out.append(row.as_str());
        if id.0 == current.0 {
            line = i + 1;
        }
        i = i + 1;
    }
    assert(opened.take(n as int) =~= opened);
    ViewRequest { label: "[buffers]", content: out, line }
}

/// Shows the state of the plugins. `status` is how they are described, where scripting is
/// on.
pub fn typed_plugin_status(messages: &mut Messages, status: Option<String>) -> (r: Option<
    ViewRequest,
>)
    ensures
        match status {
            None => {
                &&& r is None
                &&& final(messages)@ == old(messages)@.reported(
                    Severity::Info,
                    "Scripting disabled"@,
                )
            },
            Some(s) => if s@.len() == 0 {
                &&& r is None
                &&& final(messages)@ == old(messages)@.reported(
                    Severity::Info,
                    "No plugins declared"@,
                )
            } else {
                &&& r is Some && r->0.label@ == "[plugin-status]"@ && r->0.content@ == s@
                    && r->0.line == 0
                &&& final(messages)@ == old(messages)@
            },
        },
{
    match status {
        None => {
            messages.report(Severity::Info, "Scripting disabled".to_owned());
            None
        },
        Some(s) => {
            if s.as_str().is_empty() {
                messages.report(Severity::Info, "No plugins declared".to_owned());
                None
            } else {
                Some(ViewRequest { label: "[plugin-status]", content: s, line: 0 })
            }
        },
    }
}

/// What a setting applies to.
#[derive(Debug, Clone, Copy, PartialEq, Eq, Structural)]
pub enum SettingScope {
    Global,
    Buffer,
}

/// What a setting command asks for.
#[derive(Debug)]
pub enum SetRequest {
    /// Give the focused buffer a language, or none.
    Language { name: Option<String> },
    Setting { scope: SettingScope, key: String, value: String },
}

/// What a setting command asks for, as a value.
pub enum SetV {
    Language(Option<Seq<char>>),
    Setting(SettingScope, Seq<char>, Seq<char>),
}

impl View for SetRequest {
    type V = SetV;

    open spec fn view(&self) -> SetV {
        match self {
            SetRequest::Language { name } => SetV::Language(
                match name {
                    Some(n) => Some(n@),
                    None => None,
                },
            ),
            SetRequest::Setting { scope, key, value } => SetV::Setting(*scope, key@, value@),
        }
    }
}

/// How a setting command is written.
pub open spec fn set_usage() -> Seq<char> {
    "Usage: :set global|buffer key=value"@
}

/// The complaint about a scope that there is not.
pub open spec fn unknown_scope(scope: Seq<char>) -> Seq<char> {
    "unknown scope '"@ + scope + "': expected 'global' or 'buffer'"@
}

/// What a setting command asks for, or what is wrong with it. The language is a matter of
/// each buffer.
pub open spec fn set_asked(arg: Option<Seq<char>>) -> Result<SetV, Seq<char>> {
    match arg {
        None => Err(set_usage()),
        Some(a) => {
            let i = first_index(a, ' ');
            if i < 0 {
                Err(set_usage())
            } else {
                let scope = a.take(i);
                let rest = a.skip(i + 1);
                let j = first_index(rest, '=');
                if j < 0 {
                    Err("Expected key=value"@)
                } else {
                    let key = rest.take(j);
                    let value = rest.skip(j + 1);
                    if key == "language"@ {
                        if scope == "global"@ {
                            Err("'language' is per-buffer — use ':set buffer language=<name>'"@)
                        } else if scope == "buffer"@ {
                            Ok(
                                SetV::Language(
                                    if value.len() == 0 {
                                        None
                                    } else {
                                        Some(value)
                                    },
                                ),
                            )
                        } else {
                            Err(unknown_scope(scope))
                        }
                    } else if scope == "global"@ {
                        Ok(SetV::Setting(SettingScope::Global, key, value))
                    } else if scope == "buffer"@ {
                        Ok(SetV::Setting(SettingScope::Buffer, key, value))
                    } else {
                        Err(unknown_scope(scope))
                    }
                }
            }
        },
    }
}

/// Finds what a setting command asks for; see [`set_asked`].
pub fn typed_set(arg: Option<&str>) -> (r: Result<SetRequest, CommandError>)
    ensures
        match set_asked(
            match arg {
                Some(a) => Some(a@),
                None => None,
            },
        ) {
            Ok(v) => r is Ok && r->Ok_0@ == v,
            Err(e) => fails(r, e),
        },
{
    let a = match arg {
        Some(a) => a,
        None => {
            return Err(CommandError::new("Usage: :set global|buffer key=value"));
        },
    };
    let chars = chars_of(a);
    let n = chars.len();
    proof {
        lemma_first_index(a@, ' ');
    }
    let i = match find_char(&chars, ' ') {
        Some(i) => i,
        None => {
            return Err(CommandError::new("Usage: :set global|buffer key=value"));
        },
    };
    let scope = string_of_range(&chars, 0, i);
    assert(scope@ =~= a@.take(i as int));
    let rest_text = string_of_range(&chars, i + 1, n);
    assert(rest_text@ =~= a@.skip(i + 1));
    let rest = chars_of(rest_text.as_str());
    let m = rest.len();
    proof {
        lemma_first_index(rest@, '=');
    }
    let j = match find_char(&rest, '=') {
        Some(j) => j,
        None => {
            return Err(CommandError::new("Expected key=value"));
        },
    };
    let key = string_of_range(&rest, 0, j);
    assert(key@ =~= rest@.take(j as int));
    let value = string_of_range(&rest, j + 1, m);
    assert(value@ =~= rest@.skip(j + 1));
    let global = str_eq(scope.as_str(), "global");
    let buffer = str_eq(scope.as_str(), "buffer");
    if str_eq(key.as_str(), "language") {
        if global {
            Err(
                CommandError::new(
                    "'language' is per-buffer — use ':set buffer language=<name>'",
                ),
            )
        } else if buffer {
            if value.as_str().is_empty() {
                Ok(SetRequest::Language { name: None })
            } else {
                Ok(SetRequest::Language { name: Some(value) })
            }
        } else {
            Err(
                CommandError {
                    message: concat3(
                        "unknown scope '",
                        scope.as_str(),
                        "': expected 'global' or 'buffer'",
                    ),
                },
            )
        }
    } else if global {
        Ok(SetRequest::Setting { scope: SettingScope::Global, key, value })
    } else if buffer {
        Ok(SetRequest::Setting { scope: SettingScope::Buffer, key, value })
    } else {
        Err(
            CommandError {
                message: concat3(
                    "unknown scope '",
                    scope.as_str(),
                    "': expected 'global' or 'buffer'",
                ),
            },
        )
    }
}

/// Warns where a language is chosen that is not registered.
pub fn warn_unregistered_language(messages: &mut Messages, name: &str, registered: bool)
    ensures
        final(messages)@ == (if registered {
            old(messages)@
        } else {
            old(messages)@.reported(
                Severity::Warning,
                "language '"@ + name@ + "' is not registered"@,
            )
        }),
{
    if !registered {
        messages.report(Severity::Warning, concat3("language '", name, "' is not registered"));
    }
}

/// What else has to be done once a setting was applied.
#[derive(Debug, Clone, Copy, PartialEq, Eq, Structural)]
pub enum SettingEffect {
    Nothing,
    /// The histories of the input lines get another size.
    HistoryCapacity,
    /// Another theme is loaded.
    Theme,
}

/// What else has to be done once the setting `key` was applied. `theme` is the theme that
/// is set then.
pub fn setting_effect(scope: SettingScope, key: &str, theme: &str) -> (r: SettingEffect)
    ensures
        r == (if key@ == "history-capacity"@ {
            SettingEffect::HistoryCapacity
        } else if key@ == "theme"@ && scope == SettingScope::Global && theme@.len() > 0 {
            SettingEffect::Theme
        } else {
            SettingEffect::Nothing
        }),
{
    if str_eq(key, "history-capacity") {
        SettingEffect::HistoryCapacity
    } else if str_eq(key, "theme") && scope == SettingScope::Global && !theme.is_empty() {
        SettingEffect::Theme
    } else {
        SettingEffect::Nothing
    }
}

/// The name of the theme that is shown where none was chosen.
pub const DEFAULT_THEME_LABEL: &'static str = "default (built-in)";

/// The name that a theme is shown under.
pub open spec fn theme_label(theme: Seq<char>) -> Seq<char> {
    if theme.len() == 0 {
        DEFAULT_THEME_LABEL@
    } else {
        theme
    }
}

/// The theme that a theme command asks for. Without a name, it only tells the current one.
pub fn typed_theme(messages: &mut Messages, arg: Option<&str>, theme: &str) -> (r: Option<String>)
    ensures
        ({
            let name = match arg {
                Some(a) => trimmed(a@),
                None => Seq::empty(),
            };
            if name.len() > 0 {
                r is Some && r->0@ == name && final(messages)@ == old(messages)@
            } else {
                r is None && final(messages)@ == old(messages)@.reported(
                    Severity::Info,
                    "Current theme: "@ + theme_label(theme@),
                )
            }
        }),
{
    let name = trimmed_arg(arg);
    match name {
        Some(n) => Some(n),
        None => {
            let label = if theme.is_empty() {
                DEFAULT_THEME_LABEL
            } else {
                theme
            };
            messages.report(Severity::Info, concat2("Current theme: ", label));
            None
        },
    }
}

/// The scopes of a theme that apply to `scope`, from the most specific on: itself and what
/// is left of it before each dot. Those in `known` have an entry.
pub open spec fn applying(known: Seq<Seq<char>>, scope: Seq<char>) -> Seq<Seq<char>>
    decreases scope.len(),
    via applying_decreases
{
    let dot = last_index(scope, '.');
    let own = if known.contains(scope) {
        seq![scope]
    } else {
        Seq::empty()
    };
    if dot < 0 {
        own
    } else {
        own + applying(known, scope.take(dot))
    }
}

#[via_fn]
proof fn applying_decreases(known: Seq<Seq<char>>, scope: Seq<char>) {
    lemma_last_index(scope, '.');
}

/// How the chain of scopes that apply is shown.
pub open spec fn chain_text(known: Seq<Seq<char>>, scope: Seq<char>) -> Seq<char> {
    let chain = applying(known, scope);
    if chain.len() == 0 {
        scope + " → default"@
    } else {
        joined_with(chain, " → "@)
    }
}

fn contains_text(known: &Vec<String>, s: &str) -> (r: bool)
    ensures
        r == known@.map_values(|k: String| k@).contains(s@),
{
    let ghost all = known@.map_values(|k: String| k@);
    let n = known.len();
    let mut i: usize = 0;
    while i < n
        invariant
            i <= n == known@.len(),
            all == known@.map_values(|k: String| k@),
            forall|j: int| 0 <= j < i ==> #[trigger] all[j] != s@,
        decreases n - i,
    {
        if str_eq(known[i].as_str(), s) {
            assert(all[i as int] == s@);
            return true;
        }
        i = i + 1;
    }
    false
}

/// How the chain of scopes that apply to `scope` is shown; `known` are the scopes that the
/// theme has an entry for.
pub fn scope_chain(known: &Vec<String>, scope: &str) -> (r: String)
    ensures
        r@ == chain_text(known@.map_values(|k: String| k@), scope@),
{
    let ghost all = known@.map_values(|k: String| k@);
    let chars = chars_of(scope);
    let mut to: usize = chars.len();
    let mut chain: Vec<String> = Vec::new();
    let ghost goal = applying(all, scope@);
    assert(chars@.take(to as int) =~= scope@);
    assert(chain@.map_values(|k: String| k@) =~= Seq::<Seq<char>>::empty());
    assert(goal =~= chain@.map_values(|k: String| k@) + applying(all, chars@.take(to as int)));
    let mut done = false;
    while !done
        invariant
            to <= chars@.len(),
            all == known@.map_values(|k: String| k@),
            !done ==> goal == chain@.map_values(|k: String| k@) + applying(
                all,
                chars@.take(to as int),
            ),
            done ==> goal == chain@.map_values(|k: String| k@),
        decreases to + (if done {
            0int
        } else {
            1int
        }),
    {
        let current = string_of_range(&chars, 0, to);
        let ghost cur = chars@.take(to as int);
        assert(current@ =~= cur);
        proof {
            lemma_last_index(cur, '.');
        }
        let ghost before = chain@.map_values(|k: String| k@);
        if contains_text(known, current.as_str()) {
            chain.push(current);
            assert(chain@.map_values(|k: String| k@) =~= before + seq![cur]);
        }
        match rfind_char(&chars, to, '.') {
            Some(dot) => {
                assert(cur.take(dot as int) =~= chars@.take(dot as int));
                assert(goal =~= chain@.map_values(|k: String| k@) + applying(
                    all,
                    chars@.take(dot as int),
                ));
                to = dot;
            },
            None => {
                assert(goal =~= chain@.map_values(|k: String| k@));
                done = true;
            },
        }
    }
    if chain.len() == 0 {
        concat2(scope, " → default")
    } else {
        join_strings(&chain, " → ")
    }
}

/// A color of a theme.
#[derive(Debug)]
pub enum ThemeColor {
    Unset,
    Rgb(u8, u8, u8),
    /// One of the terminal's own colors, by its name.
    Named(String),
}

/// A hexadecimal digit.
pub open spec fn hex_digit(d: nat) -> char {
    if d < 10 {
        ('0' as nat + d) as char
    } else {
        ('a' as nat + (d - 10)) as char
    }
}

/// A byte as two hexadecimal digits.
pub open spec fn hex_byte(b: u8) -> Seq<char> {
    seq![hex_digit((b / 16) as nat), hex_digit((b % 16) as nat)]
}

/// How a color is shown.
pub open spec fn color_text(c: ThemeColor) -> Seq<char> {
    match c {
        ThemeColor::Unset => "-"@,
        ThemeColor::Rgb(r, g, b) => "#"@ + hex_byte(r) + hex_byte(g) + hex_byte(b),
        ThemeColor::Named(n) => n@,
    }
}

fn hex_char(d: u8) -> (r: char)
    requires
        d < 16,
    ensures
        r == hex_digit(d as nat),
{
    if d < 10 {
        (48 + d) as char
    } else {
        (97 + (d - 10)) as char
    }
}

fn hex_string(b: u8) -> (r: String)
    ensures
        r@ == hex_byte(b),
{
    let mut v: Vec<char> = Vec::new();
    v.push(hex_char(b / 16));
    v.push(hex_char(b % 16));
    assert(v@ =~= hex_byte(b));
    string_of(&v)
}

/// How a color is shown.
pub fn color_str(c: &ThemeColor) -> (r: String)
    ensures
        r@ == color_text(*c),
{
    match c {
        ThemeColor::Unset => "-".to_owned(),
        ThemeColor::Rgb(r, g, b) => {
            let red = concat2("#", hex_string(*r).as_str());
            concat3(red.as_str(), hex_string(*g).as_str(), hex_string(*b).as_str())
        },
        ThemeColor::Named(n) => n.clone(),
    }
}

/// How a scope of the theme looks: its colors, and how its modifiers are described, which
/// is nothing where there are none.
pub struct ScopeStyle {
    pub scope: String,
    pub fg: ThemeColor,
    pub bg: ThemeColor,
    pub modifiers: String,
}

/// The line of a scope in the description of a theme.
pub open spec fn style_line(known: Seq<Seq<char>>, s: ScopeStyle) -> Seq<char> {
    "  "@ + s.scope@ + ": chain="@ + chain_text(known, s.scope@) + " fg="@ + color_text(s.fg)
        + " bg="@ + color_text(s.bg) + (if s.modifiers@.len() == 0 {
        Seq::empty()
    } else {
        " modifiers="@ + s.modifiers@
    })
}

/// The description of a theme: its name, and a line for each scope.
pub open spec fn theme_lines(
    theme: Seq<char>,
    known: Seq<Seq<char>>,
    styles: Seq<ScopeStyle>,
) -> Seq<Seq<char>> {
    seq!["Theme: "@ + theme_label(theme)] + styles.map_values(
        |s: ScopeStyle| style_line(known, s),
    )
}

fn style_text(known: &Vec<String>, s: &ScopeStyle) -> (r: String)
    ensures
        r@ == style_line(known@.map_values(|k: String| k@), *s),
{
    let mut out = concat2("  ", s.scope.as_str());
    out.append(": chain=");
    out.append(scope_chain(known, s.scope.as_str()).as_str());
    out.append(" fg=");
    out.append(color_str(&s.fg).as_str());
    out.append(" bg=");
    out.append(color_str(&s.bg).as_str());
    if !s.modifiers.as_str().is_empty() {
        let ghost before = out@;
        out.append(" modifiers=");
        out.append(s.modifiers.as_str());
        assert(out@ =~= before + (" modifiers="@ + s.modifiers@));
    } else {
        assert(out@ =~= out@ + Seq::<char>::empty());
    }
    out
}

/// Describes the current theme in the status line: its name, and how the scopes `styles`
/// look. `known` are the scopes that it has an entry for.
pub fn typed_theme_debug(
    messages: &mut Messages,
    theme: &str,
    known: &Vec<String>,
    styles: &Vec<ScopeStyle>,
)
    ensures
        final(messages)@ == old(messages)@.reported(
            Severity::Info,
            joined_with(
                theme_lines(theme@, known@.map_values(|k: String| k@), styles@),
                "\n"@,
            ),
        ),
{
    let ghost all = known@.map_values(|k: String| k@);
    let ghost goal = theme_lines(theme@, all, styles@);
    let label = if theme.is_empty() {
        DEFAULT_THEME_LABEL
    } else {
        theme
    };
    let mut lines: Vec<String> = Vec::new();
    lines.push(concat2("Theme: ", label));
    let n = styles.len();
    let mut i: usize = 0;
    assert(lines@.map_values(|k: String| k@) =~= goal.take(1));
    while i < n
        invariant
            i <= n == styles@.len(),
            all == known@.map_values(|k: String| k@),
            goal == theme_lines(theme@, all, styles@),
            lines@.map_values(|k: String| k@) == goal.take(i + 1),
        decreases n - i,
    {
        let line = style_text(known, &styles[i]);
        let ghost before = lines@.map_values(|k: String| k@);
        let ghost one = line@;
        lines.push(line);
        i = i + 1;
        assert(lines@.map_values(|k: String| k@) =~= before.push(one));
        assert(lines@.map_values(|k: String| k@) =~= goal.take(i + 1));
    }
    assert(goal.take(n + 1) =~= goal);
    messages.report(Severity::Info, join_strings(&lines, "\n"));
}

/// Tells the working directory, as it is to be shown.
pub fn typed_pwd(messages: &mut Messages, dir: String)
    ensures
        final(messages)@ == old(messages)@.reported(Severity::Info, dir@),
{
    messages.report(Severity::Info, dir);
}

/// Panes cannot be split yet.
pub fn typed_split(vertical: bool) -> (r: Result<(), CommandError>)
    ensures
        fails(
            r,
            if vertical {
                ":vsplit not yet implemented"@
            } else {
                ":split not yet implemented"@
            },
        ),
{
    if vertical {
        Err(CommandError::new(":vsplit not yet implemented"))
    } else {
        Err(CommandError::new(":split not yet implemented"))
    }
}

/// Tells the version.
pub fn typed_version(messages: &mut Messages, version: &str)
    ensures
        final(messages)@ == old(messages)@.reported(Severity::Info, "hume "@ + version@),
{
    messages.report(Severity::Info, concat2("hume ", version));
}

/// A column is filled up with spaces on one side, and what is too wide for it stays whole.
pub proof fn law_columns(s: Seq<char>, width: nat, i: int)
    ensures
        s.len() <= width ==> right_aligned(s, width).len() == width && left_aligned(s, width).len()
            == width,
        s.len() >= width ==> right_aligned(s, width) == s && left_aligned(s, width) == s,
        s.len() <= width ==> right_aligned(s, width).skip(width - s.len()) == s,
        s.len() <= width ==> left_aligned(s, width).take(s.len() as int) == s,
        0 <= i < width - s.len() ==> right_aligned(s, width)[i] == ' ',
        s.len() <= i < width ==> left_aligned(s, width)[i] == ' ',
{
    if s.len() <= width {
        assert(right_aligned(s, width).skip(width - s.len()) =~= s);
        assert(left_aligned(s, width).take(s.len() as int) =~= s);
    }
}

/// The list of buffers marks the current one with a percent sign, the alternate one with a
/// hash, and those with changes that are not saved with a plus sign.
pub proof fn law_marks_in_the_list(id: u64, b: Buffer, current: u64, alternate: Option<u64>)
    ensures
        marks(id, b, current, alternate).len() == 2,
        id == current ==> marks(id, b, current, alternate)[0] == '%',
        id != current && alternate == Some(id) ==> marks(id, b, current, alternate)[0] == '#',
        id != current && alternate != Some(id) ==> marks(id, b, current, alternate)[0] == ' ',
        b.dirty() ==> marks(id, b, current, alternate)[1] == '+',
        !b.dirty() ==> marks(id, b, current, alternate)[1] == ' ',
{
    reveal_strlit("%");
    reveal_strlit("#");
    reveal_strlit("+");
    reveal_strlit(" ");
}

/// A row of the list: the number in four columns, the two marks, the name and the path, with two
/// spaces between them, and a line feed at the end.
pub proof fn law_row_of_the_list(
    number: nat,
    id: u64,
    b: Buffer,
    current: u64,
    alternate: Option<u64>,
    path: Seq<char>,
)
    requires
        decimal(number).len() <= 4,
    ensures
        ({
            let row = buffer_row(number, id, b, current, alternate, path);
            let wide = if listed_name(b).len() < 32 {
                32
            } else {
                listed_name(b).len() as int
            };
            &&& row.len() == 13 + wide + path.len()
            &&& row.subrange(4 - decimal(number).len(), 4) == decimal(number)
            &&& row.subrange(6, 8) == marks(id, b, current, alternate)
            &&& row.subrange(10, 10 + listed_name(b).len() as int) == listed_name(b)
            &&& row.subrange(12 + wide, 12 + wide + path.len()) == path
            &&& row.last() == '\n'
        }),
{
    reveal_strlit("  ");
    reveal_strlit("\n");
    reveal_strlit("%");
    reveal_strlit("#");
    reveal_strlit("+");
    reveal_strlit(" ");
    let row = buffer_row(number, id, b, current, alternate, path);
    let wide = if listed_name(b).len() < 32 {
        32
    } else {
        listed_name(b).len() as int
    };
    assert("\n"@[0] == '\n');
    assert(row.subrange(4 - decimal(number).len(), 4) =~= decimal(number));
    assert(row.subrange(6, 8) =~= marks(id, b, current, alternate));
    assert(row.subrange(10, 10 + listed_name(b).len() as int) =~= listed_name(b));
    assert(row.subrange(12 + wide, 12 + wide + path.len()) =~= path);
}

/// The list has a row for each buffer in the order they were opened, below its first line.
pub proof fn law_rows_follow_the_buffers(
    store: BufferStore,
    current: u64,
    alternate: Option<u64>,
    paths: Seq<String>,
    n: nat,
)
    ensures
        buffer_rows(store, current, alternate, paths, 0) == list_header(),
        buffer_rows(store, current, alternate, paths, n + 1) == buffer_rows(
            store,
            current,
            alternate,
            paths,
            n,
        ) + buffer_row(
            n + 1,
            store.opened()[n as int],
            store@[store.opened()[n as int]],
            current,
            alternate,
            paths[n as int]@,
        ),
{
}

/// The line of a buffer in the list is its place, counted from one.
pub proof fn law_line_of_a_buffer(ids: Seq<u64>, i: int, other: u64)
    requires
        ids.no_duplicates(),
    ensures
        0 <= i < ids.len() ==> row_of(ids, ids[i]) == i + 1,
        !ids.contains(other) ==> row_of(ids, other) == 1,
    decreases ids.len(),
{
    if ids.len() > 0 {
        let r = ids.drop_last();
        assert(ids[ids.len() - 1] == ids.last());
        if !ids.contains(other) {
            assert(ids.contains(ids[ids.len() - 1]));
            assert(!r.contains(other)) by {
                if r.contains(other) {
                    let k = choose|k: int| 0 <= k < r.len() && r[k] == other;
                    assert(ids[k] == other);
                }
            }
        }
        law_line_of_a_buffer(r, i, other);
    }
}

/// A buffer is listed by the last component of its path; one without a path by its label, and
/// one without either as a scratch buffer.
pub proof fn law_listed_names(b: Buffer)
    ensures
        b.path matches Some(p) ==> (p.base() matches Some(n) ==> listed_name(b) == n),
        b.path is None ==> (b.label matches Some(l) ==> listed_name(b) == l@),
        b.path is None && b.label is None ==> listed_name(b) == SCRATCH_BUFFER_NAME@,
{
}

/// A setting is written as a scope, a space, the key, an equals sign and the value, which may
/// hold further spaces and equals signs. The language is a setting of buffers alone, and an
/// empty one is none.
pub proof fn law_settings_are_read(scope: Seq<char>, key: Seq<char>, value: Seq<char>)
    requires
        forall|i: int| 0 <= i < scope.len() ==> #[trigger] scope[i] != ' ',
        forall|i: int| 0 <= i < key.len() ==> #[trigger] key[i] != '=',
    ensures
        ({
            let asked = set_asked(Some(scope + seq![' '] + key + seq!['='] + value));
            &&& scope == "global"@ && key != "language"@ ==> asked == Ok::<SetV, Seq<char>>(
                SetV::Setting(SettingScope::Global, key, value),
            )
            &&& scope == "buffer"@ && key != "language"@ ==> asked == Ok::<SetV, Seq<char>>(
                SetV::Setting(SettingScope::Buffer, key, value),
            )
            &&& scope == "buffer"@ && key == "language"@ && value.len() > 0 ==> asked == Ok::<
                SetV,
                Seq<char>,
            >(SetV::Language(Some(value)))
            &&& scope == "buffer"@ && key == "language"@ && value.len() == 0 ==> asked == Ok::<
                SetV,
                Seq<char>,
            >(SetV::Language(None))
            &&& scope == "global"@ && key == "language"@ ==> asked is Err
            &&& scope != "global"@ && scope != "buffer"@ ==> asked is Err
        }),
        set_asked(None) is Err,
        set_asked(Some(scope)) is Err,
        set_asked(Some(scope + seq![' '] + key)) is Err,
{
    reveal_strlit("global");
    reveal_strlit("buffer");
    assert("global"@[0] == 'g');
    assert("buffer"@[0] == 'b');
    let a = scope + seq![' '] + key + seq!['='] + value;
    let n = scope.len() as int;
    lemma_first_index(a, ' ');
    assert(a[n] == ' ');
    assert(first_index(a, ' ') == n) by {
        let f = first_index(a, ' ');
        if 0 <= f < n {
            assert(a[f] == scope[f]);
        }
    }
    let rest = a.skip(n + 1);
    assert(a.take(n) =~= scope);
    assert(rest =~= key + seq!['='] + value);
    lemma_first_index(rest, '=');
    assert(rest[key.len() as int] == '=');
    assert(first_index(rest, '=') == key.len()) by {
        let f = first_index(rest, '=');
        if 0 <= f < key.len() {
            assert(rest[f] == key[f]);
        }
    }
    assert(rest.take(key.len() as int) =~= key);
    assert(rest.skip(key.len() as int + 1) =~= value);
    lemma_first_index(scope, ' ');
    let b = scope + seq![' '] + key;
    lemma_first_index(b, ' ');
    assert(b[n] == ' ');
    assert(first_index(b, ' ') == n) by {
        let f = first_index(b, ' ');
        if 0 <= f < n {
            assert(b[f] == scope[f]);
        }
    }
    assert(b.skip(n + 1) =~= key);
    lemma_first_index(key, '=');
}

/// The scopes that apply to a scope: itself, where it has an entry, and then those that apply to
/// what stands before its last dot.
pub proof fn law_scopes_fall_back(known: Seq<Seq<char>>, outer: Seq<char>, inner: Seq<char>)
    requires
        forall|i: int| 0 <= i < inner.len() ==> #[trigger] inner[i] != '.',
    ensures
        ({
            let whole = outer + seq!['.'] + inner;
            &&& known.contains(whole) ==> applying(known, whole) == seq![whole] + applying(
                known,
                outer,
            )
            &&& !known.contains(whole) ==> applying(known, whole) == applying(known, outer)
        }),
        known.contains(inner) ==> applying(known, inner) == seq![inner],
        !known.contains(inner) ==> applying(known, inner).len() == 0,
        !known.contains(inner) ==> chain_text(known, inner) == inner + " → default"@,
        known.contains(inner) ==> chain_text(known, inner) == inner,
{
    let whole = outer + seq!['.'] + inner;
    lemma_last_index(whole, '.');
    assert(whole[outer.len() as int] == '.');
    let d = last_index(whole, '.');
    if d > outer.len() {
        assert(whole[d] == inner[d - outer.len() - 1]);
    }
    assert(whole.take(outer.len() as int) =~= outer);
    lemma_last_index(inner, '.');
    if known.contains(whole) {
        assert(applying(known, whole) =~= seq![whole] + applying(known, outer));
    } else {
        assert(applying(known, whole) =~= applying(known, outer));
    }
}

/// A color is shown by six hexadecimal digits, two for each of its parts.
pub proof fn law_colors_are_shown_in_hexadecimal(r: u8, g: u8, b: u8)
    ensures
        ({
            let t = color_text(ThemeColor::Rgb(r, g, b));
            let value = |c: char|
                if c <= '9' {
                    c as int - '0' as int
                } else {
                    c as int - 'a' as int + 10
                };
            &&& t.len() == 7
            &&& t[0] == '#'
            &&& forall|i: int|
                1 <= i < 7 ==> ('0' <= #[trigger] t[i] && t[i] <= '9') || ('a' <= t[i] && t[i]
                    <= 'f')
            &&& value(t[1]) * 16 + value(t[2]) == r
            &&& value(t[3]) * 16 + value(t[4]) == g
            &&& value(t[5]) * 16 + value(t[6]) == b
        }),
{
    reveal_strlit("#");
    assert("#"@[0] == '#');
    let t = color_text(ThemeColor::Rgb(r, g, b));
    assert(t =~= seq![
        '#',
        hex_digit((r / 16) as nat),
        hex_digit((r % 16) as nat),
        hex_digit((g / 16) as nat),
        hex_digit((g % 16) as nat),
        hex_digit((b / 16) as nat),
        hex_digit((b % 16) as nat),
    ]);
    assert(r as int == (r / 16) * 16 + r % 16);
    assert(g as int == (g / 16) * 16 + g % 16);
    assert(b as int == (b / 16) * 16 + b % 16);
}

/// The description of a theme has its name in its first line and a line for each scope, in their
/// order.
pub proof fn law_theme_is_described_line_by_line(
    theme: Seq<char>,
    known: Seq<Seq<char>>,
    styles: Seq<ScopeStyle>,
    i: int,
)
    requires
        0 <= i < styles.len(),
    ensures
        theme_lines(theme, known, styles).len() == styles.len() + 1,
        theme.len() > 0 ==> theme_lines(theme, known, styles)[0] == "Theme: "@ + theme,
        theme.len() == 0 ==> theme_lines(theme, known, styles)[0] == "Theme: "@
            + "default (built-in)"@,
        theme_lines(theme, known, styles)[i + 1] == style_line(known, styles[i]),
{
}

} // verus!

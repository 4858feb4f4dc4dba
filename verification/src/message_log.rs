//! Persistent message log and read-only overlay text.

use crate::selection::{Selection, SelectionSet, Sels};
use crate::strings::{concat2, concat3, decimal, decimal_string};
use crate::text::{
    closed_lines, ending_of, law_line_begins_behind_a_line_feed, law_newlines_add_up, line_start,
    newlines, without_cr, Text,
};
use std::collections::VecDeque;
use vstd::prelude::*;
use vstd::string::*;

verus! {

/// How serious a message is, which also decides where it goes: `Info` is only shown,
/// `Warning` and `Error` are logged and shown, `Trace` is only logged.
#[derive(Debug, Clone, Copy, PartialEq, Eq, Structural)]
pub enum Severity {
    Info,
    Warning,
    Error,
    Trace,
}

impl Severity {
    pub open spec fn spec_label(self) -> Seq<char> {
        match self {
            Severity::Info => "info"@,
            Severity::Warning => "warning"@,
            Severity::Error => "error"@,
            Severity::Trace => "trace"@,
        }
    }

    pub fn label(self) -> (r: &'static str)
        ensures
            r@ == self.spec_label(),
    {
        match self {
            Severity::Info => "info",
            Severity::Warning => "warning",
            Severity::Error => "error",
            Severity::Trace => "trace",
        }
    }
}

/// One message of the log.
#[derive(Debug)]
pub struct LogEntry {
    pub severity: Severity,
    pub text: String,
}

/// A log entry as a value.
pub type Entry = (Severity, Seq<char>);

impl LogEntry {
    pub open spec fn value(self) -> Entry {
        (self.severity, self.text@)
    }
}

/// The number of entries the log holds at most.
pub const MAX_ENTRIES: usize = 1000;

/// Messages of the session, oldest first, and how many of them have been reviewed.
pub struct MessageLog {
    entries: VecDeque<LogEntry>,
    seen_up_to: usize,
}

/// How many entries of `es` have severity `sev`.
pub open spec fn count_of(es: Seq<Entry>, sev: Severity) -> nat
    decreases es.len(),
{
    if es.len() == 0 {
        0
    } else {
        count_of(es.drop_last(), sev) + if es.last().0 == sev {
            1nat
        } else {
            0nat
        }
    }
}

/// `word`, with an `s` behind it unless `n` is one.
pub open spec fn plural(n: nat, word: Seq<char>, words: Seq<char>) -> Seq<char> {
    if n == 1 {
        word
    } else {
        words
    }
}

/// "`n` error(s)".
pub open spec fn errors_text(n: nat) -> Seq<char> {
    decimal(n) + " "@ + plural(n, "error"@, "errors"@)
}

/// "`n` warning(s)".
pub open spec fn warnings_text(n: nat) -> Seq<char> {
    decimal(n) + " "@ + plural(n, "warning"@, "warnings"@)
}

/// The statusline summary for `e` errors and `w` warnings that are unseen.
pub open spec fn summary(e: nat, w: nat) -> Option<Seq<char>> {
    let hint = " — :messages for details"@;
    if e == 0 && w == 0 {
        None
    } else if w == 0 {
        Some(errors_text(e) + hint)
    } else if e == 0 {
        Some(warnings_text(w) + hint)
    } else {
        Some(errors_text(e) + ", "@ + warnings_text(w) + hint)
    }
}

/// One line per entry: the severity in brackets, a space, the text.
pub open spec fn display(es: Seq<Entry>) -> Seq<char>
    decreases es.len(),
{
    if es.len() == 0 {
        Seq::empty()
    } else {
        let e = es.last();
        display(es.drop_last()) + ("["@ + e.0.spec_label() + "] "@ + e.1 + "\n"@)
    }
}

/// The newest `MAX_ENTRIES` of `es` followed by `e`.
pub open spec fn pushed(es: Seq<Entry>, e: Entry) -> Seq<Entry> {
    if es.len() == MAX_ENTRIES {
        es.drop_first().push(e)
    } else {
        es.push(e)
    }
}

fn errors_string(n: usize) -> (r: String)
    ensures
        r@ == errors_text(n as nat),
{
    concat3(decimal_string(n).as_str(), " ", if n == 1 { "error" } else { "errors" })
}

fn warnings_string(n: usize) -> (r: String)
    ensures
        r@ == warnings_text(n as nat),
{
    concat3(decimal_string(n).as_str(), " ", if n == 1 { "warning" } else { "warnings" })
}

impl MessageLog {
    #[verifier::type_invariant]
    spec fn inv(self) -> bool {
        self.seen_up_to <= self.entries@.len() <= MAX_ENTRIES
    }

    /// All entries, oldest first.
    pub closed spec fn all(&self) -> Seq<Entry> {
        self.entries@.map_values(|e: LogEntry| e.value())
    }

    /// How many of the oldest entries have been reviewed.
    pub closed spec fn seen(&self) -> nat {
        self.seen_up_to as nat
    }

    /// The entries that have not been reviewed.
    pub open spec fn unseen(&self) -> Seq<Entry> {
        self.all().skip(self.seen() as int)
    }

    pub fn new() -> (r: Self)
        ensures
            r.all() == Seq::<Entry>::empty(),
            r.seen() == 0,
    {
        let r = MessageLog { entries: VecDeque::new(), seen_up_to: 0 };
        assert(r.all() =~= Seq::empty());
        r
    }

    /// Appends an entry. When the log is full the oldest one leaves.
    pub fn push(&mut self, severity: Severity, text: String)
        ensures
            final(self).all() == pushed(old(self).all(), (severity, text@)),
            final(self).seen() == (if old(self).all().len() == MAX_ENTRIES && old(self).seen() > 0 {
                (old(self).seen() - 1) as nat
            } else {
                old(self).seen()
            }),
            final(self).all().len() <= MAX_ENTRIES,
    {
        proof {
            use_type_invariant(&*self);
        }
        let mut seen: usize = self.seen_up_to;
        self.seen_up_to = 0;
        let mut entries: VecDeque<LogEntry> = VecDeque::new();
        std::mem::swap(&mut entries, &mut self.entries);
        if entries.len() == MAX_ENTRIES {
            let _ = entries.pop_front();
            if seen > 0 {
                seen = seen - 1;
            }
        }
        entries.push_back(LogEntry { severity, text });
        *self = MessageLog { entries, seen_up_to: seen };
        assert(self.all() =~= pushed(old(self).all(), (severity, text@)));
    }

    /// The entries in chronological order.
    pub fn entries(&self) -> (r: Vec<&LogEntry>)
        ensures
            r@.map_values(|e: &LogEntry| e.value()) == self.all(),
    {
        let mut r: Vec<&LogEntry> = Vec::new();
        let n = self.entries.len();
        let mut i: usize = 0;
        while i < n
            invariant
                i <= n == self.entries@.len(),
                r@.len() == i,
                forall|j: int| 0 <= j < i ==> *(#[trigger] r@[j]) == self.entries@[j],
            decreases n - i,
        {
            r.push(&self.entries[i]);
            i = i + 1;
        }
        assert(r@.map_values(|e: &LogEntry| e.value()) =~= self.all());
        r
    }

    /// Whether an entry has not been reviewed yet.
    pub fn has_unseen(&self) -> (r: bool)
        ensures
            r == (self.unseen().len() > 0),
    {
        proof {
            use_type_invariant(self);
        }
        self.seen_up_to < self.entries.len()
    }

    /// How many unseen entries are errors, and how many warnings.
    pub fn unseen_counts(&self) -> (r: (usize, usize))
        ensures
            r.0 == count_of(self.unseen(), Severity::Error),
            r.1 == count_of(self.unseen(), Severity::Warning),
    {
        proof {
            use_type_invariant(self);
        }
        let mut errors: usize = 0;
        let mut warnings: usize = 0;
        let n = self.entries.len();
        let mut i: usize = self.seen_up_to;
        assert(self.unseen().take(0) =~= Seq::empty());
        while i < n
            invariant
                self.seen_up_to <= i <= n,
                n == self.entries@.len(),
                errors <= i - self.seen_up_to,
                warnings <= i - self.seen_up_to,
                errors == count_of(self.unseen().take(i - self.seen_up_to), Severity::Error),
                warnings == count_of(self.unseen().take(i - self.seen_up_to), Severity::Warning),
            decreases n - i,
        {
            let ghost k = i - self.seen_up_to;
            assert(self.unseen().take(k + 1).drop_last() =~= self.unseen().take(k));
            assert(self.unseen().take(k + 1).last() == self.entries@[i as int].value());
            match self.entries[i].severity {
                Severity::Error => {
                    errors = errors + 1;
                },
                Severity::Warning => {
                    warnings = warnings + 1;
                },
                _ => {},
            }
            i = i + 1;
        }
        assert(self.unseen().take(n - self.seen_up_to) =~= self.unseen());
        (errors, warnings)
    }

    /// Marks every entry as reviewed.
    pub fn mark_all_seen(&mut self)
        ensures
            final(self).all() == old(self).all(),
            final(self).seen() == old(self).all().len(),
    {
        proof {
            use_type_invariant(&*self);
        }
        self.seen_up_to = self.entries.len();
    }

    /// The one-line summary of what is unseen; `None` when nothing but traces is.
    pub fn summary_text(&self) -> (r: Option<String>)
        ensures
            (match r {
                Some(t) => Some(t@),
                None => None,
            }) == summary(
                count_of(self.unseen(), Severity::Error),
                count_of(self.unseen(), Severity::Warning),
            ),
    {
        let (errors, warnings) = self.unseen_counts();
        let hint = " — :messages for details";
        if errors == 0 && warnings == 0 {
            None
        } else if warnings == 0 {
            Some(concat2(errors_string(errors).as_str(), hint))
        } else if errors == 0 {
            Some(concat2(warnings_string(warnings).as_str(), hint))
        } else {
            let both = concat3(
                errors_string(errors).as_str(),
                ", ",
                warnings_string(warnings).as_str(),
            );
            Some(concat2(both.as_str(), hint))
        }
    }

    /// The whole log, one line per entry.
    pub fn format_for_display(&self) -> (r: String)
        ensures
            r@ == display(self.all()),
    {
        let mut out = String::new();
        let n = self.entries.len();
        let mut i: usize = 0;
        assert(self.all().take(0) =~= Seq::empty());
        while i < n
            invariant
                i <= n == self.entries@.len(),
                out@ == display(self.all().take(i as int)),
            decreases n - i,
        {
            let ghost before = out@;
            proof {
                assert(self.all().take(i + 1).drop_last() =~= self.all().take(i as int));
                assert(self.all().take(i + 1).last() == self.entries@[i as int].value());
            }
            let entry = &self.entries[i];
            let label = entry.severity.label();
            out.append("[");
            out.append(label);
            out.append("] ");
            out.append(entry.text.as_str());
            out.append("\n");
            assert(out@ =~= before + ("["@ + entry.severity.spec_label() + "] "@ + entry.text@
                + "\n"@));
            i = i + 1;
        }
        assert(self.all().take(n as int) =~= self.all());
        out
    }
}

/// After everything was marked as seen, nothing is unseen, and only what is pushed later
/// becomes unseen again: exactly the new entry after one push.
pub proof fn law_push_after_mark_is_unseen(es: Seq<Entry>, e: Entry)
    requires
        es.len() <= MAX_ENTRIES,
    ensures
        es.skip(es.len() as int).len() == 0,
        pushed(es, e).skip(
            if es.len() == MAX_ENTRIES {
                es.len() - 1
            } else {
                es.len() as int
            },
        ) == seq![e],
{
    assert(pushed(es, e).skip(pushed(es, e).len() - 1) =~= seq![e]);
}

/// A read-only text shown in place of the document, with its cursor.
pub struct ScratchView {
    pub buf: Text,
    pub sels: SelectionSet,
    pub label: &'static str,
}

/// The last line of `text` with content: the last but one, as the final line feed opens
/// an empty line.
pub open spec fn last_content_line(text: Seq<char>) -> nat {
    if newlines(text) + 1 >= 2 {
        (newlines(text) - 1) as nat
    } else {
        0
    }
}

impl ScratchView {
    /// A view of `text` with the cursor at the start of its last line.
    pub fn from_text(text: &str, label: &'static str) -> (r: Self)
        ensures
            r.buf@ == closed_lines(without_cr(text@)),
            r.buf.spec_line_ending() == ending_of(text@),
            r.label@ == label@,
            r.sels@ == Sels::single(
                Selection {
                    anchor: line_start(r.buf@, last_content_line(r.buf@)) as usize,
                    head: line_start(r.buf@, last_content_line(r.buf@)) as usize,
                },
            ),
            line_start(r.buf@, last_content_line(r.buf@)) <= usize::MAX,
    {
        let buf = Text::from(text);
        let lines = buf.len_lines();
        let last_line: usize = if lines >= 2 {
            lines - 2
        } else {
            0
        };
        let last_char = buf.line_to_char(last_line);
        let sels = SelectionSet::single(Selection::collapsed(last_char));
        ScratchView { buf, sels, label }
    }

    /// A view of `text` with the cursor at the start of `line`, or of the last line where
    /// there is no such line.
    pub fn from_text_at_line(text: &str, label: &'static str, line: usize) -> (r: Self)
        ensures
            r.buf@ == closed_lines(without_cr(text@)),
            r.buf.spec_line_ending() == ending_of(text@),
            r.label@ == label@,
            ({
                let last = last_content_line(r.buf@);
                let target = if line <= last {
                    line as nat
                } else {
                    last
                };
                &&& line_start(r.buf@, target) <= usize::MAX
                &&& r.sels@ == Sels::single(
                    Selection {
                        anchor: line_start(r.buf@, target) as usize,
                        head: line_start(r.buf@, target) as usize,
                    },
                )
            }),
    {
        let buf = Text::from(text);
        let lines = buf.len_lines();
        let last_content: usize = if lines >= 2 {
            lines - 2
        } else {
            0
        };
        let target_line: usize = if line <= last_content {
            line
        } else {
            last_content
        };
        let char_pos = buf.line_to_char(target_line);
        let sels = SelectionSet::single(Selection::collapsed(char_pos));
        ScratchView { buf, sels, label }
    }
}

/// The log holds the newest thousand messages, in the order in which they came.
pub proof fn law_log_keeps_the_newest(es: Seq<Entry>, e: Entry)
    requires
        es.len() <= 1000,
    ensures
        pushed(es, e).len() <= 1000,
        pushed(es, e).last() == e,
        es.len() < 1000 ==> pushed(es, e) == es + seq![e],
        es.len() == 1000 ==> pushed(es, e) == es.subrange(1, 1000) + seq![e],
{
    if es.len() == 1000 {
        assert(pushed(es, e) =~= es.subrange(1, 1000) + seq![e]);
    } else {
        assert(pushed(es, e) =~= es + seq![e]);
    }
}

/// Messages of one severity are counted wherever they stand, and no others are.
pub proof fn law_counts_add_up(a: Seq<Entry>, b: Seq<Entry>, e: Entry, sev: Severity)
    ensures
        count_of(a + b, sev) == count_of(a, sev) + count_of(b, sev),
        e.0 == sev ==> count_of(seq![e], sev) == 1,
        e.0 != sev ==> count_of(seq![e], sev) == 0,
    decreases b.len(),
{
    assert(seq![e].drop_last() =~= Seq::<Entry>::empty());
    assert(count_of(Seq::<Entry>::empty(), sev) == 0);
    if b.len() == 0 {
        assert(a + b =~= a);
    } else {
        assert((a + b).drop_last() =~= a + b.drop_last());
        law_counts_add_up(a, b.drop_last(), e, sev);
    }
}

/// The summary names the number of errors and of warnings, each in the singular where
/// there is one and left out where there is none. Where there is neither there is no
/// summary.
pub proof fn law_summary_wording(e: nat, w: nat)
    ensures
        summary(0, 0) is None,
        summary(1, 0) == Some("1 error — :messages for details"@),
        summary(0, 1) == Some("1 warning — :messages for details"@),
        e > 1 ==> summary(e, 0) == Some(decimal(e) + " errors — :messages for details"@),
        w > 1 ==> summary(0, w) == Some(decimal(w) + " warnings — :messages for details"@),
        summary(1, 1) == Some("1 error, 1 warning — :messages for details"@),
        e > 1 && w > 1 ==> summary(e, w) == Some(
            decimal(e) + " errors, "@ + decimal(w) + " warnings — :messages for details"@,
        ),
        e > 1 ==> summary(e, 1) == Some(
            decimal(e) + " errors, 1 warning — :messages for details"@,
        ),
        w > 1 ==> summary(1, w) == Some(
            "1 error, "@ + decimal(w) + " warnings — :messages for details"@,
        ),
{
    reveal_strlit(" ");
    reveal_strlit(", ");
    reveal_strlit("error");
    reveal_strlit("errors");
    reveal_strlit("warning");
    reveal_strlit("warnings");
    reveal_strlit(" — :messages for details");
    reveal_strlit("1 error — :messages for details");
    reveal_strlit("1 warning — :messages for details");
    reveal_strlit(" errors — :messages for details");
    reveal_strlit(" warnings — :messages for details");
    reveal_strlit("1 error, 1 warning — :messages for details");
    reveal_strlit(" errors, 1 warning — :messages for details");
    reveal_strlit(" errors, ");
    reveal_strlit("1 error, ");
    assert(decimal(1) =~= seq!['1']);
    assert(summary(1, 0)->0 =~= "1 error — :messages for details"@);
    assert(summary(0, 1)->0 =~= "1 warning — :messages for details"@);
    assert(summary(1, 1)->0 =~= "1 error, 1 warning — :messages for details"@);
    if e > 1 {
        assert(summary(e, 0)->0 =~= decimal(e) + " errors — :messages for details"@);
        assert(summary(e, 1)->0 =~= decimal(e) + " errors, 1 warning — :messages for details"@);
    }
    if w > 1 {
        assert(summary(0, w)->0 =~= decimal(w) + " warnings — :messages for details"@);
        assert(summary(1, w)->0 =~= "1 error, "@ + decimal(w)
            + " warnings — :messages for details"@);
    }
    if e > 1 && w > 1 {
        assert(summary(e, w)->0 =~= decimal(e) + " errors, "@ + decimal(w)
            + " warnings — :messages for details"@);
    }
}

/// The log is shown oldest message first, each on a line of its own behind its severity
/// in brackets.
pub proof fn law_lines_of_the_log(a: Seq<Entry>, b: Seq<Entry>, text: Seq<char>)
    ensures
        display(a + b) == display(a) + display(b),
        display(seq![(Severity::Info, text)]) == "[info] "@ + text + "\n"@,
        display(seq![(Severity::Warning, text)]) == "[warning] "@ + text + "\n"@,
        display(seq![(Severity::Error, text)]) == "[error] "@ + text + "\n"@,
        display(seq![(Severity::Trace, text)]) == "[trace] "@ + text + "\n"@,
    decreases b.len(),
{
    reveal_strlit("[");
    reveal_strlit("] ");
    reveal_strlit("info");
    reveal_strlit("warning");
    reveal_strlit("error");
    reveal_strlit("trace");
    reveal_strlit("[info] ");
    reveal_strlit("[warning] ");
    reveal_strlit("[error] ");
    reveal_strlit("[trace] ");
    assert(display(Seq::<Entry>::empty()) =~= Seq::empty());
    assert(seq![(Severity::Info, text)].drop_last() =~= Seq::<Entry>::empty());
    assert(seq![(Severity::Warning, text)].drop_last() =~= Seq::<Entry>::empty());
    assert(seq![(Severity::Error, text)].drop_last() =~= Seq::<Entry>::empty());
    assert(seq![(Severity::Trace, text)].drop_last() =~= Seq::<Entry>::empty());
    assert(display(seq![(Severity::Info, text)]) =~= "[info] "@ + text + "\n"@);
    assert(display(seq![(Severity::Warning, text)]) =~= "[warning] "@ + text + "\n"@);
    assert(display(seq![(Severity::Error, text)]) =~= "[error] "@ + text + "\n"@);
    assert(display(seq![(Severity::Trace, text)]) =~= "[trace] "@ + text + "\n"@);
    if b.len() == 0 {
        assert(a + b =~= a);
        assert(display(a) + display(b) =~= display(a));
    } else {
        assert((a + b).drop_last() =~= a + b.drop_last());
        law_lines_of_the_log(a, b.drop_last(), text);
        assert(display(a + b) =~= display(a) + display(b));
    }
}

/// The cursor of a shown text stands behind the line feed of the last line but one: the
/// line that it stands on has content and is the last that does.
pub proof fn law_shown_text_ends_at_its_last_line(above: Seq<char>, line: Seq<char>)
    requires
        above.len() > 0 ==> above.last() == '\n',
        !line.contains('\n'),
    ensures
        line_start(above + line + seq!['\n'], last_content_line(above + line + seq!['\n']))
            == above.len(),
{
    law_newlines_add_up(above, line);
    law_newlines_add_up(above + line, seq!['\n']);
    assert(seq!['\n'].drop_last() =~= Seq::<char>::empty());
    assert(newlines(seq!['\n']) == 1);
    lemma_no_newlines(line);
    if above.len() > 0 {
        law_line_begins_behind_a_line_feed(above, line + seq!['\n']);
        assert(above + (line + seq!['\n']) =~= above + line + seq!['\n']);
    } else {
        assert(newlines(above) == 0);
    }
}

proof fn lemma_no_newlines(s: Seq<char>)
    requires
        !s.contains('\n'),
    ensures
        newlines(s) == 0,
    decreases s.len(),
{
    if s.len() > 0 {
        assert(s[s.len() - 1] == s.last());
        assert(!s.drop_last().contains('\n')) by {
            if s.drop_last().contains('\n') {
                let i = choose|i: int| 0 <= i < s.len() - 1 && s.drop_last()[i] == '\n';
                assert(s[i] == '\n');
            }
        }
        lemma_no_newlines(s.drop_last());
    }
}

} // verus!

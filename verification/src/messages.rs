//! Where messages go: the status line, the log, or both.

use crate::message_log::{pushed, Entry, MessageLog, Severity, MAX_ENTRIES};
use vstd::prelude::*;
use vstd::string::*;

verus! {

/// Why a command could not be carried out.
#[derive(Debug)]
pub struct CommandError {
    pub message: String,
}

impl CommandError {
    pub fn new(message: &str) -> (r: CommandError)
        ensures
            r.message@ == message@,
    {
        CommandError { message: message.to_owned() }
    }

    pub fn message(&self) -> (r: &str)
        ensures
            r@ == self.message@,
    {
        self.message.as_str()
    }
}

/// A command failed, with this message.
pub open spec fn fails<T>(r: Result<T, CommandError>, message: Seq<char>) -> bool {
    r is Err && r->Err_0.message@ == message
}

/// The log and the line that is shown until the next key.
pub struct Messages {
    pub log: MessageLog,
    pub status_msg: Option<String>,
}

/// The log and the status line, as values.
#[verifier::ext_equal]
pub struct Shown {
    pub entries: Seq<Entry>,
    /// How many of the oldest entries have been reviewed.
    pub seen: nat,
    pub status: Option<Seq<char>>,
}

impl Shown {
    /// What a message changes. `Info` is only shown, `Trace` is only logged, warnings and
    /// errors are both.
    pub open spec fn reported(self, severity: Severity, text: Seq<char>) -> Shown {
        Shown {
            entries: if severity == Severity::Info {
                self.entries
            } else {
                pushed(self.entries, (severity, text))
            },
            seen: if severity != Severity::Info && self.entries.len() == MAX_ENTRIES && self.seen
                > 0 {
                (self.seen - 1) as nat
            } else {
                self.seen
            },
            status: if severity == Severity::Trace {
                self.status
            } else {
                Some(text)
            },
        }
    }

    /// What a message changes that is only logged.
    pub open spec fn logged(self, severity: Severity, text: Seq<char>) -> Shown {
        Shown {
            entries: pushed(self.entries, (severity, text)),
            seen: if self.entries.len() == MAX_ENTRIES && self.seen > 0 {
                (self.seen - 1) as nat
            } else {
                self.seen
            },
            status: self.status,
        }
    }

    /// A list of messages, one after the other.
    pub open spec fn reported_all(self, ms: Seq<Entry>) -> Shown
        decreases ms.len(),
    {
        if ms.len() == 0 {
            self
        } else {
            self.reported_all(ms.drop_last()).reported(ms.last().0, ms.last().1)
        }
    }
}

impl View for Messages {
    type V = Shown;

    open spec fn view(&self) -> Shown {
        Shown {
            entries: self.log.all(),
            seen: self.log.seen(),
            status: match self.status_msg {
                Some(s) => Some(s@),
                None => None,
            },
        }
    }
}

impl Messages {
    pub fn new() -> (r: Messages)
        ensures
            r@ == (Shown { entries: Seq::empty(), seen: 0, status: None }),
    {
        Messages { log: MessageLog::new(), status_msg: None }
    }

    /// Reports a message.
    pub fn report(&mut self, severity: Severity, text: String)
        ensures
            final(self)@ == old(self)@.reported(severity, text@),
    {
        match severity {
            Severity::Info => {
                self.status_msg = Some(text);
            },
            Severity::Warning => {
                self.log.push(severity, text.clone());
                self.status_msg = Some(text);
            },
            Severity::Error => {
                self.log.push(severity, text.clone());
                self.status_msg = Some(text);
            },
            Severity::Trace => {
                self.log.push(severity, text);
            },
        }
    }

    /// Puts a message in the log alone.
    pub fn log_only(&mut self, severity: Severity, text: String)
        ensures
            final(self)@ == old(self)@.logged(severity, text@),
    {
        self.log.push(severity, text);
    }

    /// Reports why a command failed, where it did.
    pub fn report_failure(&mut self, r: Result<(), CommandError>)
        ensures
            final(self)@ == (match r {
                Ok(_) => old(self)@,
                Err(e) => old(self)@.reported(Severity::Error, e.message@),
            }),
    {
        match r {
            Ok(_) => {},
            Err(e) => self.report(Severity::Error, e.message),
        }
    }

    /// The status line is cleared by the next key.
    pub fn clear_status(&mut self)
        ensures
            final(self)@ == (Shown { status: None, ..old(self)@ }),
            final(self).log == old(self).log,
    {
        self.status_msg = None;
    }
}

/// Mere information is shown and not kept; a trace is kept and not shown; warnings and
/// errors are both.
pub proof fn law_what_is_kept(m: Shown, text: Seq<char>)
    ensures
        m.reported(Severity::Info, text) == (Shown { status: Some(text), ..m }),
        m.reported(Severity::Trace, text).status == m.status,
        m.reported(Severity::Trace, text).entries.last() == (Severity::Trace, text),
        m.reported(Severity::Warning, text).status == Some(text),
        m.reported(Severity::Warning, text).entries.last() == (Severity::Warning, text),
        m.reported(Severity::Error, text).status == Some(text),
        m.reported(Severity::Error, text).entries.last() == (Severity::Error, text),
{
}

/// A message that goes into the log waits to be reviewed behind those that wait already,
/// also where the oldest message leaves the log for it.
pub proof fn law_logged_messages_wait(m: Shown, severity: Severity, text: Seq<char>)
    requires
        m.seen <= m.entries.len() <= 1000,
        m.seen > 0 || m.entries.len() < 1000,
    ensures
        severity != Severity::Info ==> ({
            let r = m.reported(severity, text);
            r.entries.skip(r.seen as int) == m.entries.skip(m.seen as int) + seq![(severity, text)]
        }),
        ({
            let r = m.logged(severity, text);
            r.entries.skip(r.seen as int) == m.entries.skip(m.seen as int) + seq![(severity, text)]
        }),
        m.logged(severity, text).status == m.status,
{
    let r = m.logged(severity, text);
    assert(r.entries.skip(r.seen as int) =~= m.entries.skip(m.seen as int) + seq![
        (severity, text),
    ]);
    let r2 = m.reported(severity, text);
    if severity != Severity::Info {
        assert(r2.entries.skip(r2.seen as int) =~= m.entries.skip(m.seen as int) + seq![
            (severity, text),
        ]);
    }
}

/// Several messages are reported in their order, and the last of them that is shown is
/// what the status line holds.
pub proof fn law_messages_come_in_order(m: Shown, first: Seq<Entry>, second: Seq<Entry>)
    ensures
        m.reported_all(Seq::empty()) == m,
        m.reported_all(first + second) == m.reported_all(first).reported_all(second),
        forall|e: Entry| #[trigger]
            m.reported_all(seq![e]) == m.reported(e.0, e.1),
    decreases second.len(),
{
    assert forall|e: Entry| #[trigger] m.reported_all(seq![e]) == m.reported(e.0, e.1) by {
        assert(seq![e].drop_last() =~= Seq::<Entry>::empty());
        assert(m.reported_all(Seq::empty()) == m);
    }
    if second.len() == 0 {
        assert(first + second =~= first);
    } else {
        assert((first + second).drop_last() =~= first + second.drop_last());
        law_messages_come_in_order(m, first, second.drop_last());
    }
}

} // verus!

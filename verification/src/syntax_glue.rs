//! Highlighting: which buffers have a grammar, and when they are parsed.

use crate::buffer::{line_prefix, Buffer, BufferSyntax, FIRST_LINE_CAP};
use crate::buffer_store::{BufferId, BufferStore};
use crate::message_log::Severity;
use crate::messages::Messages;
use crate::parse_worker::{
    answered, InFlight, ParseDone, ParseOutcome, ParseRequest, ParseTracker, Request,
};
use crate::paths::Separators;
use crate::registers::texts;
use crate::strings::{byte_len, concat2, str_eq};
use crate::syntax::{
    detect_language, globs_error, globs_of, identity, patterns, with_language, Lang,
    LanguageRegistry,
};
use vstd::prelude::*;
use vstd::string::*;
use vstd::utf8::encode_utf8;

verus! {

/// The buffers, what the worker owes, and the requests that are to be sent to it.
#[verifier::ext_equal]
pub struct Parsing {
    pub buffers: Map<u64, Buffer>,
    pub pending: Map<u64, InFlight>,
    pub requests: Seq<Request>,
}

/// The grammar of a buffer's language.
pub open spec fn grammar_for(languages: LanguageRegistry, b: Buffer) -> Option<u64> {
    match b.language {
        Some(n) => match languages.language(n@) {
            Some(l) => l.grammar,
            None => None,
        },
        None => None,
    }
}

/// The request to parse a buffer.
pub open spec fn request_for(id: u64, b: Buffer, grammar: u64) -> Request {
    Request { bid: id, text_gen: b.text_gen, lang: grammar, source: encode_utf8(b.doc()) }
}

impl Parsing {
    pub open spec fn with_syntax(self, id: u64, s: Option<BufferSyntax>) -> Parsing {
        Parsing { buffers: self.buffers.insert(id, Buffer { syntax: s, ..self.buffers[id] }), ..self }
    }

    /// The buffer is parsed anew from the start, where its language has a grammar and it is
    /// not too large; otherwise it has no highlighting.
    pub open spec fn set_up(self, id: u64, languages: LanguageRegistry, max: nat) -> Parsing {
        let b = self.buffers[id];
        let p = Parsing { pending: self.pending.remove(id), ..self };
        match grammar_for(languages, b) {
            Some(g) => if byte_len(b.doc()) <= max {
                let q = p.with_syntax(id, Some(BufferSyntax { grammar: g, parsed_gen: None }));
                Parsing { requests: p.requests.push(request_for(id, b, g)), ..q }
            } else {
                p.with_syntax(id, None)
            },
            None => p.with_syntax(id, None),
        }
    }

    /// The buffer is parsed again where its text has changed and no answer for that text is
    /// on its way. It loses its highlighting where it has become too large, and gets it
    /// where it can have it.
    pub open spec fn reparsed(self, id: u64, languages: LanguageRegistry, max: nat) -> Parsing {
        let b = self.buffers[id];
        match b.syntax {
            Some(s) => if byte_len(b.doc()) > max {
                Parsing { pending: self.pending.remove(id), ..self.with_syntax(id, None) }
            } else if s.parsed_gen == Some(b.text_gen) || (self.pending.contains_key(id)
                && self.pending[id].text_gen == b.text_gen) {
                self
            } else {
                Parsing { requests: self.requests.push(request_for(id, b, s.grammar)), ..self }
            },
            None => if byte_len(b.doc()) <= max && grammar_for(languages, b) is Some {
                self.set_up(id, languages, max)
            } else {
                self
            },
        }
    }

    pub open spec fn reparsed_all(
        self,
        ids: Seq<u64>,
        languages: LanguageRegistry,
        max: nat,
    ) -> Parsing
        decreases ids.len(),
    {
        if ids.len() == 0 {
            self
        } else {
            self.reparsed_all(ids.drop_last(), languages, max).reparsed(
                ids.last(),
                languages,
                max,
            )
        }
    }

    /// An answer of the worker. It counts where the buffer still has that grammar and that
    /// text.
    pub open spec fn installed(self, d: ParseDone) -> Parsing {
        let b = self.buffers[d.bid.0];
        let p = Parsing {
            pending: answered(self.pending, d.bid.0, d.text_gen, d.lang),
            ..self
        };
        match b.syntax {
            Some(s) => if s.grammar == d.lang && b.text_gen == d.text_gen {
                match d.outcome {
                    ParseOutcome::Parsed => p.with_syntax(
                        d.bid.0,
                        Some(BufferSyntax { parsed_gen: Some(d.text_gen), ..s }),
                    ),
                    ParseOutcome::ParseFailed => p,
                    ParseOutcome::Rejected => p.with_syntax(d.bid.0, None),
                }
            } else {
                p
            },
            None => p,
        }
    }

    pub open spec fn installed_all(self, ds: Seq<ParseDone>) -> Parsing
        decreases ds.len(),
    {
        if ds.len() == 0 {
            self
        } else {
            self.installed_all(ds.drop_last()).installed(ds.last())
        }
    }

    /// The buffers `ids` whose language is one of `names` are set up.
    pub open spec fn swept(
        self,
        ids: Seq<u64>,
        names: Seq<Seq<char>>,
        languages: LanguageRegistry,
        max: nat,
    ) -> Parsing
        decreases ids.len(),
    {
        if ids.len() == 0 {
            self
        } else {
            let p = self.swept(ids.drop_last(), names, languages, max);
            match self.buffers[ids.last()].language {
                Some(n) => if names.contains(n@) {
                    p.set_up(ids.last(), languages, max)
                } else {
                    p
                },
                None => p,
            }
        }
    }
}

/// Each of `s` once, where it occurs first.
pub open spec fn firsts(s: Seq<u64>) -> Seq<u64>
    decreases s.len(),
{
    if s.len() == 0 {
        s
    } else {
        let t = firsts(s.drop_last());
        if t.contains(s.last()) {
            t
        } else {
            t.push(s.last())
        }
    }
}

/// The identifiers of a list of buffers.
pub open spec fn ids_of(v: Seq<BufferId>) -> Seq<u64> {
    v.map_values(|b: BufferId| b.0)
}

/// The requests of a list as values.
pub open spec fn requests_of(v: Seq<ParseRequest>) -> Seq<Request> {
    v.map_values(|r: ParseRequest| r@)
}

/// Setting up a buffer changes neither its text nor its language, and no other buffer.
pub proof fn law_set_up_keeps_text(p: Parsing, id: u64, languages: LanguageRegistry, max: nat)
    requires
        p.buffers.contains_key(id),
    ensures
        ({
            let q = p.set_up(id, languages, max);
            &&& q.buffers.dom() == p.buffers.dom()
            &&& forall|k: u64| k != id ==> #[trigger] q.buffers[k] == p.buffers[k]
            &&& q.buffers[id] == (Buffer { syntax: q.buffers[id].syntax, ..p.buffers[id] })
        }),
{
    let q = p.set_up(id, languages, max);
    assert(q.buffers.dom() =~= p.buffers.dom());
}

/// Setting up a buffer a second time changes neither the buffers nor what is on its way.
pub proof fn law_set_up_again(p: Parsing, id: u64, languages: LanguageRegistry, max: nat)
    requires
        p.buffers.contains_key(id),
    ensures
        ({
            let q = p.set_up(id, languages, max);
            &&& q.set_up(id, languages, max).buffers == q.buffers
            &&& q.set_up(id, languages, max).pending == q.pending
        }),
{
    let q = p.set_up(id, languages, max);
    let r = q.set_up(id, languages, max);
    assert(r.buffers =~= q.buffers);
    assert(r.pending =~= q.pending);
}

/// An answer for a text that has changed since, or with a grammar that has been replaced,
/// changes no buffer.
pub proof fn law_stale_answer_is_dropped(p: Parsing, d: ParseDone)
    requires
        p.buffers.contains_key(d.bid.0),
        p.buffers[d.bid.0].text_gen != d.text_gen || !(p.buffers[d.bid.0].syntax matches Some(s)
            && s.grammar == d.lang),
    ensures
        p.installed(d).buffers == p.buffers,
{
}

/// Once the answer for the current text is in, the buffer is not parsed again.
pub proof fn law_parsed_is_current(
    p: Parsing,
    d: ParseDone,
    languages: LanguageRegistry,
    max: nat,
)
    requires
        p.buffers.contains_key(d.bid.0),
        p.buffers[d.bid.0].text_gen == d.text_gen,
        p.buffers[d.bid.0].syntax matches Some(s) && s.grammar == d.lang,
        d.outcome == ParseOutcome::Parsed,
        byte_len(p.buffers[d.bid.0].doc()) <= max,
    ensures
        p.installed(d).reparsed(d.bid.0, languages, max) == p.installed(d),
{
}

fn set_syntax(buffers: &mut BufferStore, id: BufferId, s: Option<BufferSyntax>)
    requires
        old(buffers)@.contains_key(id.0),
    ensures
        final(buffers)@ == old(buffers)@.insert(
            id.0,
            Buffer { syntax: s, ..old(buffers)@[id.0] },
        ),
        final(buffers).opened() == old(buffers).opened(),
        final(buffers).used() == old(buffers).used(),
{
    let ghost o = buffers@;
    let mut b = Buffer::scratch();
    buffers.swap(id, &mut b);
    b.syntax = s;
    let ghost n = b;
    buffers.swap(id, &mut b);
    assert(buffers@ =~= o.insert(id.0, n));
}

fn find_grammar(languages: &LanguageRegistry, b: &Buffer) -> (r: Option<u64>)
    ensures
        r == grammar_for(*languages, *b),
{
    match &b.language {
        Some(n) => languages.grammar_of(n.as_str()),
        None => None,
    }
}

fn make_request(id: BufferId, b: &Buffer, grammar: u64) -> (r: ParseRequest)
    ensures
        r@ == request_for(id.0, *b, grammar),
{
    let source = b.text.to_string();
    let bytes = source.as_str().as_bytes_vec();
    ParseRequest { bid: id, text_gen: b.text_gen, lang: grammar, source_bytes: bytes }
}

/// Sets highlighting up for a buffer, and gives the request to parse it; see
/// [`Parsing::set_up`].
pub fn setup_buffer_syntax(
    buffers: &mut BufferStore,
    worker: &mut ParseTracker,
    languages: &LanguageRegistry,
    id: BufferId,
    max_bytes: usize,
) -> (r: Option<ParseRequest>)
    requires
        old(buffers)@.contains_key(id.0),
    ensures
        ({
            let p = Parsing {
                buffers: old(buffers)@,
                pending: old(worker).pending(),
                requests: Seq::empty(),
            }.set_up(id.0, *languages, max_bytes as nat);
            &&& final(buffers)@ == p.buffers
            &&& final(worker).pending() == p.pending
            &&& match r {
                Some(q) => p.requests == seq![q@],
                None => p.requests.len() == 0,
            }
        }),
        final(buffers).opened() == old(buffers).opened(),
        final(buffers).used() == old(buffers).used(),
        *final(worker) == (ParseTracker { in_flight: final(worker).in_flight, ..*old(worker) }),
{
    worker.remove_in_flight(id);
    let grammar = find_grammar(languages, buffers.get(id));
    let size = buffers.get(id).text.len_bytes();
    match grammar {
        Some(g) => {
            if size <= max_bytes {
                let request = make_request(id, buffers.get(id), g);
                set_syntax(
                    buffers,
                    id,
                    Some(BufferSyntax { grammar: g, parsed_gen: None }),
                );
                assert(Seq::<Request>::empty().push(request@) =~= seq![request@]);
                Some(request)
            } else {
                set_syntax(buffers, id, None);
                None
            }
        },
        None => {
            set_syntax(buffers, id, None);
            None
        },
    }
}

/// Takes an answer of the worker in; see [`Parsing::installed`]. The result tells whether
/// its tree is shown from now on.
pub fn install_parse_done(
    buffers: &mut BufferStore,
    worker: &mut ParseTracker,
    done: &ParseDone,
) -> (r: bool)
    requires
        old(buffers)@.contains_key(done.bid.0),
    ensures
        ({
            let p = Parsing {
                buffers: old(buffers)@,
                pending: old(worker).pending(),
                requests: Seq::empty(),
            }.installed(*done);
            &&& final(buffers)@ == p.buffers
            &&& final(worker).pending() == p.pending
        }),
        r == (old(buffers)@[done.bid.0].syntax matches Some(s) && s.grammar == done.lang && old(
            buffers,
        )@[done.bid.0].text_gen == done.text_gen && done.outcome == ParseOutcome::Parsed),
        final(buffers).opened() == old(buffers).opened(),
        final(buffers).used() == old(buffers).used(),
        *final(worker) == (ParseTracker { in_flight: final(worker).in_flight, ..*old(worker) }),
{
    worker.clear_in_flight_if_matches(done.bid, done.text_gen, done.lang);
    let b = buffers.get(done.bid);
    let s = match b.syntax {
        Some(s) => s,
        None => {
            return false;
        },
    };
    if s.grammar != done.lang || b.text_gen != done.text_gen {
        return false;
    }
    match done.outcome {
        ParseOutcome::Parsed => {
            set_syntax(
                buffers,
                done.bid,
                Some(BufferSyntax { grammar: s.grammar, parsed_gen: Some(done.text_gen) }),
            );
            true
        },
        ParseOutcome::ParseFailed => false,
        ParseOutcome::Rejected => {
            set_syntax(buffers, done.bid, None);
            false
        },
    }
}

fn reparse_one(
    buffers: &mut BufferStore,
    worker: &mut ParseTracker,
    languages: &LanguageRegistry,
    id: BufferId,
    max_bytes: usize,
    out: &mut Vec<ParseRequest>,
)
    requires
        old(buffers)@.contains_key(id.0),
    ensures
        (Parsing {
            buffers: final(buffers)@,
            pending: final(worker).pending(),
            requests: requests_of(final(out)@),
        }) == (Parsing {
            buffers: old(buffers)@,
            pending: old(worker).pending(),
            requests: requests_of(old(out)@),
        }).reparsed(id.0, *languages, max_bytes as nat),
        final(buffers)@.dom() == old(buffers)@.dom(),
        final(buffers).opened() == old(buffers).opened(),
        final(buffers).used() == old(buffers).used(),
        *final(worker) == (ParseTracker { in_flight: final(worker).in_flight, ..*old(worker) }),
{
    let ghost o = buffers@;
    let ghost out0 = requests_of(out@);
    let b = buffers.get(id);
    let size = b.text.len_bytes();
    match b.syntax {
        Some(s) => {
            if size > max_bytes {
                set_syntax(buffers, id, None);
                worker.remove_in_flight(id);
                assert(buffers@.dom() =~= o.dom());
                return;
            }
            let current = match s.parsed_gen {
                Some(g) => g == b.text_gen,
                None => false,
            };
            if current || worker.is_in_flight(id, b.text_gen) {
                return;
            }
            let request = make_request(id, b, s.grammar);
            let ghost q = request@;
            out.push(request);
            assert(requests_of(out@) =~= out0.push(q));
        },
        None => {
            if size <= max_bytes && find_grammar(languages, b).is_some() {
                match setup_buffer_syntax(buffers, worker, languages, id, max_bytes) {
                    Some(request) => {
                        let ghost q = request@;
                        out.push(request);
                        assert(requests_of(out@) =~= out0.push(q));
                        assert(seq![q][0] == request_for(
                            id.0,
                            o[id.0],
                            grammar_for(*languages, o[id.0])->0,
                        ));
                    },
                    None => {},
                }
                assert(buffers@.dom() =~= o.dom());
            }
        },
    }
}

fn dedup_ids(v: &Vec<BufferId>) -> (r: Vec<BufferId>)
    ensures
        ids_of(r@) == firsts(ids_of(v@)),
{
    let mut r: Vec<BufferId> = Vec::new();
    let n = v.len();
    let mut i: usize = 0;
    let ghost s = ids_of(v@);
    assert(s.take(0) =~= Seq::empty());
    assert(ids_of(r@) =~= Seq::empty());
    while i < n
        invariant
            i <= n == v@.len(),
            s == ids_of(v@),
            ids_of(r@) == firsts(s.take(i as int)),
        decreases n - i,
    {
        assert(s.take(i + 1).drop_last() =~= s.take(i as int));
        assert(s.take(i + 1).last() == v@[i as int].0);
        let m = r.len();
        let mut j: usize = 0;
        while j < m && r[j].0 != v[i].0
            invariant
                i < v@.len(),
                j <= m == r@.len(),
                forall|k: int| 0 <= k < j ==> (#[trigger] r@[k]).0 != v@[i as int].0,
            decreases m - j,
        {
            j = j + 1;
        }
        let ghost t = ids_of(r@);
        if j == m {
            proof {
                if t.contains(v@[i as int].0) {
                    let k = choose|k: int| 0 <= k < t.len() && t[k] == v@[i as int].0;
                    assert(r@[k].0 == v@[i as int].0);
                }
            }
            r.push(v[i]);
            assert(ids_of(r@) =~= t.push(v@[i as int].0));
        } else {
            assert(t[j as int] == v@[i as int].0);
        }
        i = i + 1;
    }
    assert(s.take(n as int) =~= s);
    r
}

proof fn lemma_firsts_from(s: Seq<u64>, x: u64)
    requires
        firsts(s).contains(x),
    ensures
        s.contains(x),
    decreases s.len(),
{
    if s.len() > 0 {
        let t = s.drop_last();
        let f = firsts(t);
        if f.contains(x) {
            lemma_firsts_from(t, x);
            let k = choose|k: int| 0 <= k < t.len() && t[k] == x;
            assert(s[k] == x);
        } else {
            let r = firsts(s);
            let k = choose|k: int| 0 <= k < r.len() && r[k] == x;
            if k < f.len() {
                assert(f[k] == x);
            }
            assert(s[s.len() - 1] == x);
        }
    }
}

/// Takes in the answers that have come, and gives the requests for the shown buffers that
/// have to be parsed again. `shown` are the buffers of all panes. Once the worker is gone
/// this is logged, once, and nothing else is done.
pub fn reparse_stale_buffers(
    buffers: &mut BufferStore,
    worker: &mut ParseTracker,
    messages: &mut Messages,
    languages: &LanguageRegistry,
    shown: &Vec<BufferId>,
    done: &Vec<ParseDone>,
    max_bytes: usize,
) -> (r: Vec<ParseRequest>)
    requires
        forall|i: int| 0 <= i < shown@.len() ==> old(buffers)@.contains_key((#[trigger] shown@[i]).0),
        forall|i: int|
            0 <= i < done@.len() ==> old(buffers)@.contains_key((#[trigger] done@[i]).bid.0),
    ensures
        if old(worker).disconnected {
            &&& final(buffers)@ == old(buffers)@
            &&& r@.len() == 0
            &&& *final(worker) == (ParseTracker { disconnect_logged: true, ..*old(worker) })
            &&& final(messages)@ == (if old(worker).disconnect_logged {
                old(messages)@
            } else {
                old(messages)@.logged(
                    Severity::Error,
                    "parse worker disconnected — syntax highlighting suspended"@,
                )
            })
        } else {
            &&& (Parsing {
                buffers: final(buffers)@,
                pending: final(worker).pending(),
                requests: requests_of(r@),
            }) == (Parsing {
                buffers: old(buffers)@,
                pending: old(worker).pending(),
                requests: Seq::empty(),
            }).installed_all(done@).reparsed_all(
                firsts(ids_of(shown@)),
                *languages,
                max_bytes as nat,
            )
            &&& final(messages)@ == old(messages)@
            &&& *final(worker) == (ParseTracker {
                in_flight: final(worker).in_flight,
                ..*old(worker)
            })
        },
        final(buffers).opened() == old(buffers).opened(),
        final(buffers).used() == old(buffers).used(),
{
    let mut out: Vec<ParseRequest> = Vec::new();
    if worker.is_disconnected() {
        if !worker.is_disconnect_logged() {
            messages.log_only(
                Severity::Error,
                "parse worker disconnected — syntax highlighting suspended".to_owned(),
            );
            worker.mark_disconnect_logged();
        }
        return out;
    }
    let ghost start = Parsing {
        buffers: buffers@,
        pending: worker.pending(),
        requests: Seq::empty(),
    };
    let ghost tracker = *worker;
    let ghost dom = buffers@.dom();
    let ghost opened = buffers.opened();
    let ghost used = buffers.used();
    let n = done.len();
    let mut i: usize = 0;
    assert(done@.take(0) =~= Seq::empty());
    while i < n
        invariant
            i <= n == done@.len(),
            forall|i: int| 0 <= i < done@.len() ==> dom.contains((#[trigger] done@[i]).bid.0),
            buffers@.dom() == dom,
            buffers.opened() == opened,
            buffers.used() == used,
            *worker == (ParseTracker { in_flight: worker.in_flight, ..tracker }),
            (Parsing {
                buffers: buffers@,
                pending: worker.pending(),
                requests: Seq::empty(),
            }) == start.installed_all(done@.take(i as int)),
        decreases n - i,
    {
        assert(done@.take(i + 1).drop_last() =~= done@.take(i as int));
        assert(done@.take(i + 1).last() == done@[i as int]);
        let ghost before = buffers@;
        let _ = install_parse_done(buffers, worker, &done[i]);
        assert(buffers@.dom() =~= before.dom());
        i = i + 1;
    }
    assert(done@.take(n as int) =~= done@);
    let ghost mid = start.installed_all(done@);
    let visible = dedup_ids(shown);
    let ghost vs = ids_of(visible@);
    proof {
        assert forall|j: int| 0 <= j < visible@.len() implies dom.contains(
            (#[trigger] visible@[j]).0,
        ) by {
            assert(vs[j] == visible@[j].0);
            assert(vs.contains(vs[j]));
            lemma_firsts_from(ids_of(shown@), vs[j]);
            let s = ids_of(shown@);
            let k = choose|k: int| 0 <= k < s.len() && s[k] == vs[j];
            assert(dom.contains(shown@[k].0));
        }
        assert(vs.take(0) =~= Seq::empty());
        assert(requests_of(out@) =~= Seq::empty());
    }
    let m = visible.len();
    let mut j: usize = 0;
    while j < m
        invariant
            j <= m == visible@.len(),
            vs == ids_of(visible@),
            forall|i: int| 0 <= i < visible@.len() ==> dom.contains((#[trigger] visible@[i]).0),
            buffers@.dom() == dom,
            buffers.opened() == opened,
            buffers.used() == used,
            *worker == (ParseTracker { in_flight: worker.in_flight, ..tracker }),
            (Parsing {
                buffers: buffers@,
                pending: worker.pending(),
                requests: requests_of(out@),
            }) == mid.reparsed_all(vs.take(j as int), *languages, max_bytes as nat),
        decreases m - j,
    {
        assert(vs.take(j + 1).drop_last() =~= vs.take(j as int));
        assert(vs.take(j + 1).last() == visible@[j as int].0);
        reparse_one(buffers, worker, languages, visible[j], max_bytes, &mut out);
        j = j + 1;
    }
    assert(vs.take(m as int) =~= vs);
    out
}

fn contains_text(v: &Vec<String>, x: &str) -> (r: bool)
    ensures
        r == texts(v@).contains(x@),
{
    let n = v.len();
    let mut i: usize = 0;
    let ghost t = texts(v@);
    while i < n
        invariant
            i <= n == v@.len(),
            t == texts(v@),
            forall|j: int| 0 <= j < i ==> t[j] != x@,
        decreases n - i,
    {
        assert(t[i as int] == v@[i as int]@);
        if str_eq(v[i].as_str(), x) {
            return true;
        }
        i = i + 1;
    }
    false
}

proof fn lemma_swept_language(
    p: Parsing,
    ids: Seq<u64>,
    names: Seq<Seq<char>>,
    languages: LanguageRegistry,
    max: nat,
    k: u64,
)
    ensures
        p.swept(ids, names, languages, max).buffers[k].language == p.buffers[k].language,
    decreases ids.len(),
{
    if ids.len() > 0 {
        lemma_swept_language(p, ids.drop_last(), names, languages, max, k);
    }
}

/// Sets highlighting up for every open buffer whose language is one of `names`, to which a
/// grammar was attached; see [`Parsing::swept`].
pub fn sweep_buffers_for_grammars(
    buffers: &mut BufferStore,
    worker: &mut ParseTracker,
    languages: &LanguageRegistry,
    names: &Vec<String>,
    max_bytes: usize,
) -> (r: Vec<ParseRequest>)
    ensures
        (Parsing {
            buffers: final(buffers)@,
            pending: final(worker).pending(),
            requests: requests_of(r@),
        }) == (Parsing {
            buffers: old(buffers)@,
            pending: old(worker).pending(),
            requests: Seq::empty(),
        }).swept(old(buffers).opened(), texts(names@), *languages, max_bytes as nat),
        final(buffers).opened() == old(buffers).opened(),
        final(buffers).used() == old(buffers).used(),
        *final(worker) == (ParseTracker { in_flight: final(worker).in_flight, ..*old(worker) }),
{
    let mut out: Vec<ParseRequest> = Vec::new();
    let ids = buffers.ids();
    let n = ids.len();
    let mut i: usize = 0;
    let ghost s = ids_of(ids@);
    let ghost o = *worker;
    let ghost start = Parsing {
        buffers: buffers@,
        pending: worker.pending(),
        requests: Seq::empty(),
    };
    let ghost dom = buffers@.dom();
    let ghost opened = buffers.opened();
    let ghost used = buffers.used();
    assert(s.take(0) =~= Seq::empty());
    assert(requests_of(out@) =~= Seq::empty());
    while i < n
        invariant
            i <= n == ids@.len(),
            s == ids_of(ids@),
            forall|i: int| 0 <= i < ids@.len() ==> dom.contains((#[trigger] ids@[i]).0),
            buffers@.dom() == dom,
            buffers.opened() == opened,
            buffers.used() == used,
            *worker == (ParseTracker { in_flight: worker.in_flight, ..o }),
            (Parsing {
                buffers: buffers@,
                pending: worker.pending(),
                requests: requests_of(out@),
            }) == start.swept(s.take(i as int), texts(names@), *languages, max_bytes as nat),
        decreases n - i,
    {
        let ghost k = ids@[i as int].0;
        let ghost before = buffers@;
        let ghost out0 = requests_of(out@);
        proof {
            assert(s.take(i + 1).drop_last() =~= s.take(i as int));
            assert(s.take(i + 1).last() == k);
            lemma_swept_language(
                start,
                s.take(i as int),
                texts(names@),
                *languages,
                max_bytes as nat,
                k,
            );
            assert(before[k].language == start.buffers[k].language);
        }
        let wanted = match &buffers.get(ids[i]).language {
            Some(l) => contains_text(names, l.as_str()),
            None => false,
        };
        if wanted {
            match setup_buffer_syntax(buffers, worker, languages, ids[i], max_bytes) {
                Some(request) => {
                    let ghost q = request@;
                    out.push(request);
                    assert(requests_of(out@) =~= out0.push(q));
                    assert(seq![q][0] == request_for(
                        k,
                        before[k],
                        grammar_for(*languages, before[k])->0,
                    ));
                },
                None => {},
            }
            assert(buffers@.dom() =~= before.dom());
        }
        i = i + 1;
    }
    assert(s.take(n as int) =~= s);
    out
}

/// Two languages, or none, are the same.
pub open spec fn same_name(a: Option<String>, b: Option<String>) -> bool {
    match (a, b) {
        (Some(x), Some(y)) => x@ == y@,
        (None, None) => true,
        _ => false,
    }
}

/// Gives a buffer another language. The result tells whether it is another one: then the
/// plugins of the new language are to be loaded, and hooks to be told.
pub fn set_buffer_language(
    buffers: &mut BufferStore,
    id: BufferId,
    new_lang: Option<String>,
) -> (r: bool)
    requires
        old(buffers)@.contains_key(id.0),
    ensures
        r == !same_name(old(buffers)@[id.0].language, new_lang),
        final(buffers)@ == (if r {
            old(buffers)@.insert(id.0, Buffer { language: new_lang, ..old(buffers)@[id.0] })
        } else {
            old(buffers)@
        }),
        final(buffers).opened() == old(buffers).opened(),
        final(buffers).used() == old(buffers).used(),
{
    let same = match (&buffers.get(id).language, &new_lang) {
        (Some(a), Some(b)) => str_eq(a.as_str(), b.as_str()),
        (None, None) => true,
        _ => false,
    };
    if same {
        return false;
    }
    let ghost o = buffers@;
    let mut b = Buffer::scratch();
    buffers.swap(id, &mut b);
    b.language = new_lang;
    let ghost n = b;
    buffers.swap(id, &mut b);
    assert(buffers@ =~= o.insert(id.0, n));
    true
}

/// Finds the language of a buffer by its file, and gives it to it; see
/// [`set_buffer_language`].
pub fn detect_and_set_language(
    buffers: &mut BufferStore,
    id: BufferId,
    languages: &LanguageRegistry,
    separators: Separators,
) -> (r: bool)
    requires
        old(buffers)@.contains_key(id.0),
        languages.wf(),
    ensures
        ({
            let b = old(buffers)@[id.0];
            let path = match b.path {
                Some(p) => Some(p@),
                None => None,
            };
            let start = line_prefix(b.doc(), FIRST_LINE_CAP as nat);
            let line = if start.len() == 0 {
                None
            } else {
                Some(start)
            };
            let found = languages.detected(path, line, separators);
            let was = match b.language {
                Some(l) => Some(l@),
                None => None,
            };
            &&& r == (was != found)
            &&& if r {
                let now = final(buffers)@[id.0].language;
                &&& final(buffers)@ == old(buffers)@.insert(
                    id.0,
                    Buffer { language: now, ..b },
                )
                &&& match now {
                    Some(l) => found == Some(l@),
                    None => found is None,
                }
            } else {
                final(buffers)@ == old(buffers)@
            }
        }),
        final(buffers).opened() == old(buffers).opened(),
        final(buffers).used() == old(buffers).used(),
{
    let b = buffers.get(id);
    let line = b.first_line();
    let path: Option<&str> = match &b.path {
        Some(p) => Some(p.as_str()),
        None => None,
    };
    let first: Option<&str> = match &line {
        Some(l) => Some(l.as_str()),
        None => None,
    };
    let found = detect_language(path, first, languages, separators);
    set_buffer_language(buffers, id, found)
}

/// A language that a script defines.
#[derive(Debug)]
pub struct PendingLanguageReg {
    pub name: String,
    pub extensions: Vec<String>,
    pub globs: Vec<String>,
    pub shebangs: Vec<String>,
}

impl View for PendingLanguageReg {
    type V = Lang;

    open spec fn view(&self) -> Lang {
        identity(
            self.name@,
            texts(self.extensions@),
            texts(self.globs@),
            texts(self.shebangs@),
        )
    }
}

/// `b` is `a` with the languages `regs`, put in one after the other. The globs are not
/// looked at.
pub open spec fn with_languages(
    a: LanguageRegistry,
    b: LanguageRegistry,
    regs: Seq<PendingLanguageReg>,
) -> bool
    decreases regs.len(),
{
    if regs.len() == 0 {
        a == b
    } else {
        exists|mid: LanguageRegistry|
            with_languages(a, mid, regs.drop_last()) && #[trigger] with_language(
                mid,
                b,
                regs.last()@,
            )
    }
}

/// Registers the languages that scripts have defined, and puts their globs to work. Where
/// they cannot be, that is logged.
pub fn apply_pending_language_regs(
    languages: &mut LanguageRegistry,
    messages: &mut Messages,
    regs: &Vec<PendingLanguageReg>,
)
    requires
        old(languages).wf(),
    ensures
        final(languages).wf(),
        if regs@.len() == 0 {
            *final(languages) == *old(languages) && final(messages)@ == old(messages)@
        } else {
            let g = globs_of(
                |n: Seq<char>| final(languages).language(n),
                final(languages).order(),
            );
            &&& exists|mid: LanguageRegistry| #[trigger]
                with_languages(*old(languages), mid, regs@) && *final(languages) == (
                LanguageRegistry {
                    compiled_globs: final(languages).compiled_globs,
                    glob_lang_names: final(languages).glob_lang_names,
                    ..mid
                })
            &&& match globs_error(patterns(g)) {
                None => final(languages).globs_current() && final(messages)@ == old(messages)@,
                Some(e) => {
                    &&& final(languages).compiled_globs == old(languages).compiled_globs
                    &&& final(languages).glob_lang_names == old(languages).glob_lang_names
                    &&& final(messages)@ == old(messages)@.logged(
                        Severity::Warning,
                        "define-language!: glob set build failed: "@ + (
                        "glob set compilation failed: "@ + e),
                    )
                },
            }
        },
{
    let n = regs.len();
    if n == 0 {
        return;
    }
    let ghost o = *languages;
    let mut i: usize = 0;
    assert(regs@.take(0) =~= Seq::empty());
    while i < n
        invariant
            i <= n == regs@.len(),
            languages.wf(),
            with_languages(o, *languages, regs@.take(i as int)),
            languages.compiled_globs == o.compiled_globs,
            languages.glob_lang_names == o.glob_lang_names,
        decreases n - i,
    {
        let ghost before = *languages;
        let r = &regs[i];
        languages.register_identity_no_rebuild(
            r.name.as_str(),
            &r.extensions,
            &r.globs,
            &r.shebangs,
        );
        proof {
            assert(regs@.take(i + 1).drop_last() =~= regs@.take(i as int));
            assert(regs@.take(i + 1).last() == regs@[i as int]);
            assert(with_languages(o, before, regs@.take(i + 1).drop_last()));
            assert(with_language(before, *languages, regs@.take(i + 1).last()@));
        }
        i = i + 1;
    }
    assert(regs@.take(n as int) =~= regs@);
    let ghost mid = *languages;
    let built = languages.rebuild_glob_set();
    proof {
        assert(with_languages(o, mid, regs@));
        assert((|x: Seq<char>| languages.language(x)) =~= (|x: Seq<char>| mid.language(x)));
    }
    match built {
        Ok(_) => {},
        Err(e) => {
            let text = e.message();
            messages.log_only(
                Severity::Warning,
                concat2("define-language!: glob set build failed: ", text.as_str()),
            );
        },
    }
}

/// A buffer whose text has changed since it was parsed, and for which no answer is on its
/// way, is asked for once: with its present text, its number and its grammar.
pub proof fn law_changed_text_is_parsed_again(
    p: Parsing,
    id: u64,
    languages: LanguageRegistry,
    max: nat,
    s: BufferSyntax,
)
    requires
        p.buffers[id].syntax == Some(s),
        byte_len(p.buffers[id].doc()) <= max,
        s.parsed_gen != Some(p.buffers[id].text_gen),
        p.pending.contains_key(id) ==> p.pending[id].text_gen != p.buffers[id].text_gen,
    ensures
        ({
            let q = p.reparsed(id, languages, max);
            let r = q.requests.last();
            &&& q.requests.drop_last() == p.requests
            &&& q.requests.len() == p.requests.len() + 1
            &&& r.bid == id && r.text_gen == p.buffers[id].text_gen && r.lang == s.grammar
            &&& r.source == encode_utf8(p.buffers[id].doc())
            &&& q.buffers == p.buffers && q.pending == p.pending
        }),
{
    let q = p.reparsed(id, languages, max);
    assert(q.requests.drop_last() =~= p.requests);
}

/// While the answer for the present text is on its way it is not asked for again.
pub proof fn law_nothing_is_asked_twice(
    p: Parsing,
    id: u64,
    languages: LanguageRegistry,
    max: nat,
    s: BufferSyntax,
)
    requires
        p.buffers[id].syntax == Some(s),
        byte_len(p.buffers[id].doc()) <= max,
        p.pending.contains_key(id) && p.pending[id].text_gen == p.buffers[id].text_gen,
    ensures
        p.reparsed(id, languages, max) == p,
{
}

/// A buffer that is too large has no highlighting and is not parsed, whichever way it comes
/// up; nor is one whose language has no grammar.
pub proof fn law_large_texts_are_not_parsed(
    p: Parsing,
    id: u64,
    languages: LanguageRegistry,
    max: nat,
)
    requires
        p.buffers.contains_key(id),
    ensures
        byte_len(p.buffers[id].doc()) > max ==> ({
            let q = p.reparsed(id, languages, max);
            let r = p.set_up(id, languages, max);
            &&& q.buffers[id].syntax is None && q.requests == p.requests
            &&& r.buffers[id].syntax is None && r.requests == p.requests
            &&& p.buffers[id].syntax is Some ==> !q.pending.contains_key(id)
            &&& !r.pending.contains_key(id)
        }),
        p.buffers[id].language is None ==> ({
            let r = p.set_up(id, languages, max);
            &&& r.buffers[id].syntax is None && r.requests == p.requests
        }),
{
}

/// A buffer that is small enough, in a language with a grammar, gets highlighting: it is to
/// be parsed with that grammar, and no earlier answer counts.
pub proof fn law_set_up_asks_for_the_text(
    p: Parsing,
    id: u64,
    languages: LanguageRegistry,
    max: nat,
    name: String,
    grammar: u64,
)
    requires
        p.buffers.contains_key(id),
        byte_len(p.buffers[id].doc()) <= max,
        p.buffers[id].language == Some(name),
        languages.language(name@) matches Some(l) && l.grammar == Some(grammar),
    ensures
        ({
            let q = p.set_up(id, languages, max);
            let r = q.requests.last();
            &&& q.requests.drop_last() == p.requests
            &&& r.bid == id && r.text_gen == p.buffers[id].text_gen && r.lang == grammar
            &&& r.source == encode_utf8(p.buffers[id].doc())
            &&& q.buffers[id].syntax == Some(BufferSyntax { grammar, parsed_gen: None })
            &&& !q.pending.contains_key(id)
            &&& p.buffers[id].syntax is None ==> p.reparsed(id, languages, max) == q
        }),
{
    let q = p.set_up(id, languages, max);
    assert(q.requests.drop_last() =~= p.requests);
}

/// What an answer does to a buffer that still has the text and the grammar: a tree makes it
/// current, a failure leaves it to be tried again, and a refusal takes its highlighting.
pub proof fn law_answers(p: Parsing, d: ParseDone, s: BufferSyntax)
    requires
        p.buffers.contains_key(d.bid.0),
        p.buffers[d.bid.0].syntax == Some(s),
        s.grammar == d.lang,
        p.buffers[d.bid.0].text_gen == d.text_gen,
    ensures
        ({
            let now = p.installed(d).buffers[d.bid.0].syntax;
            &&& d.outcome == ParseOutcome::Parsed ==> now == Some(
                BufferSyntax { grammar: s.grammar, parsed_gen: Some(d.text_gen) },
            )
            &&& d.outcome == ParseOutcome::ParseFailed ==> now == Some(s)
            &&& d.outcome == ParseOutcome::Rejected ==> now is None
        }),
        forall|k: u64|
            k != d.bid.0 ==> #[trigger] p.installed(d).buffers[k] == p.buffers[k]
                && p.installed(d).pending.contains_key(k) == p.pending.contains_key(k),
        p.installed(d).requests == p.requests,
        p.pending.contains_key(d.bid.0) && p.pending[d.bid.0].text_gen == d.text_gen
            && p.pending[d.bid.0].lang == d.lang ==> !p.installed(d).pending.contains_key(d.bid.0),
{
}

/// Lists of buffers and of answers are taken one after the other.
pub proof fn law_one_after_the_other(
    p: Parsing,
    ids: Seq<u64>,
    id: u64,
    ds: Seq<ParseDone>,
    d: ParseDone,
    languages: LanguageRegistry,
    max: nat,
)
    ensures
        p.reparsed_all(Seq::empty(), languages, max) == p,
        p.reparsed_all(ids.push(id), languages, max) == p.reparsed_all(
            ids,
            languages,
            max,
        ).reparsed(id, languages, max),
        p.installed_all(Seq::empty()) == p,
        p.installed_all(ds.push(d)) == p.installed_all(ds).installed(d),
{
    assert(ids.push(id).drop_last() =~= ids);
    assert(ds.push(d).drop_last() =~= ds);
}

/// Each buffer of a list is kept once.
pub proof fn law_firsts_are_the_same_once(s: Seq<u64>, x: u64)
    ensures
        firsts(s).contains(x) <==> s.contains(x),
        firsts(s).no_duplicates(),
        firsts(s).len() <= s.len(),
    decreases s.len(),
{
    if s.len() > 0 {
        let r = s.drop_last();
        let t = firsts(r);
        law_firsts_are_the_same_once(r, x);
        law_firsts_are_the_same_once(r, s.last());
        assert(s[s.len() - 1] == s.last());
        if s.contains(x) && x != s.last() {
            let i = choose|i: int| 0 <= i < s.len() && s[i] == x;
            assert(r[i] == x);
        }
        if r.contains(x) {
            let i = choose|i: int| 0 <= i < r.len() && r[i] == x;
            assert(s[i] == x);
        }
        if !t.contains(s.last()) {
            let n = t.push(s.last());
            assert(n[t.len() as int] == s.last());
            if t.contains(x) {
                let i = choose|i: int| 0 <= i < t.len() && t[i] == x;
                assert(n[i] == x);
            }
            if n.contains(x) && x != s.last() {
                let i = choose|i: int| 0 <= i < n.len() && n[i] == x;
                assert(t[i] == x);
            }
            assert forall|i: int, j: int| 0 <= i < n.len() && 0 <= j < n.len() && i != j implies n[i]
                != n[j] by {
                if i == t.len() {
                    assert(t[j] == n[j]);
                    assert(t.contains(t[j]));
                } else if j == t.len() {
                    assert(t[i] == n[i]);
                    assert(t.contains(t[i]));
                }
            }
        }
    }
}

/// When grammars come up, the buffers in other languages are left as they are, and so are
/// those that are not looked at.
pub proof fn law_sweep_leaves_other_languages(
    p: Parsing,
    ids: Seq<u64>,
    names: Seq<Seq<char>>,
    languages: LanguageRegistry,
    max: nat,
    k: u64,
)
    requires
        !ids.contains(k) || !(p.buffers[k].language matches Some(n) && names.contains(n@)),
    ensures
        p.swept(ids, names, languages, max).buffers[k] == p.buffers[k],
        p.swept(ids, names, languages, max).pending.contains_key(k) == p.pending.contains_key(k),
    decreases ids.len(),
{
    if ids.len() > 0 {
        let r = ids.drop_last();
        assert(ids[ids.len() - 1] == ids.last());
        if r.contains(k) {
            let i = choose|i: int| 0 <= i < r.len() && r[i] == k;
            assert(ids[i] == k);
        }
        law_sweep_leaves_other_languages(p, r, names, languages, max, k);
    }
}

/// A language is another one unless both are the same name, or there is none either way.
pub proof fn law_same_language(a: String, b: String)
    ensures
        same_name(Some(a), Some(b)) <==> a@ == b@,
        same_name(None, None),
        !same_name(Some(a), None),
        !same_name(None, Some(b)),
{
}

} // verus!

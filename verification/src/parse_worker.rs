//! Parsing in the background: what is asked of the worker, and what is on its way.

use crate::buffer_store::BufferId;
use std::collections::HashMap;
use vstd::prelude::*;

verus! {

broadcast use vstd::std_specs::hash::group_hash_axioms;

/// Asks for a text to be parsed.
#[derive(Debug)]
pub struct ParseRequest {
    pub bid: BufferId,
    /// The generation of the text.
    pub text_gen: u64,
    /// The grammar to parse it with.
    pub lang: u64,
    /// The whole text in UTF-8.
    pub source_bytes: Vec<u8>,
}

/// A request as a value.
#[verifier::ext_equal]
pub struct Request {
    pub bid: u64,
    pub text_gen: u64,
    pub lang: u64,
    pub source: Seq<u8>,
}

impl View for ParseRequest {
    type V = Request;

    open spec fn view(&self) -> Request {
        Request {
            bid: self.bid.0,
            text_gen: self.text_gen,
            lang: self.lang,
            source: self.source_bytes@,
        }
    }
}

/// How parsing went.
#[derive(Debug, Clone, Copy, PartialEq, Eq, Structural)]
pub enum ParseOutcome {
    /// There is a tree.
    Parsed,
    /// Parsing was given up; it may be tried again.
    ParseFailed,
    /// The parser does not take the grammar.
    Rejected,
}

/// The answer to a request.
#[derive(Debug, Clone, Copy, PartialEq, Eq, Structural)]
pub struct ParseDone {
    pub bid: BufferId,
    pub text_gen: u64,
    pub lang: u64,
    pub outcome: ParseOutcome,
}

/// A batch of requests after one more was put in: of two for one buffer the newer text
/// stays, and of two for one text the first.
pub open spec fn coalesced(
    batch: Map<u64, ParseRequest>,
    req: ParseRequest,
) -> Map<u64, ParseRequest> {
    if batch.contains_key(req.bid.0) && batch[req.bid.0].text_gen >= req.text_gen {
        batch
    } else {
        batch.insert(req.bid.0, req)
    }
}

/// Puts a request in a batch; see [`coalesced`].
pub fn coalesce_one(batch: &mut HashMap<u64, ParseRequest>, req: ParseRequest)
    ensures
        final(batch)@ == coalesced(old(batch)@, req),
{
    let newer = match batch.get(&req.bid.0) {
        Some(r) => req.text_gen > r.text_gen,
        None => true,
    };
    if newer {
        batch.insert(req.bid.0, req);
    }
}

/// No request is lost but to one for the same buffer whose text is as new.
pub proof fn law_coalesced_keeps_newest(batch: Map<u64, ParseRequest>, req: ParseRequest, k: u64)
    ensures
        coalesced(batch, req).contains_key(req.bid.0),
        coalesced(batch, req)[req.bid.0].text_gen >= req.text_gen,
        batch.contains_key(k) ==> coalesced(batch, req).contains_key(k) && coalesced(
            batch,
            req,
        )[k].text_gen >= batch[k].text_gen,
        k != req.bid.0 ==> (coalesced(batch, req).contains_key(k) <==> batch.contains_key(k)),
        k != req.bid.0 && batch.contains_key(k) ==> coalesced(batch, req)[k] == batch[k],
{
}

/// Whether the parser has to be set to another grammar.
pub fn language_changed(current: Option<u64>, lang: u64) -> (r: bool)
    ensures
        r == (current != Some(lang)),
{
    match current {
        Some(l) => l != lang,
        None => true,
    }
}

/// The answer to a request.
pub fn make_done(req: &ParseRequest, outcome: ParseOutcome) -> (r: ParseDone)
    ensures
        r == (ParseDone { bid: req.bid, text_gen: req.text_gen, lang: req.lang, outcome }),
{
    ParseDone { bid: req.bid, text_gen: req.text_gen, lang: req.lang, outcome }
}

/// A request that has not been answered.
#[derive(Debug, Clone, Copy, PartialEq, Eq, Structural)]
pub struct InFlight {
    pub text_gen: u64,
    pub lang: u64,
}

/// What the editor knows of the worker.
pub struct ParseTracker {
    /// The last request for each buffer that has not been answered.
    pub in_flight: HashMap<u64, InFlight>,
    /// The worker is gone.
    pub disconnected: bool,
    /// That it is gone has been said.
    pub disconnect_logged: bool,
}

impl ParseTracker {
    pub open spec fn pending(&self) -> Map<u64, InFlight> {
        self.in_flight@
    }

    pub fn new() -> (r: ParseTracker)
        ensures
            r.pending() == Map::<u64, InFlight>::empty(),
            !r.disconnected,
            !r.disconnect_logged,
    {
        ParseTracker { in_flight: HashMap::new(), disconnected: false, disconnect_logged: false }
    }

    /// Takes note of a request. `sent` tells whether the worker has taken it; where it has
    /// not, it is gone. Once it is gone, nothing is asked of it.
    pub fn post(&mut self, req: &ParseRequest, sent: bool)
        ensures
            *final(self) == (ParseTracker {
                in_flight: final(self).in_flight,
                disconnected: old(self).disconnected || !sent,
                ..*old(self)
            }),
            final(self).pending() == (if old(self).disconnected {
                old(self).pending()
            } else if sent {
                old(self).pending().insert(
                    req.bid.0,
                    InFlight { text_gen: req.text_gen, lang: req.lang },
                )
            } else {
                Map::empty()
            }),
    {
        if self.disconnected {
            return;
        }
        if sent {
            self.in_flight.insert(
                req.bid.0,
                InFlight { text_gen: req.text_gen, lang: req.lang },
            );
        } else {
            self.lose_worker();
        }
    }

    /// The worker is gone, and no answer will come.
    pub fn lose_worker(&mut self)
        ensures
            final(self).pending() == Map::<u64, InFlight>::empty(),
            final(self).disconnected,
            final(self).disconnect_logged == old(self).disconnect_logged,
    {
        self.disconnected = true;
        self.in_flight.clear();
    }

    /// Whether an answer for this text of the buffer is on its way.
    pub fn is_in_flight(&self, bid: BufferId, text_gen: u64) -> (r: bool)
        ensures
            r == (self.pending().contains_key(bid.0) && self.pending()[bid.0].text_gen
                == text_gen),
    {
        match self.in_flight.get(&bid.0) {
            Some(i) => i.text_gen == text_gen,
            None => false,
        }
    }

    /// No answer for the buffer is waited for.
    pub fn remove_in_flight(&mut self, bid: BufferId)
        ensures
            *final(self) == (ParseTracker { in_flight: final(self).in_flight, ..*old(self) }),
            final(self).pending() == old(self).pending().remove(bid.0),
    {
        let _ = self.in_flight.remove(&bid.0);
        assert(self.pending() =~= old(self).pending().remove(bid.0));
    }

    /// An answer has come. A request for a newer text or with another grammar goes on being
    /// waited for.
    pub fn clear_in_flight_if_matches(&mut self, bid: BufferId, text_gen: u64, lang: u64)
        ensures
            *final(self) == (ParseTracker { in_flight: final(self).in_flight, ..*old(self) }),
            final(self).pending() == answered(old(self).pending(), bid.0, text_gen, lang),
    {
        let matches = match self.in_flight.get(&bid.0) {
            Some(i) => i.text_gen == text_gen && i.lang == lang,
            None => false,
        };
        if matches {
            self.remove_in_flight(bid);
        }
    }

    /// Whether any answer is on its way.
    pub fn has_in_flight(&self) -> (r: bool)
        ensures
            r == (self.pending().dom().len() != 0),
    {
        !self.in_flight.is_empty()
    }

    pub fn is_disconnected(&self) -> (r: bool)
        ensures
            r == self.disconnected,
    {
        self.disconnected
    }

    pub fn is_disconnect_logged(&self) -> (r: bool)
        ensures
            r == self.disconnect_logged,
    {
        self.disconnect_logged
    }

    pub fn mark_disconnect_logged(&mut self)
        ensures
            *final(self) == (ParseTracker { disconnect_logged: true, ..*old(self) }),
    {
        self.disconnect_logged = true;
    }
}

/// The requests on their way after an answer has come.
pub open spec fn answered(
    pending: Map<u64, InFlight>,
    bid: u64,
    text_gen: u64,
    lang: u64,
) -> Map<u64, InFlight> {
    if pending.contains_key(bid) && pending[bid] == (InFlight { text_gen, lang }) {
        pending.remove(bid)
    } else {
        pending
    }
}

/// Only the answer to what was asked last settles it, and it settles nothing else.
pub proof fn law_only_its_answer_settles_a_request(
    pending: Map<u64, InFlight>,
    asked: InFlight,
    bid: u64,
    text_gen: u64,
    lang: u64,
    k: u64,
)
    ensures
        ({
            let p = pending.insert(bid, asked);
            let r = answered(p, bid, text_gen, lang);
            &&& asked.text_gen == text_gen && asked.lang == lang ==> !r.contains_key(bid)
            &&& asked.text_gen != text_gen || asked.lang != lang ==> r.contains_key(bid) && r[bid]
                == asked
            &&& k != bid ==> r.contains_key(k) == pending.contains_key(k)
            &&& k != bid && pending.contains_key(k) ==> r[k] == pending[k]
        }),
{
}

/// Of two requests for one buffer the one with the newer text is kept, in whichever order they
/// come; of two with the same text, the first.
pub proof fn law_order_of_requests(a: ParseRequest, b: ParseRequest)
    requires
        a.bid == b.bid,
        a.text_gen <= b.text_gen,
    ensures
        a.text_gen < b.text_gen ==> coalesced(coalesced(Map::empty(), a), b)[a.bid.0] == b,
        a.text_gen < b.text_gen ==> coalesced(coalesced(Map::empty(), b), a)[a.bid.0] == b,
        a.text_gen == b.text_gen ==> coalesced(coalesced(Map::empty(), a), b)[a.bid.0] == a,
{
}

} // verus!

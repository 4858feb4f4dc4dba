//! The undo tree: every recorded edit is a revision, undone ones included.

use crate::changeset::{applied, len_after, len_before, nonempty, ChangeSet, LengthMismatch, Step};
use crate::selection::{SelectionSet, Sels};
use crate::text::Text;
use vstd::prelude::*;

verus! {

/// Names a revision of one history.
#[derive(Debug, Clone, Copy, PartialEq, Eq, Structural)]
pub struct RevisionId(pub usize);

/// One edit of the tree, as a value: the revision it was made on, the change in both
/// directions, and the selections before and after it.
pub struct Edit {
    pub parent: nat,
    pub forward: Seq<Step>,
    pub inverse: Seq<Step>,
    pub before: Sels,
    pub after: Sels,
}

/// A history as a value. Revision 0 is the text at the start; revision `r > 0` was made
/// by `edits[r - 1]`. `texts[r]` is the text at `r`, `latest[r]` the newest edit made on
/// it.
pub struct Tree {
    pub texts: Seq<Seq<char>>,
    pub edits: Seq<Edit>,
    pub latest: Seq<Option<nat>>,
    pub initial: Sels,
}

/// One step between neighbouring revisions: undoing `r`, or doing `r` again.
pub enum Move {
    Up(nat),
    Down(nat),
}

impl Tree {
    pub open spec fn count(self) -> nat {
        self.edits.len() + 1
    }

    pub open spec fn edit(self, r: nat) -> Edit {
        self.edits[r - 1]
    }

    pub open spec fn parent(self, r: nat) -> nat {
        self.edit(r).parent
    }

    /// An edit leads from its parent's text to its own, and back.
    pub open spec fn edit_ok(self, r: nat) -> bool {
        let e = self.edit(r);
        &&& e.parent < r
        &&& nonempty(e.forward)
        &&& nonempty(e.inverse)
        &&& len_before(e.forward) == self.texts[e.parent as int].len()
        &&& applied(e.forward, self.texts[e.parent as int]) == self.texts[r as int]
        &&& len_before(e.inverse) == self.texts[r as int].len()
        &&& applied(e.inverse, self.texts[r as int]) == self.texts[e.parent as int]
        &&& self.latest[e.parent as int] is Some
        &&& r <= self.latest[e.parent as int]->0
    }

    pub open spec fn latest_ok(self, r: nat) -> bool {
        self.latest[r as int] is Some ==> {
            let c = self.latest[r as int]->0;
            0 < c < self.count() && self.parent(c) == r
        }
    }

    pub open spec fn wf(self) -> bool {
        &&& self.texts.len() == self.count()
        &&& self.latest.len() == self.count()
        &&& forall|r: nat| 0 < r < self.count() ==> #[trigger] self.edit_ok(r)
        &&& forall|r: nat| r < self.count() ==> #[trigger] self.latest_ok(r)
    }

    /// The tree of a text that has not been edited.
    pub open spec fn fresh(text: Seq<char>, initial: Sels) -> Tree {
        Tree { texts: seq![text], edits: Seq::empty(), latest: seq![None], initial }
    }

    /// The tree with one more edit, made on revision `at`.
    pub open spec fn recorded(self, e: Edit, text: Seq<char>) -> Tree {
        Tree {
            texts: self.texts.push(text),
            edits: self.edits.push(e),
            latest: self.latest.update(e.parent as int, Some(self.count())).push(None),
            initial: self.initial,
        }
    }

    /// The moves from one revision to another: up to their nearest common ancestor, then
    /// down.
    pub open spec fn path(self, from: nat, to: nat) -> Seq<Move>
        decreases from + to,
    {
        if from == to {
            Seq::empty()
        } else if from > to {
            if self.parent(from) < from {
                seq![Move::Up(from)] + self.path(self.parent(from), to)
            } else {
                Seq::empty()
            }
        } else {
            if self.parent(to) < to {
                self.path(from, self.parent(to)).push(Move::Down(to))
            } else {
                Seq::empty()
            }
        }
    }

    /// Whether `moves` lead from `from` to `to`, one neighbour at a time.
    pub open spec fn connected(self, from: nat, moves: Seq<Move>, to: nat) -> bool
        decreases moves.len(),
    {
        if moves.len() == 0 {
            from == to
        } else {
            match moves[0] {
                Move::Up(r) => r == from && 0 < r < self.count() && self.connected(
                    self.parent(r),
                    moves.drop_first(),
                    to,
                ),
                Move::Down(r) => 0 < r < self.count() && self.parent(r) == from && self.connected(
                    r,
                    moves.drop_first(),
                    to,
                ),
            }
        }
    }

    /// The change and the selections of a move.
    pub open spec fn transaction(self, m: Move) -> (Seq<Step>, Sels) {
        match m {
            Move::Up(r) => (self.edit(r).inverse, self.edit(r).before),
            Move::Down(r) => (self.edit(r).forward, self.edit(r).after),
        }
    }
}

proof fn lemma_connected_push(t: Tree, from: nat, moves: Seq<Move>, mid: nat, r: nat)
    requires
        t.connected(from, moves, mid),
        0 < r < t.count(),
        t.parent(r) == mid,
    ensures
        t.connected(from, moves.push(Move::Down(r)), r),
    decreases moves.len(),
{
    let p = moves.push(Move::Down(r));
    if moves.len() == 0 {
        assert(p.drop_first() =~= Seq::<Move>::empty());
        assert(p[0] == Move::Down(r));
        assert(t.connected(r, p.drop_first(), r));
    } else {
        assert(p[0] == moves[0]);
        assert(p.drop_first() =~= moves.drop_first().push(Move::Down(r)));
        match moves[0] {
            Move::Up(q) => {
                lemma_connected_push(t, t.parent(q), moves.drop_first(), mid, r);
            },
            Move::Down(q) => {
                lemma_connected_push(t, q, moves.drop_first(), mid, r);
            },
        }
    }
}

/// From any revision every other one can be reached, by neighbouring steps.
pub proof fn law_path_connects(t: Tree, from: nat, to: nat)
    requires
        t.wf(),
        from < t.count(),
        to < t.count(),
    ensures
        t.connected(from, t.path(from, to), to),
    decreases from + to,
{
    if from > to {
        assert(t.edit_ok(from));
        law_path_connects(t, t.parent(from), to);
        let p = t.path(from, to);
        assert(p.drop_first() =~= t.path(t.parent(from), to));
    } else if from < to {
        assert(t.edit_ok(to));
        law_path_connects(t, from, t.parent(to));
        lemma_connected_push(t, from, t.path(from, t.parent(to)), t.parent(to), to);
    }
}

/// Undoing an edit that was just recorded leads back to the revision, the text and the
/// selections from before it; doing it again leads to the edit, its text and the
/// selections after it.
pub proof fn law_undo_and_redo_of_recorded(t: Tree, e: Edit, text: Seq<char>)
    requires
        t.wf(),
        e.parent < t.count(),
    ensures
        ({
            let t2 = t.recorded(e, text);
            let r = t.count();
            &&& t2.parent(r) == e.parent
            &&& t2.texts[e.parent as int] == t.texts[e.parent as int]
            &&& t2.transaction(Move::Up(r)) == (e.inverse, e.before)
            &&& t2.latest[e.parent as int] == Some(r)
            &&& t2.texts[r as int] == text
            &&& t2.transaction(Move::Down(r)) == (e.forward, e.after)
        }),
{
}

/// Recording an edit leaves every revision there was as it was: its text, and the edit
/// that led to it.
pub proof fn law_record_keeps_revisions(t: Tree, e: Edit, text: Seq<char>, r: nat)
    requires
        t.wf(),
        r < t.count(),
    ensures
        t.recorded(e, text).texts[r as int] == t.texts[r as int],
        r > 0 ==> t.recorded(e, text).edit(r) == t.edit(r),
{
}

/// A change together with the selections to show once it is applied.
pub struct Transaction {
    pub changes: ChangeSet,
    pub sels: SelectionSet,
}

impl View for Transaction {
    type V = (Seq<Step>, Sels);

    open spec fn view(&self) -> (Seq<Step>, Sels) {
        (self.changes@, self.sels@)
    }
}

impl Transaction {
    /// The changed text and the selections; an error where the change is for a text of
    /// another length.
    pub fn apply(&self, text: &Text) -> (r: Result<(Text, SelectionSet), LengthMismatch>)
        ensures
            match r {
                Ok(p) => len_before(self@.0) == text@.len() && p.0@ == applied(self@.0, text@)
                    && p.1@ == self@.1 && p.0.spec_line_ending() == text.spec_line_ending(),
                Err(e) => len_before(self@.0) != text@.len() && e.expected == len_before(self@.0)
                    && e.found == text@.len(),
            },
    {
        match self.changes.apply(text) {
            Ok(t) => Ok((t, self.sels.clone())),
            Err(e) => Err(e),
        }
    }
}

struct Revision {
    parent: usize,
    forward: ChangeSet,
    inverse: ChangeSet,
    before: SelectionSet,
    after: SelectionSet,
}

impl Revision {
    spec fn value(self) -> Edit {
        Edit {
            parent: self.parent as nat,
            forward: self.forward@,
            inverse: self.inverse@,
            before: self.before@,
            after: self.after@,
        }
    }
}

/// The undo tree of one text, and the revision it is at.
pub struct History {
    revisions: Vec<Revision>,
    latest: Vec<Option<usize>>,
    current: usize,
    initial: SelectionSet,
    texts: Ghost<Seq<Seq<char>>>,
}

spec fn latest_value(v: Seq<Option<usize>>) -> Seq<Option<nat>> {
    v.map_values(
        |o: Option<usize>|
            match o {
                Some(c) => Some(c as nat),
                None => None::<nat>,
            },
    )
}

impl History {
    #[verifier::type_invariant]
    spec fn inv(self) -> bool {
        &&& self.tree().wf()
        &&& self.current < self.tree().count()
        &&& self.tree().count() <= usize::MAX
    }

    pub closed spec fn tree(&self) -> Tree {
        Tree {
            texts: self.texts@,
            edits: self.revisions@.map_values(|r: Revision| r.value()),
            latest: latest_value(self.latest@),
            initial: self.initial@,
        }
    }

    /// The revision the text is at.
    pub closed spec fn current(&self) -> nat {
        self.current as nat
    }

    /// The text at the current revision.
    pub open spec fn text(&self) -> Seq<char> {
        self.tree().texts[self.current() as int]
    }

    /// A history without edits, of a text shown with `initial`.
    pub(crate) fn new(initial: SelectionSet, Ghost(text): Ghost<Seq<char>>) -> (r: History)
        ensures
            r.tree() == Tree::fresh(text, initial@),
            r.current() == 0,
    {
        let mut latest: Vec<Option<usize>> = Vec::new();
        latest.push(None);
        let ghost t = Tree {
            texts: seq![text],
            edits: Seq::<Revision>::empty().map_values(|r: Revision| r.value()),
            latest: latest_value(latest@),
            initial: initial@,
        };
        proof {
            assert(t.latest =~= seq![None]);
            assert(t.edits =~= Seq::empty());
        }
        History { revisions: Vec::new(), latest, current: 0, initial, texts: Ghost(t.texts) }
    }

    pub fn current_id(&self) -> (r: RevisionId)
        ensures
            r.0 == self.current(),
            self.tree().wf(),
            self.current() < self.tree().count(),
    {
        proof {
            use_type_invariant(self);
        }
        RevisionId(self.current)
    }

    /// The revision that an edit was made on; `None` for the first one and for those that
    /// there are not.
    pub fn parent(&self, id: RevisionId) -> (r: Option<RevisionId>)
        ensures
            match r {
                Some(p) => 0 < id.0 < self.tree().count() && p.0 == self.tree().parent(
                    id.0 as nat,
                ),
                None => id.0 == 0 || id.0 >= self.tree().count(),
            },
    {
        if id.0 == 0 || id.0 > self.revisions.len() {
            None
        } else {
            Some(RevisionId(self.revisions[id.0 - 1].parent))
        }
    }

    pub fn initial_sels(&self) -> (r: SelectionSet)
        ensures
            r@ == self.tree().initial,
    {
        self.initial.clone()
    }

    /// Whether there is an edit to undo.
    pub fn can_undo(&self) -> (r: bool)
        ensures
            r == (self.current() > 0),
    {
        self.current > 0
    }

    /// Records an edit made on the current revision, which leads to a new one.
    pub fn record(
        &mut self,
        forward: ChangeSet,
        inverse: ChangeSet,
        before: SelectionSet,
        after: SelectionSet,
    )
        requires
            len_before(forward@) == old(self).text().len(),
            len_before(inverse@) == len_after(forward@),
            applied(inverse@, applied(forward@, old(self).text())) == old(self).text(),
            old(self).tree().count() < usize::MAX,
        ensures
            final(self).current() == old(self).tree().count(),
            final(self).tree() == old(self).tree().recorded(
                Edit {
                    parent: old(self).current(),
                    forward: forward@,
                    inverse: inverse@,
                    before: before@,
                    after: after@,
                },
                applied(forward@, old(self).text()),
            ),
    {
        proof {
            use_type_invariant(&*self);
            crate::changeset::lemma_applied_len(forward@, self.text());
        }
        let ghost t0 = self.tree();
        let ghost c0 = self.current();
        let ghost text1 = applied(forward@, self.text());
        let _ = forward.len_before();
        let _ = inverse.len_before();
        let mut h = History::new(SelectionSet::default(), Ghost(Seq::empty()));
        std::mem::swap(&mut h, self);
        let History { mut revisions, mut latest, current, initial, texts } = h;
        let ghost e = Edit {
            parent: c0,
            forward: forward@,
            inverse: inverse@,
            before: before@,
            after: after@,
        };
        let ghost edits0 = revisions@.map_values(|r: Revision| r.value());
        let ghost latest0 = latest_value(latest@);
        let id = revisions.len() + 1;
        revisions.push(Revision { parent: current, forward, inverse, before, after });
        latest.set(current, Some(id));
        latest.push(None);
        let ghost t1 = t0.recorded(e, text1);
        proof {
            assert(revisions@.map_values(|r: Revision| r.value()) =~= edits0.push(e));
            assert(latest_value(latest@) =~= latest0.update(c0 as int, Some(id as nat)).push(None));
            assert(t1.texts == texts@.push(text1));
            assert forall|r: nat| 0 < r < t1.count() implies #[trigger] t1.edit_ok(r) by {
                if r < t0.count() {
                    assert(t0.edit_ok(r));
                    assert(t1.edit(r) == t0.edit(r));
                }
            }
            assert forall|r: nat| r < t1.count() implies #[trigger] t1.latest_ok(r) by {
                if r < t0.count() {
                    assert(t0.latest_ok(r));
                    if r != c0 && t0.latest[r as int] is Some {
                        let c = t0.latest[r as int]->0;
                        assert(t1.edit(c) == t0.edit(c));
                    }
                }
            }
        }
        *self = History { revisions, latest, current: id, initial, texts: Ghost(t1.texts) };
        assert(self.tree() =~= t1);
    }

    /// Steps back to the parent revision and gives what undoes the edit; `None` at the
    /// first revision.
    pub fn undo(&mut self) -> (r: Option<Transaction>)
        ensures
            final(self).tree() == old(self).tree(),
            match r {
                None => old(self).current() == 0 && final(self).current() == 0,
                Some(txn) => {
                    &&& old(self).current() > 0
                    &&& final(self).current() == old(self).tree().parent(old(self).current())
                    &&& txn@ == old(self).tree().transaction(Move::Up(old(self).current()))
                    &&& len_before(txn@.0) == old(self).text().len()
                    &&& applied(txn@.0, old(self).text()) == final(self).text()
                },
            },
    {
        proof {
            use_type_invariant(&*self);
        }
        if self.current == 0 {
            return None;
        }
        assert(self.tree().edit_ok(self.current()));
        let rev = &self.revisions[self.current - 1];
        let txn = Transaction { changes: rev.inverse.clone(), sels: rev.before.clone() };
        let parent = rev.parent;
        self.current = parent;
        Some(txn)
    }

    /// Does the newest edit made on the current revision again; `None` where there is
    /// none.
    pub fn redo(&mut self) -> (r: Option<Transaction>)
        ensures
            final(self).tree() == old(self).tree(),
            match r {
                None => old(self).tree().latest[old(self).current() as int] is None
                    && final(self).current() == old(self).current(),
                Some(txn) => {
                    let next = old(self).tree().latest[old(self).current() as int];
                    &&& next is Some
                    &&& final(self).current() == next->0
                    &&& txn@ == old(self).tree().transaction(Move::Down(next->0))
                    &&& len_before(txn@.0) == old(self).text().len()
                    &&& applied(txn@.0, old(self).text()) == final(self).text()
                },
            },
    {
        proof {
            use_type_invariant(&*self);
        }
        let ghost t = self.tree();
        assert(t.latest_ok(self.current()));
        assert(t.latest[self.current as int] == latest_value(self.latest@)[self.current as int]);
        match self.latest[self.current] {
            None => None,
            Some(next) => {
                assert(t.edit_ok(next as nat));
                let rev = &self.revisions[next - 1];
                let txn = Transaction { changes: rev.forward.clone(), sels: rev.after.clone() };
                self.current = next;
                Some(txn)
            },
        }
    }

    /// Moves to any revision and gives the steps there in order; `None` where there is no
    /// such revision.
    pub fn goto_revision(&mut self, target: RevisionId) -> (r: Option<Vec<Transaction>>)
        ensures
            final(self).tree() == old(self).tree(),
            match r {
                None => target.0 >= old(self).tree().count() && final(self).current() == old(
                    self,
                ).current(),
                Some(txns) => {
                    let moves = old(self).tree().path(old(self).current(), target.0 as nat);
                    &&& target.0 < old(self).tree().count()
                    &&& final(self).current() == target.0
                    &&& txns@.len() == moves.len()
                    &&& forall|i: int|
                        0 <= i < moves.len() ==> (#[trigger] txns@[i])@ == old(
                            self,
                        ).tree().transaction(moves[i])
                },
            },
    {
        proof {
            use_type_invariant(&*self);
        }
        let ghost t = self.tree();
        if target.0 > self.revisions.len() {
            return None;
        }
        let mut txns: Vec<Transaction> = Vec::new();
        let mut down: Vec<usize> = Vec::new();
        let mut a: usize = self.current;
        let mut b: usize = target.0;
        let ghost whole = t.path(a as nat, b as nat);
        let ghost mut ups: Seq<Move> = Seq::empty();
        assert(ups + whole + downs(down@) =~= whole) by {
            assert(downs(down@) =~= Seq::<Move>::empty());
        }
        while a != b
            invariant
                t == self.tree(),
                t.wf(),
                a < t.count(),
                b < t.count(),
                ups + t.path(a as nat, b as nat) + downs(down@) == whole,
                txns@.len() == ups.len(),
                forall|i: int|
                    0 <= i < ups.len() ==> (#[trigger] txns@[i])@ == t.transaction(ups[i]),
                forall|i: int| 0 <= i < down@.len() ==> 0 < #[trigger] down@[i] < t.count(),
            decreases a + b,
        {
            let ghost p = t.path(a as nat, b as nat);
            if a > b {
                assert(t.edit_ok(a as nat));
                let rev = &self.revisions[a - 1];
                txns.push(
                    Transaction { changes: rev.inverse.clone(), sels: rev.before.clone() },
                );
                proof {
                    let q = t.path(t.parent(a as nat), b as nat);
                    assert(ups + (seq![Move::Up(a as nat)] + q) + downs(down@) =~= ups.push(
                        Move::Up(a as nat),
                    ) + q + downs(down@));
                    ups = ups.push(Move::Up(a as nat));
                }
                a = rev.parent;
            } else {
                assert(t.edit_ok(b as nat));
                let ghost d0 = down@;
                down.push(b);
                proof {
                    let q = t.path(a as nat, t.parent(b as nat));
                    assert(downs(down@) =~= seq![Move::Down(b as nat)] + downs(d0));
                    assert(ups + q.push(Move::Down(b as nat)) + downs(d0) =~= ups + q + downs(
                        down@,
                    ));
                }
                b = self.revisions[b - 1].parent;
            }
        }
        assert(t.path(a as nat, b as nat) =~= Seq::<Move>::empty());
        assert(ups + downs(down@) =~= whole);
        let n = down.len();
        let mut k: usize = 0;
        while k < n
            invariant
                t == self.tree(),
                k <= n == down@.len(),
                ups + downs(down@) == whole,
                txns@.len() == ups.len() + k,
                forall|i: int|
                    0 <= i < ups.len() + k ==> (#[trigger] txns@[i])@ == t.transaction(whole[i]),
                forall|i: int| 0 <= i < down@.len() ==> 0 < #[trigger] down@[i] < t.count(),
            decreases n - k,
        {
            let r = down[n - 1 - k];
            assert(whole[ups.len() + k as int] == downs(down@)[k as int]);
            let rev = &self.revisions[r - 1];
            txns.push(Transaction { changes: rev.forward.clone(), sels: rev.after.clone() });
            k = k + 1;
        }
        self.current = target.0;
        Some(txns)
    }
}

/// The moves down through `v`, last first.
spec fn downs(v: Seq<usize>) -> Seq<Move> {
    Seq::new(v.len(), |i: int| Move::Down(v[v.len() - 1 - i] as nat))
}

/// The text after the changes of the moves, one after the other.
pub open spec fn moved(t: Tree, moves: Seq<Move>, text: Seq<char>) -> Seq<char>
    decreases moves.len(),
{
    if moves.len() == 0 {
        text
    } else {
        moved(t, moves.drop_first(), applied(t.transaction(moves[0]).0, text))
    }
}

proof fn lemma_connected_moves(t: Tree, from: nat, moves: Seq<Move>, to: nat)
    requires
        t.wf(),
        from < t.count(),
        t.connected(from, moves, to),
    ensures
        moved(t, moves, t.texts[from as int]) == t.texts[to as int],
    decreases moves.len(),
{
    if moves.len() > 0 {
        match moves[0] {
            Move::Up(r) => {
                assert(t.edit_ok(r));
                lemma_connected_moves(t, t.parent(r), moves.drop_first(), to);
            },
            Move::Down(r) => {
                assert(t.edit_ok(r));
                lemma_connected_moves(t, r, moves.drop_first(), to);
            },
        }
    }
}

/// The changes on the way to a revision, applied one after the other, make the text of that
/// revision.
pub proof fn law_path_leads_to_the_text(t: Tree, from: nat, to: nat)
    requires
        t.wf(),
        from < t.count(),
        to < t.count(),
    ensures
        moved(t, t.path(from, to), t.texts[from as int]) == t.texts[to as int],
{
    law_path_connects(t, from, to);
    lemma_connected_moves(t, from, t.path(from, to), to);
}

/// The revision that a move undoes or does again.
pub open spec fn revision_of(m: Move) -> nat {
    match m {
        Move::Up(r) => r,
        Move::Down(r) => r,
    }
}

proof fn lemma_path_bound(t: Tree, from: nat, to: nat)
    ensures
        forall|i: int|
            0 <= i < t.path(from, to).len() ==> revision_of(#[trigger] t.path(from, to)[i]) <= from
                || revision_of(t.path(from, to)[i]) <= to,
    decreases from + to,
{
    let p = t.path(from, to);
    if from > to && t.parent(from) < from {
        let rest = t.path(t.parent(from), to);
        lemma_path_bound(t, t.parent(from), to);
        assert forall|i: int| 0 <= i < p.len() implies revision_of(#[trigger] p[i]) <= from
            || revision_of(p[i]) <= to by {
            if i > 0 {
                assert(p[i] == rest[i - 1]);
            }
        }
    } else if from < to && t.parent(to) < to {
        let rest = t.path(from, t.parent(to));
        lemma_path_bound(t, from, t.parent(to));
        assert forall|i: int| 0 <= i < p.len() implies revision_of(#[trigger] p[i]) <= from
            || revision_of(p[i]) <= to by {
            if i < rest.len() {
                assert(p[i] == rest[i]);
            }
        }
    }
}

/// The way from one revision to another is no detour: nothing is undone that is done again, or
/// undone twice, and all that is undone comes first.
pub proof fn law_path_is_no_detour(t: Tree, from: nat, to: nat, i: int, j: int)
    requires
        0 <= i < j < t.path(from, to).len(),
    ensures
        revision_of(t.path(from, to)[i]) != revision_of(t.path(from, to)[j]),
        t.path(from, to)[i] is Down ==> t.path(from, to)[j] is Down,
    decreases from + to,
{
    let p = t.path(from, to);
    if from > to && t.parent(from) < from {
        let rest = t.path(t.parent(from), to);
        lemma_path_bound(t, t.parent(from), to);
        assert(p[j] == rest[j - 1]);
        if i > 0 {
            assert(p[i] == rest[i - 1]);
            law_path_is_no_detour(t, t.parent(from), to, i - 1, j - 1);
        }
    } else if from < to && t.parent(to) < to {
        let rest = t.path(from, t.parent(to));
        lemma_path_bound(t, from, t.parent(to));
        assert(p[i] == rest[i]);
        if j < rest.len() {
            assert(p[j] == rest[j]);
            law_path_is_no_detour(t, from, t.parent(to), i, j);
        }
    }
}

/// A history of one text begins with it, has nothing to undo or to do again, and shows the given
/// selections first.
pub proof fn law_fresh_history(text: Seq<char>, initial: Sels)
    ensures
        Tree::fresh(text, initial).wf(),
        Tree::fresh(text, initial).count() == 1,
        Tree::fresh(text, initial).texts[0] == text,
        Tree::fresh(text, initial).latest[0] is None,
        Tree::fresh(text, initial).initial == initial,
{
}

/// What would be done again at any other revision is the same after an edit is recorded, and at
/// the new revision there is nothing to do again.
pub proof fn law_record_keeps_other_branches(t: Tree, e: Edit, text: Seq<char>, r: nat)
    requires
        t.wf(),
        e.parent < t.count(),
        r < t.count(),
        r != e.parent,
    ensures
        t.recorded(e, text).latest[r as int] == t.latest[r as int],
        t.recorded(e, text).latest[t.count() as int] is None,
        t.recorded(e, text).count() == t.count() + 1,
        t.recorded(e, text).initial == t.initial,
{
}

} // verus!

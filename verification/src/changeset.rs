//! Changes to a text as data: what to keep, delete and insert from start to end.

use crate::strings::{chars_of, string_of};
use crate::text::Text;
use vstd::prelude::*;
use vstd::string::*;

verus! {

/// One step over the old text, as a value.
pub enum Step {
    Retain(nat),
    Delete(nat),
    Insert(Seq<char>),
}

impl Step {
    /// How many characters the step speaks of.
    pub open spec fn len(self) -> nat {
        match self {
            Step::Retain(n) => n,
            Step::Delete(n) => n,
            Step::Insert(s) => s.len(),
        }
    }

    /// The step without its first `k` characters.
    pub open spec fn skip(self, k: nat) -> Step {
        match self {
            Step::Retain(n) => Step::Retain((n - k) as nat),
            Step::Delete(n) => Step::Delete((n - k) as nat),
            Step::Insert(s) => Step::Insert(s.skip(k as int)),
        }
    }
}

/// The length of the text that `steps` apply to.
pub open spec fn len_before(steps: Seq<Step>) -> nat
    decreases steps.len(),
{
    if steps.len() == 0 {
        0
    } else {
        len_before(steps.drop_first()) + match steps[0] {
            Step::Insert(_) => 0,
            s => s.len(),
        }
    }
}

/// The length of the text that `steps` produce.
pub open spec fn len_after(steps: Seq<Step>) -> nat
    decreases steps.len(),
{
    if steps.len() == 0 {
        0
    } else {
        len_after(steps.drop_first()) + match steps[0] {
            Step::Delete(_) => 0,
            s => s.len(),
        }
    }
}

/// The text that `steps` make of `t`.
pub open spec fn applied(steps: Seq<Step>, t: Seq<char>) -> Seq<char>
    decreases steps.len(),
{
    if steps.len() == 0 {
        Seq::empty()
    } else {
        match steps[0] {
            Step::Retain(n) => t.take(n as int) + applied(steps.drop_first(), t.skip(n as int)),
            Step::Delete(n) => applied(steps.drop_first(), t.skip(n as int)),
            Step::Insert(s) => s + applied(steps.drop_first(), t),
        }
    }
}

/// The steps that undo `steps`, which were applied to `t`.
pub open spec fn inverted(steps: Seq<Step>, t: Seq<char>) -> Seq<Step>
    decreases steps.len(),
{
    if steps.len() == 0 {
        Seq::empty()
    } else {
        match steps[0] {
            Step::Retain(n) => seq![Step::Retain(n)] + inverted(
                steps.drop_first(),
                t.skip(n as int),
            ),
            Step::Delete(n) => seq![Step::Insert(t.take(n as int))] + inverted(
                steps.drop_first(),
                t.skip(n as int),
            ),
            Step::Insert(s) => seq![Step::Delete(s.len())] + inverted(steps.drop_first(), t),
        }
    }
}

/// `steps` without the first `k` characters of its first step.
pub open spec fn advanced(steps: Seq<Step>, k: nat) -> Seq<Step> {
    if k >= steps[0].len() {
        steps.drop_first()
    } else {
        seq![steps[0].skip(k)] + steps.drop_first()
    }
}

pub open spec fn total(steps: Seq<Step>) -> nat
    decreases steps.len(),
{
    if steps.len() == 0 {
        0
    } else {
        total(steps.drop_first()) + steps[0].len()
    }
}

/// No step is empty.
pub open spec fn nonempty(steps: Seq<Step>) -> bool {
    forall|i: int| 0 <= i < steps.len() ==> (#[trigger] steps[i]).len() > 0
}

/// What the first `k` characters of the step `a` become under the step `b`.
pub open spec fn joined(a: Step, b: Step, k: nat) -> Seq<Step> {
    match (a, b) {
        (Step::Retain(_), Step::Retain(_)) => seq![Step::Retain(k)],
        (Step::Retain(_), Step::Delete(_)) => seq![Step::Delete(k)],
        (Step::Insert(s), Step::Retain(_)) => seq![Step::Insert(s.take(k as int))],
        _ => Seq::empty(),
    }
}

pub open spec fn smaller(a: nat, b: nat) -> nat {
    if a <= b {
        a
    } else {
        b
    }
}

/// The steps of `a` followed by those of `b`, as one pass over the first text.
pub open spec fn composed(a: Seq<Step>, b: Seq<Step>) -> Seq<Step>
    decreases total(a) + total(b),
    when nonempty(a) && nonempty(b) via composed_decreases
{
    if a.len() > 0 && a[0] is Delete {
        seq![a[0]] + composed(a.drop_first(), b)
    } else if b.len() > 0 && b[0] is Insert {
        seq![b[0]] + composed(a, b.drop_first())
    } else if a.len() == 0 || b.len() == 0 {
        Seq::empty()
    } else {
        let k = smaller(a[0].len(), b[0].len());
        joined(a[0], b[0], k) + composed(advanced(a, k), advanced(b, k))
    }
}

#[via_fn]
proof fn composed_decreases(a: Seq<Step>, b: Seq<Step>) {
    if a.len() > 0 {
        assert(a[0].len() > 0);
    }
    if b.len() > 0 {
        assert(b[0].len() > 0);
    }
    if a.len() > 0 && b.len() > 0 {
        let k = smaller(a[0].len(), b[0].len());
        lemma_advanced_total(a, k);
        lemma_advanced_total(b, k);
    }
}

proof fn lemma_advanced_total(a: Seq<Step>, k: nat)
    requires
        a.len() > 0,
        k <= a[0].len(),
    ensures
        total(advanced(a, k)) == total(a) - k,
{
    if k < a[0].len() {
        assert(advanced(a, k).drop_first() =~= a.drop_first());
    }
}

proof fn lemma_advanced(a: Seq<Step>, k: nat)
    requires
        a.len() > 0,
        nonempty(a),
        0 < k <= a[0].len(),
    ensures
        nonempty(advanced(a, k)),
        nonempty(a.drop_first()),
        !(a[0] is Insert) ==> len_before(advanced(a, k)) == len_before(a) - k,
        a[0] is Insert ==> len_before(advanced(a, k)) == len_before(a),
        !(a[0] is Delete) ==> len_after(advanced(a, k)) == len_after(a) - k,
        a[0] is Delete ==> len_after(advanced(a, k)) == len_after(a),
        forall|t: Seq<char>| #![trigger applied(a, t)]
            {
                &&& a[0] is Retain && t.len() >= a[0].len() ==> applied(a, t) == t.take(k as int)
                    + applied(advanced(a, k), t.skip(k as int))
                &&& a[0] is Delete && t.len() >= a[0].len() ==> applied(a, t) == applied(
                    advanced(a, k),
                    t.skip(k as int),
                )
                &&& a[0] is Insert ==> applied(a, t) == a[0]->Insert_0.take(k as int) + applied(
                    advanced(a, k),
                    t,
                )
            },
{
    let r = a.drop_first();
    assert forall|i: int| 0 <= i < r.len() implies (#[trigger] r[i]).len() > 0 by {
        assert(a[i + 1].len() > 0);
    }
    let v = advanced(a, k);
    if k < a[0].len() {
        assert(v.drop_first() =~= r);
        assert forall|i: int| 0 <= i < v.len() implies (#[trigger] v[i]).len() > 0 by {
            if i > 0 {
                assert(v[i] == a[i]);
            }
        }
    }
    assert forall|t: Seq<char>| #![trigger applied(a, t)]
        {
            &&& a[0] is Retain && t.len() >= a[0].len() ==> applied(a, t) == t.take(k as int)
                + applied(v, t.skip(k as int))
            &&& a[0] is Delete && t.len() >= a[0].len() ==> applied(a, t) == applied(
                v,
                t.skip(k as int),
            )
            &&& a[0] is Insert ==> applied(a, t) == a[0]->Insert_0.take(k as int) + applied(v, t)
        } by {
        match a[0] {
            Step::Retain(n) => {
                if t.len() >= n && k < n {
                    assert(t.skip(k as int).skip(n - k) =~= t.skip(n as int));
                    assert(t.take(k as int) + (t.skip(k as int).take(n - k) + applied(
                        r,
                        t.skip(n as int),
                    )) =~= t.take(n as int) + applied(r, t.skip(n as int)));
                }
            },
            Step::Delete(n) => {
                if t.len() >= n && k < n {
                    assert(t.skip(k as int).skip(n - k) =~= t.skip(n as int));
                }
            },
            Step::Insert(s) => {
                if k < s.len() {
                    assert(s.take(k as int) + (s.skip(k as int) + applied(r, t)) =~= s + applied(
                        r,
                        t,
                    ));
                } else {
                    assert(s.take(k as int) =~= s);
                }
            },
        }
    }
}

/// The length of the text that results from steps that fit.
pub proof fn lemma_applied_len(steps: Seq<Step>, t: Seq<char>)
    requires
        len_before(steps) == t.len(),
    ensures
        applied(steps, t).len() == len_after(steps),
    decreases steps.len(),
{
    if steps.len() > 0 {
        match steps[0] {
            Step::Retain(n) => {
                lemma_applied_len(steps.drop_first(), t.skip(n as int));
            },
            Step::Delete(n) => {
                lemma_applied_len(steps.drop_first(), t.skip(n as int));
            },
            Step::Insert(_) => {
                lemma_applied_len(steps.drop_first(), t);
            },
        }
    }
}

/// Inverted steps take the changed text back to the text before.
pub proof fn law_invert_restores(steps: Seq<Step>, t: Seq<char>)
    requires
        len_before(steps) == t.len(),
    ensures
        len_before(inverted(steps, t)) == len_after(steps),
        len_after(inverted(steps, t)) == len_before(steps),
        applied(inverted(steps, t), applied(steps, t)) == t,
    decreases steps.len(),
{
    let u = applied(steps, t);
    let r = steps.drop_first();
    let inv = inverted(steps, t);
    if steps.len() > 0 {
        match steps[0] {
            Step::Retain(n) => {
                law_invert_restores(r, t.skip(n as int));
                assert(inv.drop_first() =~= inverted(r, t.skip(n as int)));
                assert(u.skip(n as int) =~= applied(r, t.skip(n as int)));
                assert(u.take(n as int) + t.skip(n as int) =~= t);
            },
            Step::Delete(n) => {
                law_invert_restores(r, t.skip(n as int));
                assert(inv.drop_first() =~= inverted(r, t.skip(n as int)));
                assert(t.take(n as int) + t.skip(n as int) =~= t);
            },
            Step::Insert(s) => {
                law_invert_restores(r, t);
                assert(inv.drop_first() =~= inverted(r, t));
                assert(u.skip(s.len() as int) =~= applied(r, t));
            },
        }
    } else {
        assert(t =~= Seq::<char>::empty());
    }
}

/// Composed steps do at once what the two do one after the other.
pub proof fn law_compose_is_sequence(a: Seq<Step>, b: Seq<Step>, t: Seq<char>)
    requires
        nonempty(a),
        nonempty(b),
        len_before(a) == t.len(),
        len_after(a) == len_before(b),
    ensures
        nonempty(composed(a, b)),
        len_before(composed(a, b)) == len_before(a),
        len_after(composed(a, b)) == len_after(b),
        applied(composed(a, b), t) == applied(b, applied(a, t)),
    decreases total(a) + total(b),
{
    lemma_applied_len(a, t);
    let c = composed(a, b);
    let u = applied(a, t);
    if a.len() > 0 {
        assert(a[0].len() > 0);
    }
    if b.len() > 0 {
        assert(b[0].len() > 0);
    }
    if a.len() > 0 && a[0] is Delete {
        let n = a[0]->Delete_0;
        lemma_advanced(a, n);
        law_compose_is_sequence(a.drop_first(), b, t.skip(n as int));
        lemma_prefixed(a[0], composed(a.drop_first(), b));
    } else if b.len() > 0 && b[0] is Insert {
        lemma_advanced(b, b[0].len());
        law_compose_is_sequence(a, b.drop_first(), t);
        lemma_prefixed(b[0], composed(a, b.drop_first()));
    } else if a.len() == 0 || b.len() == 0 {
        if b.len() > 0 {
            assert(len_before(b) > 0);
        }
        if a.len() > 0 {
            assert(len_after(a) > 0);
        }
        assert(t =~= Seq::<char>::empty());
    } else {
        let k = smaller(a[0].len(), b[0].len());
        lemma_advanced(a, k);
        lemma_advanced(b, k);
        lemma_advanced_total(a, k);
        lemma_advanced_total(b, k);
        let a2 = advanced(a, k);
        let b2 = advanced(b, k);
        assert(applied(b, u) == applied(b, u));
        match (a[0], b[0]) {
            (Step::Retain(n), Step::Retain(m)) => {
                let t2 = t.skip(k as int);
                law_compose_is_sequence(a2, b2, t2);
                lemma_prefixed(Step::Retain(k), composed(a2, b2));
                assert(u =~= t.take(k as int) + applied(a2, t2));
                lemma_applied_len(a2, t2);
                assert(u.skip(k as int) =~= applied(a2, t2));
                assert(u.take(k as int) =~= t.take(k as int));
                assert(applied(b, u) == u.take(k as int) + applied(b2, u.skip(k as int)));
            },
            (Step::Retain(n), Step::Delete(m)) => {
                let t2 = t.skip(k as int);
                law_compose_is_sequence(a2, b2, t2);
                lemma_prefixed(Step::Delete(k), composed(a2, b2));
                assert(u =~= t.take(k as int) + applied(a2, t2));
                assert(u.skip(k as int) =~= applied(a2, t2));
            },
            (Step::Insert(s), Step::Retain(m)) => {
                law_compose_is_sequence(a2, b2, t);
                lemma_prefixed(Step::Insert(s.take(k as int)), composed(a2, b2));
                assert(u =~= s.take(k as int) + applied(a2, t));
                assert(u.skip(k as int) =~= applied(a2, t));
                assert(u.take(k as int) =~= s.take(k as int));
            },
            (Step::Insert(s), Step::Delete(m)) => {
                law_compose_is_sequence(a2, b2, t);
                assert(u =~= s.take(k as int) + applied(a2, t));
                assert(u.skip(k as int) =~= applied(a2, t));
                assert(c =~= composed(a2, b2));
            },
            _ => {},
        }
    }
}

proof fn lemma_prefixed(s: Step, r: Seq<Step>)
    ensures
        (seq![s] + r).drop_first() == r,
        (seq![s] + r)[0] == s,
        nonempty(r) && s.len() > 0 ==> nonempty(seq![s] + r),
{
    let c = seq![s] + r;
    assert(c.drop_first() =~= r);
    if nonempty(r) && s.len() > 0 {
        assert forall|i: int| 0 <= i < c.len() implies (#[trigger] c[i]).len() > 0 by {
            if i > 0 {
                assert(c[i] == r[i - 1]);
            }
        }
    }
}

/// One step over the old text.
#[derive(Debug)]
pub enum Operation {
    Retain(usize),
    Delete(usize),
    Insert(Vec<char>),
}

impl View for Operation {
    type V = Step;

    open spec fn view(&self) -> Step {
        match self {
            Operation::Retain(n) => Step::Retain(*n as nat),
            Operation::Delete(n) => Step::Delete(*n as nat),
            Operation::Insert(s) => Step::Insert(s@),
        }
    }
}

fn copy_chars(v: &Vec<char>, from: usize, to: usize) -> (r: Vec<char>)
    requires
        from <= to <= v@.len(),
    ensures
        r@ == v@.subrange(from as int, to as int),
{
    let mut r: Vec<char> = Vec::new();
    let mut i: usize = from;
    while i < to
        invariant
            from <= i <= to <= v@.len(),
            r@ == v@.subrange(from as int, i as int),
        decreases to - i,
    {
        r.push(v[i]);
        i = i + 1;
        assert(r@ =~= v@.subrange(from as int, i as int));
    }
    r
}

impl Operation {
    fn len(&self) -> (r: usize)
        ensures
            r == self@.len(),
    {
        match self {
            Operation::Retain(n) => *n,
            Operation::Delete(n) => *n,
            Operation::Insert(s) => s.len(),
        }
    }

    /// `self` without its first `k` characters.
    fn tail(&self, k: usize) -> (r: Operation)
        requires
            k <= self@.len(),
        ensures
            r@ == self@.skip(k as nat),
    {
        match self {
            Operation::Retain(n) => Operation::Retain(*n - k),
            Operation::Delete(n) => Operation::Delete(*n - k),
            Operation::Insert(s) => {
                let t = copy_chars(s, k, s.len());
                assert(t@ =~= s@.skip(k as int));
                Operation::Insert(t)
            },
        }
    }

    fn copy(&self) -> (r: Operation)
        ensures
            r@ == self@,
    {
        match self {
            Operation::Retain(n) => Operation::Retain(*n),
            Operation::Delete(n) => Operation::Delete(*n),
            Operation::Insert(s) => {
                let t = copy_chars(s, 0, s.len());
                assert(t@ =~= s@);
                Operation::Insert(t)
            },
        }
    }
}

pub open spec fn steps_of(ops: Seq<Operation>) -> Seq<Step> {
    ops.map_values(|o: Operation| o@)
}

/// A change to a whole text.
pub struct ChangeSet {
    ops: Vec<Operation>,
    before: usize,
    after: usize,
}

impl View for ChangeSet {
    type V = Seq<Step>;

    closed spec fn view(&self) -> Seq<Step> {
        steps_of(self.ops@)
    }
}

/// A change that does not fit the text it was applied to: it was made for a text of
/// another length.
#[derive(Debug, Clone, Copy, PartialEq, Eq, Structural)]
pub struct LengthMismatch {
    pub expected: usize,
    pub found: usize,
}

impl ChangeSet {
    #[verifier::type_invariant]
    spec fn inv(self) -> bool {
        &&& nonempty(steps_of(self.ops@))
        &&& self.before == len_before(steps_of(self.ops@))
        &&& self.after == len_after(steps_of(self.ops@))
    }

    /// The length of the text that the change is for.
    pub fn len_before(&self) -> (r: usize)
        ensures
            r == len_before(self@),
            nonempty(self@),
    {
        proof {
            use_type_invariant(self);
        }
        self.before
    }

    /// The length of the text that the change produces.
    pub fn len_after(&self) -> (r: usize)
        ensures
            r == len_after(self@),
    {
        proof {
            use_type_invariant(self);
        }
        self.after
    }

    pub fn clone(&self) -> (r: ChangeSet)
        ensures
            r@ == self@,
    {
        proof {
            use_type_invariant(self);
        }
        let mut ops: Vec<Operation> = Vec::new();
        let n = self.ops.len();
        let mut i: usize = 0;
        while i < n
            invariant
                i <= n == self.ops@.len(),
                steps_of(ops@) == steps_of(self.ops@).take(i as int),
            decreases n - i,
        {
            let ghost done = steps_of(ops@);
            let op = self.ops[i].copy();
            let ghost o = op@;
            ops.push(op);
            i = i + 1;
            assert(steps_of(ops@) =~= done.push(o));
            assert(steps_of(ops@) =~= steps_of(self.ops@).take(i as int));
        }
        assert(steps_of(ops@) =~= steps_of(self.ops@));
        ChangeSet { ops, before: self.before, after: self.after }
    }

    /// The text that the change makes of `text`; an error where the lengths differ.
    pub fn apply(&self, text: &Text) -> (r: Result<Text, LengthMismatch>)
        ensures
            match r {
                Ok(t) => len_before(self@) == text@.len() && t@ == applied(self@, text@)
                    && t.spec_line_ending() == text.spec_line_ending(),
                Err(e) => len_before(self@) != text@.len() && e.expected == len_before(self@)
                    && e.found == text@.len(),
            },
    {
        proof {
            use_type_invariant(self);
        }
        let found = text.len_chars();
        if found != self.before {
            return Err(LengthMismatch { expected: self.before, found });
        }
        let mut cur = text.clone();
        let mut pos: usize = 0;
        let n = self.ops.len();
        let mut i: usize = 0;
        assert(self@.skip(0) =~= self@);
        assert(cur@.skip(0) =~= cur@);
        while i < n
            invariant
                i <= n == self.ops@.len(),
                pos <= cur@.len(),
                len_before(self@.skip(i as int)) == cur@.len() - pos,
                cur@.take(pos as int) + applied(self@.skip(i as int), cur@.skip(pos as int))
                    == applied(self@, text@),
                cur.spec_line_ending() == text.spec_line_ending(),
            decreases n - i,
        {
            let ghost rest = self@.skip(i as int);
            let ghost c0 = cur@;
            let ghost p0 = pos as int;
            assert(rest.drop_first() =~= self@.skip(i as int + 1));
            assert(rest[0] == self.ops@[i as int]@);
            let whole = cur.len_chars();
            match &self.ops[i] {
                Operation::Retain(k) => {
                    pos = pos + *k;
                    assert(c0.skip(p0).skip(*k as int) =~= c0.skip(pos as int));
                    assert(c0.take(p0) + (c0.skip(p0).take(*k as int) + applied(
                        rest.drop_first(),
                        c0.skip(pos as int),
                    )) =~= c0.take(pos as int) + applied(rest.drop_first(), c0.skip(pos as int)));
                },
                Operation::Delete(k) => {
                    cur.remove(pos, pos + *k);
                    assert(cur@.skip(p0) =~= c0.skip(p0).skip(*k as int));
                    assert(cur@.take(p0) =~= c0.take(p0));
                },
                Operation::Insert(s) => {
                    let ins = string_of(s);
                    cur.insert(pos, ins.as_str());
                    let grown = cur.len_chars();
                    pos = pos + s.len();
                    assert(cur@.skip(pos as int) =~= c0.skip(p0));
                    assert(cur@.take(pos as int) =~= c0.take(p0) + s@);
                    assert(c0.take(p0) + (s@ + applied(rest.drop_first(), c0.skip(p0))) =~= (
                    c0.take(p0) + s@) + applied(rest.drop_first(), c0.skip(p0)));
                },
            }
            i = i + 1;
        }
        assert(self@.skip(n as int) =~= Seq::<Step>::empty());
        assert(cur@.take(pos as int) + Seq::<char>::empty() =~= cur@);
        Ok(cur)
    }

    /// The change that takes the changed text back to `text`.
    pub fn invert(&self, text: &Text) -> (r: ChangeSet)
        requires
            len_before(self@) == text@.len(),
        ensures
            r@ == inverted(self@, text@),
            applied(r@, applied(self@, text@)) == text@,
    {
        proof {
            use_type_invariant(self);
            law_invert_restores(self@, text@);
        }
        let content = text.to_string();
        let chars = chars_of(content.as_str());
        let mut ops: Vec<Operation> = Vec::new();
        let mut pos: usize = 0;
        let n = self.ops.len();
        let mut i: usize = 0;
        assert(self@.skip(0) =~= self@);
        assert(chars@.skip(0) =~= chars@);
        assert(steps_of(ops@) =~= Seq::<Step>::empty());
        assert(nonempty(self@));
        while i < n
            invariant
                i <= n == self.ops@.len(),
                pos <= chars@.len(),
                nonempty(self@),
                nonempty(steps_of(ops@)),
                len_before(self@.skip(i as int)) == chars@.len() - pos,
                steps_of(ops@) + inverted(self@.skip(i as int), chars@.skip(pos as int))
                    == inverted(self@, chars@),
            decreases n - i,
        {
            let ghost rest = self@.skip(i as int);
            let ghost p0 = pos as int;
            let ghost done = steps_of(ops@);
            assert(rest.drop_first() =~= self@.skip(i as int + 1));
            assert(rest[0] == self.ops@[i as int]@);
            assert(self@[i as int].len() > 0);
            let whole = chars.len();
            let op = match &self.ops[i] {
                Operation::Retain(k) => {
                    pos = pos + *k;
                    assert(chars@.skip(p0).skip(*k as int) =~= chars@.skip(pos as int));
                    Operation::Retain(*k)
                },
                Operation::Delete(k) => {
                    let gone = copy_chars(&chars, pos, pos + *k);
                    pos = pos + *k;
                    assert(gone@ =~= chars@.skip(p0).take(*k as int));
                    assert(chars@.skip(p0).skip(*k as int) =~= chars@.skip(pos as int));
                    Operation::Insert(gone)
                },
                Operation::Insert(s) => Operation::Delete(s.len()),
            };
            let ghost o = op@;
            ops.push(op);
            i = i + 1;
            proof {
                let later = inverted(rest.drop_first(), chars@.skip(pos as int));
                assert(steps_of(ops@) =~= done.push(o));
                assert(done + (seq![o] + later) =~= done.push(o) + later);
                assert forall|j: int| 0 <= j < steps_of(ops@).len() implies (
                #[trigger] steps_of(ops@)[j]).len() > 0 by {
                    if j < done.len() {
                        assert(steps_of(ops@)[j] == done[j]);
                    }
                }
            }
        }
        assert(self@.skip(n as int) =~= Seq::<Step>::empty());
        assert(steps_of(ops@) =~= inverted(self@, chars@));
        ChangeSet { ops, before: self.after, after: self.before }
    }

    /// This change followed by `next`, as one change.
    pub fn compose(self, next: ChangeSet) -> (r: ChangeSet)
        requires
            len_after(self@) == len_before(next@),
        ensures
            r@ == composed(self@, next@),
            len_before(r@) == len_before(self@),
            len_after(r@) == len_after(next@),
            forall|t: Seq<char>| #![trigger applied(self@, t)]
                t.len() == len_before(self@) ==> applied(r@, t) == applied(
                    next@,
                    applied(self@, t),
                ),
    {
        proof {
            use_type_invariant(&self);
            use_type_invariant(&next);
        }
        let ghost t0 = Seq::new(len_before(self@), |i: int| 'x');
        proof {
            law_compose_is_sequence(self@, next@, t0);
            assert forall|t: Seq<char>| #![trigger applied(self@, t)]
                t.len() == len_before(self@) implies applied(composed(self@, next@), t) == applied(
                next@,
                applied(self@, t),
            ) by {
                law_compose_is_sequence(self@, next@, t);
            }
        }
        let ops = compose_ops(&self.ops, &next.ops);
        ChangeSet { ops, before: self.before, after: next.after }
    }
}

/// What is left of `ops` from operation `i` on, without the first `off` characters.
spec fn left(ops: Seq<Operation>, i: int, off: int) -> Seq<Step> {
    if off == 0 {
        steps_of(ops).skip(i)
    } else {
        seq![ops[i]@.skip(off as nat)] + steps_of(ops).skip(i + 1)
    }
}

spec fn within(ops: Seq<Operation>, i: int, off: int) -> bool {
    &&& 0 <= i <= ops.len()
    &&& 0 <= off
    &&& off > 0 ==> i < ops.len() && off < ops[i]@.len()
}

proof fn lemma_left(ops: Seq<Operation>, i: int, off: int, k: int)
    requires
        within(ops, i, off),
        nonempty(steps_of(ops)),
        i < ops.len(),
        0 < k <= ops[i]@.len() - off,
    ensures
        left(ops, i, off).len() > 0,
        left(ops, i, off)[0] == (if off == 0 {
            ops[i]@
        } else {
            ops[i]@.skip(off as nat)
        }),
        left(ops, i, off)[0].len() == ops[i]@.len() - off,
        off + k == ops[i]@.len() ==> advanced(left(ops, i, off), k as nat) == left(ops, i + 1, 0),
        off + k < ops[i]@.len() ==> advanced(left(ops, i, off), k as nat) == left(ops, i, off + k),
        nonempty(left(ops, i, off)),
        off == 0 ==> left(ops, i, off).drop_first() == left(ops, i + 1, 0),
        off > 0 ==> left(ops, i, off).drop_first() == left(ops, i + 1, 0),
{
    let l = left(ops, i, off);
    let st = steps_of(ops);
    assert(l.drop_first() =~= st.skip(i + 1));
    assert(st[i].len() > 0);
    assert forall|j: int| 0 <= j < l.len() implies (#[trigger] l[j]).len() > 0 by {
        assert(st[i + j].len() > 0);
    }
    if off + k < ops[i]@.len() {
        match ops[i]@ {
            Step::Insert(s) => {
                if off > 0 {
                    assert(s.skip(off).skip(k) =~= s.skip(off + k));
                }
            },
            _ => {},
        }
        assert(advanced(l, k as nat) =~= left(ops, i, off + k));
    }
}

#[verifier::rlimit(80)]
#[verifier::spinoff_prover]
fn compose_ops(a: &Vec<Operation>, b: &Vec<Operation>) -> (out: Vec<Operation>)
    requires
        nonempty(steps_of(a@)),
        nonempty(steps_of(b@)),
    ensures
        steps_of(out@) == composed(steps_of(a@), steps_of(b@)),
{
    let mut out: Vec<Operation> = Vec::new();
    let mut i: usize = 0;
    let mut ao: usize = 0;
    let mut j: usize = 0;
    let mut bo: usize = 0;
    let ghost goal = composed(steps_of(a@), steps_of(b@));
    proof {
        assert(left(a@, 0, 0) =~= steps_of(a@));
        assert(left(b@, 0, 0) =~= steps_of(b@));
        assert(steps_of(out@) + goal =~= goal);
    }
    loop
        invariant
            nonempty(steps_of(a@)),
            nonempty(steps_of(b@)),
            within(a@, i as int, ao as int),
            within(b@, j as int, bo as int),
            steps_of(out@) + composed(
                left(a@, i as int, ao as int),
                left(b@, j as int, bo as int),
            ) == goal,
        ensures
            steps_of(out@) == goal,
        decreases a@.len() - i, b@.len() - j, if i < a@.len() {
            a@[i as int]@.len() - ao
        } else {
            0
        }, if j < b@.len() {
            b@[j as int]@.len() - bo
        } else {
            0
        },
    {
        let ghost la = left(a@, i as int, ao as int);
        let ghost lb = left(b@, j as int, bo as int);
        let ghost done = steps_of(out@);
        proof {
            if i < a@.len() {
                assert(steps_of(a@)[i as int].len() > 0);
                lemma_left(a@, i as int, ao as int, a@[i as int]@.len() - ao);
            } else {
                assert(la =~= Seq::<Step>::empty());
            }
            if j < b@.len() {
                assert(steps_of(b@)[j as int].len() > 0);
                lemma_left(b@, j as int, bo as int, b@[j as int]@.len() - bo);
            } else {
                assert(lb =~= Seq::<Step>::empty());
            }
        }
        if i < a.len() && matches!(&a[i], Operation::Delete(_)) {
            let op = a[i].tail(ao);
            assert(op@ == la[0]);
            out.push(op);
            i = i + 1;
            ao = 0;
            proof {
                assert(steps_of(out@) =~= done.push(la[0]));
                let later = composed(la.drop_first(), lb);
                assert(done + (seq![la[0]] + later) =~= done.push(la[0]) + later);
            }
        } else if j < b.len() && matches!(&b[j], Operation::Insert(_)) {
            let op = b[j].tail(bo);
            proof {
                if bo == 0 {
                    assert(op@ == lb[0]) by {
                        let s = b@[j as int]@->Insert_0;
                        assert(s.skip(0) =~= s);
                    }
                }
            }
            out.push(op);
            j = j + 1;
            bo = 0;
            proof {
                assert(steps_of(out@) =~= done.push(lb[0]));
                let later = composed(la, lb.drop_first());
                assert(done + (seq![lb[0]] + later) =~= done.push(lb[0]) + later);
            }
        } else if i >= a.len() || j >= b.len() {
            assert(done + Seq::<Step>::empty() =~= done);
            break;
        } else {
            let na: usize = a[i].len() - ao;
            let nb: usize = b[j].len() - bo;
            let k: usize = if na <= nb {
                na
            } else {
                nb
            };
            proof {
                lemma_left(a@, i as int, ao as int, k as int);
                lemma_left(b@, j as int, bo as int, k as int);
            }
            match (&a[i], &b[j]) {
                (Operation::Retain(_), Operation::Retain(_)) => {
                    out.push(Operation::Retain(k));
                },
                (Operation::Retain(_), Operation::Delete(_)) => {
                    out.push(Operation::Delete(k));
                },
                (Operation::Insert(s), Operation::Retain(_)) => {
                    let piece = copy_chars(s, ao, ao + k);
                    proof {
                        if ao > 0 {
                            assert(s@.skip(ao as int).take(k as int) =~= piece@);
                        } else {
                            assert(s@.take(k as int) =~= piece@);
                        }
                    }
                    out.push(Operation::Insert(piece));
                },
                _ => {},
            }
            proof {
                let head = joined(la[0], lb[0], k as nat);
                let later = composed(advanced(la, k as nat), advanced(lb, k as nat));
                assert(steps_of(out@) =~= done + head);
                assert(done + (head + later) =~= (done + head) + later);
            }
            ao = ao + k;
            bo = bo + k;
            if ao == a[i].len() {
                i = i + 1;
                ao = 0;
            }
            if bo == b[j].len() {
                j = j + 1;
                bo = 0;
            }
        }
    }
    out
}

/// Builds a change from the start of a text to its end.
pub struct ChangeSetBuilder {
    ops: Vec<Operation>,
    len: usize,
    before: usize,
    after: usize,
}

impl ChangeSetBuilder {
    #[verifier::type_invariant]
    spec fn inv(self) -> bool {
        &&& nonempty(steps_of(self.ops@))
        &&& self.before == len_before(steps_of(self.ops@))
        &&& self.after == len_after(steps_of(self.ops@))
        &&& self.before <= self.len
    }

    /// The steps so far.
    pub closed spec fn steps(&self) -> Seq<Step> {
        steps_of(self.ops@)
    }

    /// The length of the text that the change is for.
    pub closed spec fn text_len(&self) -> nat {
        self.len as nat
    }

    /// A change to a text of `len` characters, with nothing in it yet.
    pub fn new(len: usize) -> (r: Self)
        ensures
            r.steps() == Seq::<Step>::empty(),
            r.text_len() == len,
    {
        let r = ChangeSetBuilder { ops: Vec::new(), len, before: 0, after: 0 };
        assert(r.steps() =~= Seq::empty());
        r
    }

    fn push(self, op: Operation) -> (r: Self)
        requires
            op@.len() > 0,
            !(op@ is Insert) ==> len_before(self.steps()) + op@.len() <= self.text_len(),
            !(op@ is Delete) ==> len_after(self.steps()) + op@.len() <= usize::MAX,
        ensures
            r.steps() == self.steps().push(op@),
            r.text_len() == self.text_len(),
    {
        proof {
            use_type_invariant(&self);
            lemma_push_step(self.steps(), op@);
        }
        let n = op.len();
        let mut ops = self.ops;
        let (before, after) = match &op {
            Operation::Retain(_) => (self.before + n, self.after + n),
            Operation::Delete(_) => (self.before + n, self.after),
            Operation::Insert(_) => (self.before, self.after + n),
        };
        let ghost s0 = steps_of(ops@);
        ops.push(op);
        assert(steps_of(ops@) =~= s0.push(op@));
        ChangeSetBuilder { ops, len: self.len, before, after }
    }

    /// Keeps the next `n` characters.
    pub fn retain(self, n: usize) -> (r: Self)
        requires
            len_before(self.steps()) + n <= self.text_len(),
            len_after(self.steps()) + n <= usize::MAX,
        ensures
            r.steps() == (if n == 0 {
                self.steps()
            } else {
                self.steps().push(Step::Retain(n as nat))
            }),
            r.text_len() == self.text_len(),
    {
        if n == 0 {
            self
        } else {
            self.push(Operation::Retain(n))
        }
    }

    /// Deletes the next `n` characters.
    pub fn delete(self, n: usize) -> (r: Self)
        requires
            len_before(self.steps()) + n <= self.text_len(),
        ensures
            r.steps() == (if n == 0 {
                self.steps()
            } else {
                self.steps().push(Step::Delete(n as nat))
            }),
            r.text_len() == self.text_len(),
    {
        if n == 0 {
            self
        } else {
            self.push(Operation::Delete(n))
        }
    }

    /// Inserts `s` here.
    pub fn insert(self, s: &str) -> (r: Self)
        requires
            len_after(self.steps()) + s@.len() <= usize::MAX,
        ensures
            r.steps() == (if s@.len() == 0 {
                self.steps()
            } else {
                self.steps().push(Step::Insert(s@))
            }),
            r.text_len() == self.text_len(),
    {
        let chars = chars_of(s);
        if chars.len() == 0 {
            self
        } else {
            self.push(Operation::Insert(chars))
        }
    }

    /// Keeps everything up to the end of the text.
    pub fn retain_rest(self) -> (r: Self)
        requires
            len_after(self.steps()) + self.text_len() - len_before(self.steps()) <= usize::MAX,
        ensures
            r.steps() == (if len_before(self.steps()) == self.text_len() {
                self.steps()
            } else {
                self.steps().push(
                    Step::Retain((self.text_len() - len_before(self.steps())) as nat),
                )
            }),
            r.text_len() == self.text_len(),
            len_before(r.steps()) == r.text_len(),
    {
        proof {
            use_type_invariant(&self);
            lemma_push_step(
                self.steps(),
                Step::Retain((self.text_len() - len_before(self.steps())) as nat),
            );
        }
        let rest: usize = self.len - self.before;
        self.retain(rest)
    }

    /// The finished change. Every character of the text has been spoken of.
    pub fn finish(self) -> (r: ChangeSet)
        requires
            len_before(self.steps()) == self.text_len(),
        ensures
            r@ == self.steps(),
            len_before(r@) == self.text_len(),
    {
        proof {
            use_type_invariant(&self);
        }
        ChangeSet { ops: self.ops, before: self.before, after: self.after }
    }
}

/// What one more step adds to the lengths.
pub proof fn lemma_push_step(steps: Seq<Step>, s: Step)
    ensures
        len_before(steps.push(s)) == len_before(steps) + (if s is Insert {
            0
        } else {
            s.len()
        }),
        len_after(steps.push(s)) == len_after(steps) + (if s is Delete {
            0
        } else {
            s.len()
        }),
        nonempty(steps) && s.len() > 0 ==> nonempty(steps.push(s)),
    decreases steps.len(),
{
    let p = steps.push(s);
    if steps.len() > 0 {
        lemma_push_step(steps.drop_first(), s);
        assert(p.drop_first() =~= steps.drop_first().push(s));
        assert(p[0] == steps[0]);
    } else {
        assert(p.drop_first() =~= Seq::<Step>::empty());
        assert(p[0] == s);
        assert(len_before(p.drop_first()) == 0);
        assert(len_after(p.drop_first()) == 0);
    }
    if nonempty(steps) && s.len() > 0 {
        assert forall|i: int| 0 <= i < p.len() implies (#[trigger] p[i]).len() > 0 by {
            if i < steps.len() {
                assert(p[i] == steps[i]);
            }
        }
    }
}

proof fn lemma_lens_cons(step: Step, rest: Seq<Step>)
    ensures
        len_before(seq![step] + rest) == len_before(rest) + (if step is Insert {
            0
        } else {
            step.len()
        }),
        len_after(seq![step] + rest) == len_after(rest) + (if step is Delete {
            0
        } else {
            step.len()
        }),
{
    assert((seq![step] + rest).drop_first() =~= rest);
}

/// Keeping `before`, deleting `old`, putting `new` in and keeping `behind` leaves `new` in the
/// place of `old`.
pub proof fn law_a_change_replaces(
    before: Seq<char>,
    old_part: Seq<char>,
    new_part: Seq<char>,
    behind: Seq<char>,
)
    ensures
        ({
            let steps = seq![
                Step::Retain(before.len()),
                Step::Delete(old_part.len()),
                Step::Insert(new_part),
                Step::Retain(behind.len()),
            ];
            &&& len_before(steps) == (before + old_part + behind).len()
            &&& len_after(steps) == (before + new_part + behind).len()
            &&& applied(steps, before + old_part + behind) == before + new_part + behind
        }),
{
    let t = before + old_part + behind;
    let a = Step::Retain(before.len());
    let b = Step::Delete(old_part.len());
    let c = Step::Insert(new_part);
    let d = Step::Retain(behind.len());
    let none = Seq::<Step>::empty();
    lemma_lens_cons(d, none);
    assert(seq![d] + none =~= seq![d]);
    lemma_lens_cons(c, seq![d]);
    assert(seq![c] + seq![d] =~= seq![c, d]);
    lemma_lens_cons(b, seq![c, d]);
    assert(seq![b] + seq![c, d] =~= seq![b, c, d]);
    lemma_lens_cons(a, seq![b, c, d]);
    assert(seq![a] + seq![b, c, d] =~= seq![a, b, c, d]);
    assert(seq![a, b, c, d].drop_first() =~= seq![b, c, d]);
    assert(seq![b, c, d].drop_first() =~= seq![c, d]);
    assert(seq![c, d].drop_first() =~= seq![d]);
    assert(seq![d].drop_first() =~= none);
    let u = t.skip(before.len() as int);
    let v = u.skip(old_part.len() as int);
    assert(v =~= behind);
    assert(v.skip(behind.len() as int) =~= Seq::<char>::empty());
    assert(applied(none, v.skip(behind.len() as int)) =~= Seq::<char>::empty());
    assert(applied(seq![d], v) =~= behind);
    assert(applied(seq![c, d], v) =~= new_part + behind);
    assert(applied(seq![b, c, d], u) =~= new_part + behind);
    assert(t.take(before.len() as int) =~= before);
    assert(applied(seq![a, b, c, d], t) =~= before + new_part + behind);
}

/// A change that only keeps changes nothing.
pub proof fn law_keeping_changes_nothing(t: Seq<char>)
    ensures
        applied(seq![Step::Retain(t.len())], t) == t,
        len_before(seq![Step::Retain(t.len())]) == t.len(),
        len_after(seq![Step::Retain(t.len())]) == t.len(),
{
    let steps = seq![Step::Retain(t.len())];
    let none = Seq::<Step>::empty();
    lemma_lens_cons(steps[0], none);
    assert(seq![steps[0]] + none =~= steps);
    assert(steps.drop_first() =~= none);
    assert(t.take(t.len() as int) =~= t);
    assert(applied(none, t.skip(t.len() as int)) =~= Seq::<char>::empty());
    assert(applied(steps, t) =~= t);
}

} // verus!

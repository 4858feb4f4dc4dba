//! Selections: anchored ranges of characters, and non-empty sets of them.

use vstd::prelude::*;

verus! {

/// A selection between two character positions, both inclusive. `head` is the end that
/// moves; a selection whose ends coincide is a plain cursor.
#[derive(Debug, Clone, Copy, PartialEq, Eq, Structural)]
pub struct Selection {
    pub anchor: usize,
    pub head: usize,
}

impl Selection {
    pub fn new(anchor: usize, head: usize) -> (r: Self)
        ensures
            r == (Selection { anchor, head }),
    {
        Selection { anchor, head }
    }

    /// A cursor at `pos`.
    pub fn collapsed(pos: usize) -> (r: Self)
        ensures
            r == (Selection { anchor: pos, head: pos }),
    {
        Selection { anchor: pos, head: pos }
    }

    pub open spec fn spec_start(self) -> usize {
        if self.anchor <= self.head {
            self.anchor
        } else {
            self.head
        }
    }

    pub open spec fn spec_end(self) -> usize {
        if self.anchor <= self.head {
            self.head
        } else {
            self.anchor
        }
    }

    /// The smaller end.
    pub fn start(&self) -> (r: usize)
        ensures
            r == self.spec_start(),
    {
        if self.anchor <= self.head {
            self.anchor
        } else {
            self.head
        }
    }

    /// The larger end.
    pub fn end(&self) -> (r: usize)
        ensures
            r == self.spec_end(),
    {
        if self.anchor <= self.head {
            self.head
        } else {
            self.anchor
        }
    }

    pub fn is_collapsed(&self) -> (r: bool)
        ensures
            r == (self.anchor == self.head),
    {
        self.anchor == self.head
    }
}

/// What a selection set holds: its selections in order, and which one is primary.
#[verifier::ext_equal]
pub struct Sels {
    pub sels: Seq<Selection>,
    pub primary: nat,
}

impl Sels {
    pub open spec fn wf(self) -> bool {
        self.primary < self.sels.len()
    }

    pub open spec fn single(sel: Selection) -> Sels {
        Sels { sels: seq![sel], primary: 0 }
    }
}

/// A non-empty list of selections, one of them primary.
#[derive(Debug, PartialEq, Eq)]
pub struct SelectionSet {
    sels: Vec<Selection>,
    primary: usize,
}

impl View for SelectionSet {
    type V = Sels;

    closed spec fn view(&self) -> Sels {
        Sels { sels: self.sels@, primary: self.primary as nat }
    }
}

impl SelectionSet {
    #[verifier::type_invariant]
    spec fn inv(self) -> bool {
        self.primary < self.sels@.len()
    }

    /// The set of one selection.
    pub fn single(sel: Selection) -> (r: Self)
        ensures
            r@ == Sels::single(sel),
    {
        let mut sels: Vec<Selection> = Vec::new();
        sels.push(sel);
        let r = SelectionSet { sels, primary: 0 };
        assert(r@.sels =~= seq![sel]);
        r
    }

    /// The set of `sels`, with `sels[primary]` primary.
    pub fn from_vec(sels: Vec<Selection>, primary: usize) -> (r: Self)
        requires
            primary < sels@.len(),
        ensures
            r@ == (Sels { sels: sels@, primary: primary as nat }),
    {
        SelectionSet { sels, primary }
    }

    pub fn primary(&self) -> (r: Selection)
        ensures
            self@.wf(),
            r == self@.sels[self@.primary as int],
    {
        proof {
            use_type_invariant(self);
        }
        self.sels[self.primary]
    }

    pub fn primary_index(&self) -> (r: usize)
        ensures
            r == self@.primary,
    {
        self.primary
    }

    pub fn len(&self) -> (r: usize)
        ensures
            r == self@.sels.len(),
    {
        self.sels.len()
    }

    pub fn get(&self, i: usize) -> (r: Selection)
        requires
            i < self@.sels.len(),
        ensures
            r == self@.sels[i as int],
    {
        self.sels[i]
    }

    pub fn clone(&self) -> (r: Self)
        ensures
            r@ == self@,
    {
        proof {
            use_type_invariant(self);
        }
        let mut sels: Vec<Selection> = Vec::new();
        let n = self.sels.len();
        let mut i: usize = 0;
        while i < n
            invariant
                i <= n == self.sels@.len(),
                sels@ == self.sels@.take(i as int),
            decreases n - i,
        {
            sels.push(self.sels[i]);
            i = i + 1;
            assert(sels@ =~= self.sels@.take(i as int));
        }
        assert(sels@ =~= self.sels@);
        SelectionSet { sels, primary: self.primary }
    }
}

/// A selection, and whether it is the primary one.
#[derive(Clone, Copy)]
pub struct Marked {
    pub sel: Selection,
    pub primary: bool,
}

/// Two overlapping selections as one. It points the way of the primary one, or of the
/// first where neither is primary.
pub open spec fn union(a: Marked, b: Marked) -> Marked {
    let from = if a.sel.spec_start() <= b.sel.spec_start() {
        a.sel.spec_start()
    } else {
        b.sel.spec_start()
    };
    let to = if a.sel.spec_end() >= b.sel.spec_end() {
        a.sel.spec_end()
    } else {
        b.sel.spec_end()
    };
    let led = if b.primary {
        b.sel
    } else {
        a.sel
    };
    Marked {
        sel: if led.anchor <= led.head {
            Selection { anchor: from, head: to }
        } else {
            Selection { anchor: to, head: from }
        },
        primary: a.primary || b.primary,
    }
}

/// `s`, which is sorted by start, with `m` behind those that start no later.
pub open spec fn put_in_order(s: Seq<Marked>, m: Marked) -> Seq<Marked>
    decreases s.len(),
{
    if s.len() > 0 && m.sel.spec_start() < s.last().sel.spec_start() {
        put_in_order(s.drop_last(), m).push(s.last())
    } else {
        s.push(m)
    }
}

/// The selections sorted by start; those that start together keep their order.
pub open spec fn in_order(s: Seq<Marked>) -> Seq<Marked>
    decreases s.len(),
{
    if s.len() == 0 {
        s
    } else {
        put_in_order(in_order(s.drop_last()), s.last())
    }
}

/// Selections sorted by start, with each run of overlapping ones united.
pub open spec fn united(s: Seq<Marked>) -> Seq<Marked>
    decreases s.len(),
{
    if s.len() == 0 {
        s
    } else {
        let before = united(s.drop_last());
        let m = s.last();
        if before.len() > 0 && m.sel.spec_start() <= before.last().sel.spec_end() {
            before.drop_last().push(union(before.last(), m))
        } else {
            before.push(m)
        }
    }
}

/// Where the primary selection stands; the length where none is primary.
pub open spec fn primary_place(s: Seq<Marked>) -> nat
    decreases s.len(),
{
    if s.len() == 0 || s[0].primary {
        0
    } else {
        1 + primary_place(s.drop_first())
    }
}

impl Sels {
    pub open spec fn marked(self) -> Seq<Marked> {
        Seq::new(
            self.sels.len(),
            |i: int| Marked { sel: self.sels[i], primary: i == self.primary },
        )
    }

    /// The set with its overlapping selections united.
    pub open spec fn merged(self) -> Sels {
        let m = united(in_order(self.marked()));
        Sels { sels: m.map_values(|x: Marked| x.sel), primary: primary_place(m) }
    }

    /// The set with `sel` in place of its primary selection.
    pub open spec fn with_primary(self, sel: Selection) -> Sels {
        Sels { sels: self.sels.update(self.primary as int, sel), ..self }
    }
}

/// One selection alone is united with nothing.
pub proof fn lemma_single_merged(sel: Selection)
    ensures
        Sels::single(sel).merged() == Sels::single(sel),
{
    let one = Marked { sel, primary: true };
    let none = Seq::<Marked>::empty();
    assert(Sels::single(sel).marked() =~= seq![one]);
    assert(seq![one].drop_last() =~= none);
    assert(in_order(none) =~= none);
    assert(in_order(seq![one]) =~= seq![one]);
    assert(united(none) =~= none);
    assert(united(seq![one]) =~= seq![one]);
    assert(seq![one].map_values(|x: Marked| x.sel) =~= seq![sel]);
}

/// Some selection is primary.
pub open spec fn has_primary(s: Seq<Marked>) -> bool {
    exists|i: int| 0 <= i < s.len() && (#[trigger] s[i]).primary
}

proof fn lemma_put_keeps_primary(s: Seq<Marked>, m: Marked)
    ensures
        has_primary(s) || m.primary ==> has_primary(put_in_order(s, m)),
        put_in_order(s, m).len() == s.len() + 1,
    decreases s.len(),
{
    let r = put_in_order(s, m);
    if s.len() > 0 && m.sel.spec_start() < s.last().sel.spec_start() {
        lemma_put_keeps_primary(s.drop_last(), m);
        let t = put_in_order(s.drop_last(), m);
        if has_primary(s) {
            let i = choose|i: int| 0 <= i < s.len() && (#[trigger] s[i]).primary;
            if i == s.len() - 1 {
                assert(r[r.len() - 1].primary);
            } else {
                assert(s.drop_last()[i].primary);
                let j = choose|j: int| 0 <= j < t.len() && (#[trigger] t[j]).primary;
                assert(r[j] == t[j]);
            }
        } else if m.primary {
            let j = choose|j: int| 0 <= j < t.len() && (#[trigger] t[j]).primary;
            assert(r[j] == t[j]);
        }
    } else {
        if has_primary(s) {
            let i = choose|i: int| 0 <= i < s.len() && (#[trigger] s[i]).primary;
            assert(r[i] == s[i]);
        }
        assert(r[s.len() as int] == m);
    }
}

proof fn lemma_order_keeps_primary(s: Seq<Marked>)
    ensures
        has_primary(s) ==> has_primary(in_order(s)),
        in_order(s).len() == s.len(),
    decreases s.len(),
{
    if s.len() > 0 {
        lemma_order_keeps_primary(s.drop_last());
        lemma_put_keeps_primary(in_order(s.drop_last()), s.last());
        if has_primary(s) {
            let i = choose|i: int| 0 <= i < s.len() && (#[trigger] s[i]).primary;
            if i < s.len() - 1 {
                assert(s.drop_last()[i].primary);
            }
        }
    }
}

proof fn lemma_united_keeps_primary(s: Seq<Marked>)
    ensures
        has_primary(s) ==> has_primary(united(s)),
        s.len() > 0 ==> united(s).len() > 0,
    decreases s.len(),
{
    if s.len() > 0 {
        let t = s.drop_last();
        lemma_united_keeps_primary(t);
        let before = united(t);
        let r = united(s);
        if has_primary(s) {
            let i = choose|i: int| 0 <= i < s.len() && (#[trigger] s[i]).primary;
            if i == s.len() - 1 {
                assert(r[r.len() - 1].primary);
            } else {
                assert(t[i].primary);
                let j = choose|j: int| 0 <= j < before.len() && (#[trigger] before[j]).primary;
                assert(r[j].primary);
            }
        }
    }
}

proof fn lemma_primary_place(s: Seq<Marked>)
    ensures
        primary_place(s) <= s.len(),
        has_primary(s) ==> primary_place(s) < s.len(),
    decreases s.len(),
{
    if s.len() > 0 && !s[0].primary {
        lemma_primary_place(s.drop_first());
        if has_primary(s) {
            let i = choose|i: int| 0 <= i < s.len() && (#[trigger] s[i]).primary;
            assert(s.drop_first()[i - 1].primary);
        }
    }
}

/// No two selections of a merged set overlap, and they are in order.
pub proof fn law_merged_apart(s: Sels, i: int, j: int)
    requires
        s.wf(),
        0 <= i < j < s.merged().sels.len(),
    ensures
        s.merged().sels[i].spec_end() < s.merged().sels[j].spec_start(),
{
    let o = in_order(s.marked());
    lemma_in_order_sorted(s.marked());
    lemma_united_apart(o, i, j);
}

/// Sorted by start.
pub open spec fn by_start(s: Seq<Marked>) -> bool {
    forall|i: int, j: int|
        0 <= i < j < s.len() ==> (#[trigger] s[i]).sel.spec_start() <= (
        #[trigger] s[j]).sel.spec_start()
}

proof fn lemma_put_sorted(s: Seq<Marked>, m: Marked)
    requires
        by_start(s),
    ensures
        by_start(put_in_order(s, m)),
        forall|i: int|
            0 <= i < put_in_order(s, m).len() ==> (#[trigger] put_in_order(s, m)[i]) == m
                || s.contains(put_in_order(s, m)[i]),
    decreases s.len(),
{
    let r = put_in_order(s, m);
    if s.len() > 0 && m.sel.spec_start() < s.last().sel.spec_start() {
        let t = s.drop_last();
        lemma_put_sorted(t, m);
        let u = put_in_order(t, m);
        assert forall|i: int| 0 <= i < r.len() implies (#[trigger] r[i]) == m || s.contains(
            r[i],
        ) by {
            if i < u.len() {
                assert(r[i] == u[i]);
                if u[i] != m {
                    assert(t.contains(u[i]));
                    let k = choose|k: int| 0 <= k < t.len() && t[k] == u[i];
                    assert(s[k] == u[i]);
                }
            } else {
                assert(s[s.len() - 1] == r[i]);
            }
        }
        assert forall|i: int, j: int| 0 <= i < j < r.len() implies (
        #[trigger] r[i]).sel.spec_start() <= (#[trigger] r[j]).sel.spec_start() by {
            if j < u.len() {
                assert(u[i].sel.spec_start() <= u[j].sel.spec_start());
            } else {
                assert(r[i] == u[i]);
                if u[i] != m {
                    assert(t.contains(u[i]));
                    let k = choose|k: int| 0 <= k < t.len() && t[k] == u[i];
                    assert(s[k].sel.spec_start() <= s[s.len() - 1].sel.spec_start());
                }
            }
        }
    } else {
        assert forall|i: int| 0 <= i < r.len() implies (#[trigger] r[i]) == m || s.contains(
            r[i],
        ) by {
            if i < s.len() {
                assert(s[i] == r[i]);
            }
        }
        assert forall|i: int, j: int| 0 <= i < j < r.len() implies (
        #[trigger] r[i]).sel.spec_start() <= (#[trigger] r[j]).sel.spec_start() by {
            if j == s.len() && s.len() > 0 {
                if i < s.len() - 1 {
                    assert(s[i].sel.spec_start() <= s[s.len() - 1].sel.spec_start());
                }
            }
        }
    }
}

proof fn lemma_in_order_sorted(s: Seq<Marked>)
    ensures
        by_start(in_order(s)),
    decreases s.len(),
{
    if s.len() > 0 {
        lemma_in_order_sorted(s.drop_last());
        lemma_put_sorted(in_order(s.drop_last()), s.last());
    }
}

proof fn lemma_united_apart(s: Seq<Marked>, i: int, j: int)
    requires
        by_start(s),
        0 <= i < j < united(s).len(),
    ensures
        united(s)[i].sel.spec_end() < united(s)[j].sel.spec_start(),
    decreases s.len(),
{
    let t = s.drop_last();
    let before = united(t);
    let m = s.last();
    assert(by_start(t)) by {
        assert forall|a: int, b: int| 0 <= a < b < t.len() implies (
        #[trigger] t[a]).sel.spec_start() <= (#[trigger] t[b]).sel.spec_start() by {
            assert(s[a].sel.spec_start() <= s[b].sel.spec_start());
        }
    }
    if j < before.len() {
        lemma_united_apart(t, i, j);
    }
    if j == united(s).len() - 1 && before.len() > 0 {
        lemma_united_starts(t);
        if t.len() > 0 {
            assert(s[t.len() - 1].sel.spec_start() <= s[s.len() - 1].sel.spec_start());
        }
        if i < before.len() - 1 {
            lemma_united_apart(t, i, before.len() - 1);
        }
    }
}

proof fn lemma_united_starts(s: Seq<Marked>)
    requires
        by_start(s),
        s.len() > 0,
    ensures
        united(s).len() > 0,
        united(s).last().sel.spec_start() <= s.last().sel.spec_start(),
    decreases s.len(),
{
    let t = s.drop_last();
    if t.len() > 0 {
        assert(by_start(t)) by {
            assert forall|a: int, b: int| 0 <= a < b < t.len() implies (
            #[trigger] t[a]).sel.spec_start() <= (#[trigger] t[b]).sel.spec_start() by {
                assert(s[a].sel.spec_start() <= s[b].sel.spec_start());
            }
        }
        lemma_united_starts(t);
        assert(s[t.len() - 1].sel.spec_start() <= s[s.len() - 1].sel.spec_start());
    }
}

fn unite(a: Marked, b: Marked) -> (r: Marked)
    ensures
        r == union(a, b),
{
    let from: usize = if a.sel.start() <= b.sel.start() {
        a.sel.start()
    } else {
        b.sel.start()
    };
    let to: usize = if a.sel.end() >= b.sel.end() {
        a.sel.end()
    } else {
        b.sel.end()
    };
    let led = if b.primary {
        b.sel
    } else {
        a.sel
    };
    let sel = if led.anchor <= led.head {
        Selection::new(from, to)
    } else {
        Selection::new(to, from)
    };
    Marked { sel, primary: a.primary || b.primary }
}

fn insert_in_order(v: &mut Vec<Marked>, m: Marked)
    ensures
        final(v)@ == put_in_order(old(v)@, m),
{
    let ghost s = v@;
    let mut i = v.len();
    assert(s.take(i as int) =~= s);
    assert(s.skip(i as int) =~= Seq::empty());
    assert(put_in_order(s, m) =~= put_in_order(s.take(i as int), m) + s.skip(i as int));
    while i > 0 && m.sel.start() < v[i - 1].sel.start()
        invariant
            i <= s.len(),
            v@ == s,
            put_in_order(s, m) == put_in_order(s.take(i as int), m) + s.skip(i as int),
        decreases i,
    {
        i = i - 1;
        proof {
            let t = s.take(i + 1);
            assert(t.drop_last() =~= s.take(i as int));
            assert(put_in_order(s, m) =~= put_in_order(s.take(i as int), m) + s.skip(i as int));
        }
    }
    v.insert(i, m);
    proof {
        assert(put_in_order(s.take(i as int), m) == s.take(i as int).push(m));
        assert(v@ =~= s.take(i as int).push(m) + s.skip(i as int));
    }
}

impl SelectionSet {
    /// Puts `sel` in place of the primary selection.
    pub fn replace_primary(self, sel: Selection) -> (r: Self)
        ensures
            r@ == self@.with_primary(sel),
            r@.wf(),
    {
        proof {
            use_type_invariant(&self);
        }
        let mut sels = self.sels;
        sels.set(self.primary, sel);
        SelectionSet { sels, primary: self.primary }
    }

    /// Unites selections that overlap, and sorts them by start.
    pub fn merge_overlapping(self) -> (r: Self)
        ensures
            r@ == self@.merged(),
            r@.wf(),
    {
        proof {
            use_type_invariant(&self);
        }
        let ghost marks = self@.marked();
        let n = self.sels.len();
        let mut order: Vec<Marked> = Vec::new();
        let mut i: usize = 0;
        assert(marks.take(0) =~= Seq::empty());
        while i < n
            invariant
                i <= n == self.sels@.len(),
                marks == self@.marked(),
                order@ == in_order(marks.take(i as int)),
            decreases n - i,
        {
            let m = Marked { sel: self.sels[i], primary: i == self.primary };
            insert_in_order(&mut order, m);
            i = i + 1;
            assert(marks.take(i as int).drop_last() =~= marks.take(i - 1));
        }
        assert(marks.take(n as int) =~= marks);
        let mut out: Vec<Marked> = Vec::new();
        let mut j: usize = 0;
        let k = order.len();
        assert(order@.take(0) =~= Seq::empty());
        while j < k
            invariant
                j <= k == order@.len(),
                out@ == united(order@.take(j as int)),
            decreases k - j,
        {
            let m = order[j];
            assert(order@.take(j + 1).drop_last() =~= order@.take(j as int));
            let last = out.len();
            if last > 0 && m.sel.start() <= out[last - 1].sel.end() {
                let u = unite(out[last - 1], m);
                let ghost before = out@;
                out.set(last - 1, u);
                assert(out@ =~= before.drop_last().push(u));
            } else {
                out.push(m);
            }
            j = j + 1;
        }
        assert(order@.take(k as int) =~= order@);
        proof {
            assert(marks[self.primary as int].primary);
            lemma_order_keeps_primary(marks);
            lemma_united_keeps_primary(order@);
            lemma_primary_place(out@);
        }
        let mut sels: Vec<Selection> = Vec::new();
        let mut primary: usize = 0;
        let mut found = false;
        let mut a: usize = 0;
        let len = out.len();
        assert(out@.skip(0) =~= out@);
        while a < len
            invariant
                a <= len == out@.len(),
                sels@ == out@.take(a as int).map_values(|x: Marked| x.sel),
                found ==> primary == primary_place(out@),
                !found ==> primary == a && primary_place(out@) == a + primary_place(
                    out@.skip(a as int),
                ),
            decreases len - a,
        {
            let m = out[a];
            let ghost rest = out@.skip(a as int);
            assert(rest.drop_first() =~= out@.skip(a + 1));
            sels.push(m.sel);
            if !found {
                if m.primary {
                    found = true;
                } else {
                    primary = a + 1;
                }
            }
            a = a + 1;
            assert(sels@ =~= out@.take(a as int).map_values(|x: Marked| x.sel));
        }
        assert(out@.take(len as int) =~= out@);
        assert(primary == primary_place(out@));
        SelectionSet { sels, primary }
    }
}

impl Default for SelectionSet {
    /// A cursor at the start of the text.
    fn default() -> (r: Self)
        ensures
            r@ == Sels::single(Selection { anchor: 0, head: 0 }),
    {
        SelectionSet::single(Selection::collapsed(0))
    }
}

/// Some selection reaches over position `p`.
pub open spec fn covers(s: Seq<Selection>, p: int) -> bool {
    exists|i: int|
        0 <= i < s.len() && ((#[trigger] s[i]).anchor <= p <= s[i].head || s[i].head <= p
            <= s[i].anchor)
}

spec fn mark_covers(m: Marked, p: int) -> bool {
    m.sel.anchor <= p <= m.sel.head || m.sel.head <= p <= m.sel.anchor
}

spec fn marks_cover(s: Seq<Marked>, p: int) -> bool {
    exists|i: int| 0 <= i < s.len() && mark_covers(#[trigger] s[i], p)
}

proof fn lemma_push_covers(s: Seq<Marked>, m: Marked, p: int)
    ensures
        marks_cover(s.push(m), p) == (marks_cover(s, p) || mark_covers(m, p)),
{
    let t = s.push(m);
    assert(t[s.len() as int] == m);
    if marks_cover(s, p) {
        let i = choose|i: int| 0 <= i < s.len() && mark_covers(#[trigger] s[i], p);
        assert(t[i] == s[i]);
    }
    if marks_cover(t, p) && !mark_covers(m, p) {
        let i = choose|i: int| 0 <= i < t.len() && mark_covers(#[trigger] t[i], p);
        assert(s[i] == t[i]);
    }
}

proof fn lemma_put_covers(s: Seq<Marked>, m: Marked, p: int)
    ensures
        marks_cover(put_in_order(s, m), p) == (marks_cover(s, p) || mark_covers(m, p)),
    decreases s.len(),
{
    if s.len() > 0 && m.sel.spec_start() < s.last().sel.spec_start() {
        lemma_put_covers(s.drop_last(), m, p);
        lemma_push_covers(put_in_order(s.drop_last(), m), s.last(), p);
        lemma_push_covers(s.drop_last(), s.last(), p);
        assert(s.drop_last().push(s.last()) =~= s);
    } else {
        lemma_push_covers(s, m, p);
    }
}

proof fn lemma_order_covers(s: Seq<Marked>, p: int)
    ensures
        marks_cover(in_order(s), p) == marks_cover(s, p),
    decreases s.len(),
{
    if s.len() > 0 {
        lemma_order_covers(s.drop_last(), p);
        lemma_put_covers(in_order(s.drop_last()), s.last(), p);
        lemma_push_covers(s.drop_last(), s.last(), p);
        assert(s.drop_last().push(s.last()) =~= s);
    }
}

proof fn lemma_united_covers(s: Seq<Marked>, p: int)
    requires
        by_start(s),
    ensures
        marks_cover(united(s), p) == marks_cover(s, p),
    decreases s.len(),
{
    if s.len() > 0 {
        let t = s.drop_last();
        let m = s.last();
        let before = united(t);
        assert(by_start(t)) by {
            assert forall|a: int, b: int| 0 <= a < b < t.len() implies (
            #[trigger] t[a]).sel.spec_start() <= (#[trigger] t[b]).sel.spec_start() by {
                assert(s[a].sel.spec_start() <= s[b].sel.spec_start());
            }
        }
        lemma_united_covers(t, p);
        lemma_push_covers(t, m, p);
        assert(t.push(m) =~= s);
        lemma_push_covers(before, m, p);
        if before.len() > 0 && m.sel.spec_start() <= before.last().sel.spec_end() {
            let head = before.drop_last();
            let u = union(before.last(), m);
            lemma_push_covers(head, u, p);
            lemma_push_covers(head, before.last(), p);
            assert(head.push(before.last()) =~= before);
            if t.len() > 0 {
                lemma_united_starts(t);
                assert(s[t.len() - 1].sel.spec_start() <= s[s.len() - 1].sel.spec_start());
            }
            assert(mark_covers(u, p) == (mark_covers(before.last(), p) || mark_covers(m, p)));
        }
    }
}

/// Uniting selections that overlap neither takes a position out of what is selected nor adds
/// one.
pub proof fn law_merged_covers_the_same(s: Sels, p: int)
    ensures
        covers(s.merged().sels, p) == covers(s.sels, p),
{
    let marks = s.marked();
    let m = united(in_order(marks));
    lemma_in_order_sorted(marks);
    lemma_order_covers(marks, p);
    lemma_united_covers(in_order(marks), p);
    if covers(s.sels, p) {
        let i = choose|i: int|
            0 <= i < s.sels.len() && ((#[trigger] s.sels[i]).anchor <= p <= s.sels[i].head
                || s.sels[i].head <= p <= s.sels[i].anchor);
        assert(mark_covers(marks[i], p));
        let j = choose|j: int| 0 <= j < m.len() && mark_covers(#[trigger] m[j], p);
        assert(s.merged().sels[j] == m[j].sel);
    }
    if covers(s.merged().sels, p) {
        let t = s.merged().sels;
        let j = choose|j: int|
            0 <= j < t.len() && ((#[trigger] t[j]).anchor <= p <= t[j].head || t[j].head <= p
                <= t[j].anchor);
        assert(t[j] == m[j].sel);
        assert(mark_covers(m[j], p));
        let i = choose|i: int| 0 <= i < marks.len() && mark_covers(#[trigger] marks[i], p);
        assert(s.sels[i] == marks[i].sel);
    }
}

/// Selections stand in order, with something between each and the next.
pub open spec fn stand_apart(s: Seq<Selection>) -> bool {
    forall|i: int, j: int|
        0 <= i < j < s.len() ==> (#[trigger] s[i]).spec_end() < (#[trigger] s[j]).spec_start()
}

proof fn lemma_apart_in_order(s: Seq<Marked>, n: int)
    requires
        0 <= n <= s.len(),
        forall|i: int, j: int|
            0 <= i < j < s.len() ==> (#[trigger] s[i]).sel.spec_end() < (
            #[trigger] s[j]).sel.spec_start(),
    ensures
        in_order(s.take(n)) == s.take(n),
        united(s.take(n)) == s.take(n),
    decreases n,
{
    if n > 0 {
        lemma_apart_in_order(s, n - 1);
        assert(s.take(n).drop_last() =~= s.take(n - 1));
        assert(s.take(n) =~= s.take(n - 1).push(s[n - 1]));
        if n > 1 {
            assert(s[n - 2].sel.spec_end() < s[n - 1].sel.spec_start());
            assert(s.take(n - 1).last() == s[n - 2]);
        }
    }
}

proof fn lemma_first_primary(s: Seq<Marked>, p: int)
    requires
        0 <= p < s.len(),
        s[p].primary,
        forall|i: int| 0 <= i < p ==> !(#[trigger] s[i]).primary,
    ensures
        primary_place(s) == p,
    decreases p,
{
    if p > 0 {
        assert(!s[0].primary);
        let t = s.drop_first();
        assert forall|i: int| 0 <= i < p - 1 implies !(#[trigger] t[i]).primary by {
            assert(!s[i + 1].primary);
        }
        lemma_first_primary(t, p - 1);
    }
}

/// Selections that stand apart already are left as they are: each keeps its place and its
/// direction, and the same one is primary.
pub proof fn law_merging_leaves_apart_selections(s: Sels)
    requires
        s.wf(),
        stand_apart(s.sels),
    ensures
        s.merged() == s,
{
    let marks = s.marked();
    assert forall|i: int, j: int| 0 <= i < j < marks.len() implies (
    #[trigger] marks[i]).sel.spec_end() < (#[trigger] marks[j]).sel.spec_start() by {
        assert(s.sels[i].spec_end() < s.sels[j].spec_start());
    }
    lemma_apart_in_order(marks, marks.len() as int);
    assert(marks.take(marks.len() as int) =~= marks);
    lemma_first_primary(marks, s.primary as int);
    assert(s.merged() =~= s);
}

/// Two selections that overlap become one, from the first to the last position of both. It points
/// the way of the primary one.
pub proof fn law_overlapping_two_become_one(a: Selection, b: Selection, second: bool)
    requires
        a.spec_start() <= b.spec_start() <= a.spec_end(),
    ensures
        ({
            let led = if second {
                b
            } else {
                a
            };
            let from = a.spec_start();
            let to = if a.spec_end() < b.spec_end() {
                b.spec_end()
            } else {
                a.spec_end()
            };
            let s = Sels {
                sels: seq![a, b],
                primary: if second {
                    1
                } else {
                    0
                },
            };
            s.merged() == (Sels {
                sels: seq![
                    if led.anchor <= led.head {
                        Selection { anchor: from, head: to }
                    } else {
                        Selection { anchor: to, head: from }
                    },
                ],
                primary: 0,
            })
        }),
{
    let s = Sels {
        sels: seq![a, b],
        primary: if second {
            1
        } else {
            0
        },
    };
    let x = Marked { sel: a, primary: !second };
    let y = Marked { sel: b, primary: second };
    let none = Seq::<Marked>::empty();
    assert(s.marked() =~= seq![x, y]);
    assert(seq![x, y].drop_last() =~= seq![x]);
    assert(seq![x].drop_last() =~= none);
    assert(in_order(none) =~= none);
    assert(in_order(seq![x]) =~= seq![x]);
    assert(in_order(seq![x, y]) =~= seq![x, y]);
    assert(united(none) =~= none);
    assert(united(seq![x]) =~= seq![x]);
    assert(united(seq![x, y]) =~= seq![union(x, y)]);
    lemma_first_primary(seq![union(x, y)], 0);
    assert(s.merged().sels =~= seq![union(x, y).sel]);
}

proof fn lemma_put_has(s: Seq<Marked>, m: Marked, x: Marked)
    ensures
        s.contains(x) || x == m ==> put_in_order(s, m).contains(x),
    decreases s.len(),
{
    let r = put_in_order(s, m);
    if s.len() > 0 && m.sel.spec_start() < s.last().sel.spec_start() {
        let t = put_in_order(s.drop_last(), m);
        lemma_put_has(s.drop_last(), m, x);
        if s.contains(x) || x == m {
            if s.last() == x {
                assert(r[r.len() - 1] == x);
            } else {
                if s.contains(x) {
                    let i = choose|i: int| 0 <= i < s.len() && s[i] == x;
                    assert(s.drop_last()[i] == x);
                }
                let j = choose|j: int| 0 <= j < t.len() && t[j] == x;
                assert(r[j] == x);
            }
        }
    } else {
        assert(r[s.len() as int] == m);
        if s.contains(x) {
            let i = choose|i: int| 0 <= i < s.len() && s[i] == x;
            assert(r[i] == x);
        }
    }
}

proof fn lemma_order_has(s: Seq<Marked>, x: Marked)
    ensures
        s.contains(x) ==> in_order(s).contains(x),
    decreases s.len(),
{
    if s.len() > 0 && s.contains(x) {
        let i = choose|i: int| 0 <= i < s.len() && s[i] == x;
        if i < s.len() - 1 {
            assert(s.drop_last()[i] == x);
        }
        lemma_order_has(s.drop_last(), x);
        lemma_put_has(in_order(s.drop_last()), s.last(), x);
    }
}

spec fn holds(m: Marked, x: Marked) -> bool {
    &&& m.sel.spec_start() <= x.sel.spec_start()
    &&& x.sel.spec_end() <= m.sel.spec_end()
    &&& x.primary ==> m.primary
}

spec fn one_holds(s: Seq<Marked>, x: Marked) -> bool {
    exists|j: int| 0 <= j < s.len() && holds(#[trigger] s[j], x)
}

proof fn lemma_united_holds(s: Seq<Marked>, x: Marked)
    requires
        s.contains(x),
    ensures
        one_holds(united(s), x),
    decreases s.len(),
{
    let t = s.drop_last();
    let before = united(t);
    let r = united(s);
    let i = choose|i: int| 0 <= i < s.len() && s[i] == x;
    if i == s.len() - 1 {
        assert(holds(r[r.len() - 1], x));
    } else {
        assert(t[i] == x);
        lemma_united_holds(t, x);
        let j = choose|j: int| 0 <= j < before.len() && holds(#[trigger] before[j], x);
        if j < r.len() && r[j] == before[j] {
            assert(holds(r[j], x));
        } else {
            assert(holds(r[r.len() - 1], x));
        }
    }
}

/// Each selection lies whole inside one of the merged ones.
pub proof fn law_merged_holds_each(s: Sels, i: int)
    requires
        s.wf(),
        0 <= i < s.sels.len(),
    ensures
        exists|j: int|
            0 <= j < s.merged().sels.len() && (#[trigger] s.merged().sels[j]).spec_start()
                <= s.sels[i].spec_start() && s.sels[i].spec_end()
                <= s.merged().sels[j].spec_end(),
{
    let marks = s.marked();
    let x = marks[i];
    lemma_order_has(marks, x);
    assert(marks.contains(x));
    let m = united(in_order(marks));
    lemma_united_holds(in_order(marks), x);
    let j = choose|j: int| 0 <= j < m.len() && holds(#[trigger] m[j], x);
    assert(s.merged().sels[j] == m[j].sel);
}

/// Putting a selection in place of the primary one leaves the others, and which is primary.
pub proof fn law_primary_is_replaced(s: Sels, sel: Selection)
    requires
        s.wf(),
    ensures
        s.with_primary(sel).sels.len() == s.sels.len(),
        s.with_primary(sel).primary == s.primary,
        s.with_primary(sel).sels[s.primary as int] == sel,
        forall|i: int|
            0 <= i < s.sels.len() && i != s.primary ==> #[trigger] s.with_primary(sel).sels[i]
                == s.sels[i],
{
}

/// The start and the end of a selection are its two ends, the smaller one first.
pub proof fn law_ends_of_a_selection(s: Selection)
    ensures
        s.spec_start() <= s.spec_end(),
        (s.spec_start() == s.anchor && s.spec_end() == s.head) || (s.spec_start() == s.head
            && s.spec_end() == s.anchor),
{
}

spec fn primaries(s: Seq<Marked>) -> nat
    decreases s.len(),
{
    if s.len() == 0 {
        0
    } else {
        primaries(s.drop_last()) + if s.last().primary {
            1nat
        } else {
            0
        }
    }
}

proof fn lemma_push_primaries(s: Seq<Marked>, m: Marked)
    ensures
        primaries(s.push(m)) == primaries(s) + if m.primary {
            1nat
        } else {
            0
        },
{
    assert(s.push(m).drop_last() =~= s);
}

proof fn lemma_put_primaries(s: Seq<Marked>, m: Marked)
    ensures
        primaries(put_in_order(s, m)) == primaries(s) + if m.primary {
            1nat
        } else {
            0
        },
    decreases s.len(),
{
    if s.len() > 0 && m.sel.spec_start() < s.last().sel.spec_start() {
        lemma_put_primaries(s.drop_last(), m);
        lemma_push_primaries(put_in_order(s.drop_last(), m), s.last());
    } else {
        lemma_push_primaries(s, m);
    }
}

proof fn lemma_order_primaries(s: Seq<Marked>)
    ensures
        primaries(in_order(s)) == primaries(s),
    decreases s.len(),
{
    if s.len() > 0 {
        lemma_order_primaries(s.drop_last());
        lemma_put_primaries(in_order(s.drop_last()), s.last());
    }
}

proof fn lemma_united_primaries(s: Seq<Marked>)
    ensures
        primaries(united(s)) <= primaries(s),
    decreases s.len(),
{
    if s.len() > 0 {
        let before = united(s.drop_last());
        let m = s.last();
        lemma_united_primaries(s.drop_last());
        if before.len() > 0 && m.sel.spec_start() <= before.last().sel.spec_end() {
            lemma_push_primaries(before.drop_last(), union(before.last(), m));
        } else {
            lemma_push_primaries(before, m);
        }
    }
}

proof fn lemma_some_primary(s: Seq<Marked>, i: int)
    requires
        0 <= i < s.len(),
        s[i].primary,
    ensures
        primaries(s) >= 1,
    decreases s.len(),
{
    if i < s.len() - 1 {
        assert(s.drop_last()[i] == s[i]);
        lemma_some_primary(s.drop_last(), i);
    }
}

proof fn lemma_one_primary(s: Seq<Marked>, i: int, j: int)
    requires
        primaries(s) <= 1,
        0 <= i <= j < s.len(),
        s[i].primary,
        s[j].primary,
    ensures
        i == j,
    decreases s.len(),
{
    let t = s.drop_last();
    if i < j {
        assert(t[i] == s[i]);
        if j == s.len() - 1 {
            lemma_some_primary(t, i);
        } else {
            assert(t[j] == s[j]);
            lemma_one_primary(t, i, j);
        }
    }
}

proof fn lemma_marked_primaries(s: Sels, n: int)
    requires
        0 <= n <= s.sels.len(),
    ensures
        primaries(s.marked().take(n)) == (if s.primary < n {
            1nat
        } else {
            0
        }),
    decreases n,
{
    let marks = s.marked();
    if n > 0 {
        lemma_marked_primaries(s, n - 1);
        assert(marks.take(n).drop_last() =~= marks.take(n - 1));
        assert(marks.take(n).last() == marks[n - 1]);
    }
}

/// The primary selection of the merged set is the one that the primary selection went into.
pub proof fn law_primary_stays_primary(s: Sels)
    requires
        s.wf(),
    ensures
        s.merged().wf(),
        ({
            let was = s.sels[s.primary as int];
            let now = s.merged().sels[s.merged().primary as int];
            now.spec_start() <= was.spec_start() && was.spec_end() <= now.spec_end()
        }),
{
    let marks = s.marked();
    let x = marks[s.primary as int];
    let m = united(in_order(marks));
    assert(marks.contains(x));
    lemma_order_has(marks, x);
    lemma_united_holds(in_order(marks), x);
    let j = choose|j: int| 0 <= j < m.len() && holds(#[trigger] m[j], x);
    lemma_marked_primaries(s, marks.len() as int);
    assert(marks.take(marks.len() as int) =~= marks);
    lemma_order_primaries(marks);
    lemma_united_primaries(in_order(marks));
    assert forall|i: int| 0 <= i < j implies !(#[trigger] m[i]).primary by {
        if m[i].primary {
            lemma_one_primary(m, i, j);
        }
    }
    lemma_first_primary(m, j);
    assert(s.merged().sels[j] == m[j].sel);
}

} // verus!

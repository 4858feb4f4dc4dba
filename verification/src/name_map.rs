//! Maps keyed by names.

use vstd::prelude::*;
use vstd::string::*;

verus! {

/// The position of the entry for `k`, or the length of `e` where there is none.
pub open spec fn entry_pos<V>(e: Seq<(String, V)>, k: Seq<char>) -> nat
    decreases e.len(),
{
    if e.len() == 0 || e[0].0@ == k {
        0
    } else {
        1 + entry_pos(e.drop_first(), k)
    }
}

proof fn lemma_entry_pos<V>(e: Seq<(String, V)>, k: Seq<char>)
    ensures
        entry_pos(e, k) <= e.len(),
        entry_pos(e, k) < e.len() ==> e[entry_pos(e, k) as int].0@ == k,
        forall|i: int| 0 <= i < entry_pos(e, k) ==> (#[trigger] e[i]).0@ != k,
    decreases e.len(),
{
    if e.len() > 0 && e[0].0@ != k {
        lemma_entry_pos(e.drop_first(), k);
        assert forall|i: int| 0 <= i < entry_pos(e, k) implies (#[trigger] e[i]).0@ != k by {
            if i > 0 {
                assert(e.drop_first()[i - 1].0@ != k);
            }
        }
    }
}

proof fn lemma_entry_pos_unique<V>(e: Seq<(String, V)>, k: Seq<char>, p: int)
    requires
        0 <= p <= e.len(),
        p < e.len() ==> e[p].0@ == k,
        forall|i: int| 0 <= i < p ==> (#[trigger] e[i]).0@ != k,
    ensures
        entry_pos(e, k) == p,
{
    lemma_entry_pos(e, k);
    if entry_pos(e, k) < p {
        assert(e[entry_pos(e, k) as int].0@ != k);
    }
    if p < entry_pos(e, k) {
        assert(e[p].0@ != k);
    }
}

/// No name occurs twice.
pub open spec fn distinct_names<V>(e: Seq<(String, V)>) -> bool {
    forall|i: int, j: int| 0 <= i < j < e.len() ==> (#[trigger] e[i]).0@ != (#[trigger] e[j]).0@
}

/// The map that a list of entries stands for.
pub open spec fn entries_map<V>(e: Seq<(String, V)>) -> Map<Seq<char>, V> {
    Map::new(|k: Seq<char>| entry_pos(e, k) < e.len(), |k: Seq<char>| e[entry_pos(e, k) as int].1)
}

/// A map from names to values.
pub struct NameMap<V> {
    entries: Vec<(String, V)>,
}

impl<V> View for NameMap<V> {
    type V = Map<Seq<char>, V>;

    closed spec fn view(&self) -> Map<Seq<char>, V> {
        entries_map(self.entries@)
    }
}

impl<V> NameMap<V> {
    #[verifier::type_invariant]
    spec fn inv(self) -> bool {
        distinct_names(self.entries@)
    }

    pub fn new() -> (r: Self)
        ensures
            r@ == Map::<Seq<char>, V>::empty(),
    {
        let r = NameMap { entries: Vec::new() };
        assert(r@ =~= Map::empty());
        r
    }

    fn position(&self, key: &str) -> (r: usize)
        ensures
            r == entry_pos(self.entries@, key@),
            r <= self.entries@.len(),
    {
        let n = self.entries.len();
        let mut i: usize = 0;
        while i < n
            invariant
                i <= n == self.entries@.len(),
                forall|j: int| 0 <= j < i ==> (#[trigger] self.entries@[j]).0@ != key@,
            decreases n - i,
        {
            if crate::strings::str_eq(self.entries[i].0.as_str(), key) {
                proof {
                    lemma_entry_pos_unique(self.entries@, key@, i as int);
                }
                return i;
            }
            i = i + 1;
        }
        proof {
            lemma_entry_pos_unique(self.entries@, key@, n as int);
        }
        n
    }

    /// The value of `key`.
    pub fn get(&self, key: &str) -> (r: Option<&V>)
        ensures
            match r {
                Some(v) => self@.contains_key(key@) && *v == self@[key@],
                None => !self@.contains_key(key@),
            },
    {
        let p = self.position(key);
        if p < self.entries.len() {
            Some(&self.entries[p].1)
        } else {
            None
        }
    }

    pub fn contains(&self, key: &str) -> (r: bool)
        ensures
            r == self@.contains_key(key@),
    {
        self.position(key) < self.entries.len()
    }

    /// Gives `key` the value `v`, in place of one it had.
    pub fn insert(&mut self, key: String, v: V)
        ensures
            final(self)@ == old(self)@.insert(key@, v),
    {
        proof {
            use_type_invariant(&*self);
        }
        let p = self.position(key.as_str());
        let ghost k = key@;
        let mut entries: Vec<(String, V)> = Vec::new();
        std::mem::swap(&mut entries, &mut self.entries);
        let ghost e0 = entries@;
        let ghost e = (key, v);
        proof {
            lemma_entry_pos(e0, k);
        }
        if p < entries.len() {
            entries.set(p, (key, v));
            assert(entries@ == e0.update(p as int, e));
        } else {
            entries.push((key, v));
            assert(entries@ == e0.push(e));
        }
        let ghost e1 = entries@;
        proof {
            assert forall|q: Seq<char>| #![trigger entry_pos(e1, q)]
                (entry_pos(e1, q) < e1.len() <==> q == k || entry_pos(e0, q) < e0.len()) && (q == k
                    ==> e1[entry_pos(e1, q) as int] == e) && (q != k && entry_pos(e0, q) < e0.len()
                    ==> e1[entry_pos(e1, q) as int] == e0[entry_pos(e0, q) as int]) by {
                lemma_entry_pos(e0, q);
                if q == k {
                    lemma_entry_pos_unique(e1, q, p as int);
                } else {
                    let a = entry_pos(e0, q) as int;
                    let b = if a == e0.len() {
                        e1.len() as int
                    } else {
                        a
                    };
                    assert forall|i: int| 0 <= i < b implies (#[trigger] e1[i]).0@ != q by {
                        if i < e0.len() && i != p {
                            assert(e1[i] == e0[i]);
                        }
                    }
                    lemma_entry_pos_unique(e1, q, b);
                }
            }
            assert(distinct_names(e1)) by {
                assert forall|i: int, j: int| 0 <= i < j < e1.len() implies (#[trigger] e1[i]).0@
                    != (#[trigger] e1[j]).0@ by {
                    if i != p && i < e0.len() {
                        assert(e1[i] == e0[i]);
                    }
                    if j != p && j < e0.len() {
                        assert(e1[j] == e0[j]);
                    }
                    if p < e0.len() {
                        if i == p || j == p {
                            assert(e0[p as int].0@ == k);
                        }
                    }
                }
            }
            assert(entries_map(e1) =~= entries_map(e0).insert(k, v));
        }
        self.entries = entries;
    }

    /// Takes `key` out and gives its value.
    pub fn remove(&mut self, key: &str) -> (r: Option<V>)
        ensures
            final(self)@ == old(self)@.remove(key@),
            match r {
                Some(v) => old(self)@.contains_key(key@) && v == old(self)@[key@],
                None => !old(self)@.contains_key(key@),
            },
    {
        proof {
            use_type_invariant(&*self);
        }
        let p = self.position(key);
        if p == self.entries.len() {
            assert(self@ =~= self@.remove(key@));
            return None;
        }
        let ghost k = key@;
        let mut entries: Vec<(String, V)> = Vec::new();
        std::mem::swap(&mut entries, &mut self.entries);
        let ghost e0 = entries@;
        proof {
            lemma_entry_pos(e0, k);
        }
        let (_, v) = entries.remove(p);
        let ghost e1 = entries@;
        proof {
            assert(e1 =~= e0.remove(p as int));
            assert forall|q: Seq<char>| #![trigger entry_pos(e1, q)]
                (entry_pos(e1, q) < e1.len() <==> q != k && entry_pos(e0, q) < e0.len()) && (q != k
                    && entry_pos(e0, q) < e0.len() ==> e1[entry_pos(e1, q) as int] == e0[entry_pos(
                    e0,
                    q,
                ) as int]) by {
                lemma_entry_pos(e0, q);
                if q == k {
                    assert forall|i: int| 0 <= i < e1.len() implies (#[trigger] e1[i]).0@ != q by {
                        if i < p {
                            assert(e1[i] == e0[i]);
                        } else {
                            assert(e1[i] == e0[i + 1]);
                            assert(e0[p as int].0@ != e0[i + 1].0@);
                        }
                    }
                    lemma_entry_pos_unique(e1, q, e1.len() as int);
                } else {
                    let a = entry_pos(e0, q) as int;
                    let b = if a > p {
                        a - 1
                    } else {
                        a
                    };
                    assert forall|i: int| 0 <= i < b implies (#[trigger] e1[i]).0@ != q by {
                        if i < p {
                            assert(e1[i] == e0[i]);
                        } else {
                            assert(e1[i] == e0[i + 1]);
                        }
                    }
                    lemma_entry_pos_unique(e1, q, b);
                }
            }
            assert forall|i: int, j: int| 0 <= i < j < e1.len() implies (#[trigger] e1[i]).0@ != (
            #[trigger] e1[j]).0@ by {
                let i0 = if i < p {
                    i
                } else {
                    i + 1
                };
                let j0 = if j < p {
                    j
                } else {
                    j + 1
                };
                assert(e1[i] == e0[i0] && e1[j] == e0[j0]);
            }
            assert(entries_map(e1) =~= entries_map(e0).remove(k));
        }
        self.entries = entries;
        Some(v)
    }

    /// The number of names.
    pub fn len(&self) -> (r: usize)
        ensures
            r == self@.dom().len(),
            self@.dom().finite(),
    {
        proof {
            use_type_invariant(self);
            lemma_entries_count(self.entries@);
        }
        self.entries.len()
    }

    /// All names, each once, in no order that callers can rely on.
    pub fn keys(&self) -> (r: Vec<String>)
        ensures
            r@.len() == self@.dom().len(),
            forall|i: int, j: int|
                0 <= i < j < r@.len() ==> (#[trigger] r@[i])@ != (#[trigger] r@[j])@,
            forall|k: Seq<char>|
                self@.contains_key(k) <==> exists|i: int| 0 <= i < r@.len() && (#[trigger] r@[i])@
                    == k,
    {
        proof {
            use_type_invariant(self);
            lemma_entries_count(self.entries@);
        }
        let mut r: Vec<String> = Vec::new();
        let n = self.entries.len();
        let mut i: usize = 0;
        while i < n
            invariant
                i <= n == self.entries@.len(),
                r@.len() == i,
                forall|j: int| 0 <= j < i ==> (#[trigger] r@[j])@ == self.entries@[j].0@,
            decreases n - i,
        {
            r.push(self.entries[i].0.clone());
            i = i + 1;
        }
        proof {
            assert forall|i: int, j: int| 0 <= i < j < r@.len() implies (#[trigger] r@[i])@ != (
            #[trigger] r@[j])@ by {
                assert(self.entries@[i].0@ != self.entries@[j].0@);
            }
            assert forall|k: Seq<char>|
                self@.contains_key(k) <==> exists|i: int| 0 <= i < r@.len() && (#[trigger] r@[i])@
                    == k by {
                lemma_entry_pos(self.entries@, k);
                if self@.contains_key(k) {
                    assert(r@[entry_pos(self.entries@, k) as int]@ == k);
                }
            }
        }
        r
    }
}

proof fn lemma_entries_count<V>(e: Seq<(String, V)>)
    requires
        distinct_names(e),
    ensures
        entries_map(e).dom().finite(),
        entries_map(e).dom().len() == e.len(),
    decreases e.len(),
{
    let d = entries_map(e).dom();
    if e.len() == 0 {
        assert(d =~= Set::empty());
    } else {
        let rest = e.drop_last();
        let k = e.last().0@;
        assert forall|i: int, j: int| 0 <= i < j < rest.len() implies (#[trigger] rest[i]).0@ != (
        #[trigger] rest[j]).0@ by {
            assert(e[i].0@ != e[j].0@);
        }
        lemma_entries_count(rest);
        let dr = entries_map(rest).dom();
        assert forall|q: Seq<char>| d.contains(q) <==> dr.insert(k).contains(q) by {
            lemma_entry_pos(e, q);
            lemma_entry_pos(rest, q);
            if entry_pos(rest, q) < rest.len() {
                let p = entry_pos(rest, q) as int;
                assert forall|i: int| 0 <= i < p implies (#[trigger] e[i]).0@ != q by {
                    assert(rest[i].0@ != q);
                }
                assert(e[p] == rest[p]);
                lemma_entry_pos_unique(e, q, p);
            } else if q == k {
                assert(e[e.len() - 1].0@ == q);
                if entry_pos(e, q) == e.len() {
                    assert(e[e.len() - 1].0@ != q);
                }
            } else if entry_pos(e, q) < e.len() {
                let p = entry_pos(e, q) as int;
                if p < rest.len() {
                    assert(rest[p].0@ == q);
                    assert(rest[p].0@ != q);
                }
            }
        }
        assert(d =~= dr.insert(k));
        assert(!dr.contains(k)) by {
            lemma_entry_pos(rest, k);
            if entry_pos(rest, k) < rest.len() {
                assert(e[entry_pos(rest, k) as int].0@ != e[e.len() - 1].0@);
            }
        }
    }
}

} // verus!

//! Identifiers that are never confused after their owner is gone, and tables keyed by
//! them.

use slotmap::{DefaultKey, Key, KeyData, SecondaryMap, SlotMap};
use vstd::prelude::*;

verus! {

/// The slot that an identifier stands for, without how often the slot was used.
pub open spec fn slot_number(id: u64) -> u64 {
    id % 0x1_0000_0000
}

/// Numbers that a slot map gives out: the use count in the upper half is odd, and the
/// slot in the lower half is not the one that stands for no slot at all.
pub open spec fn valid_id(id: u64) -> bool {
    (id / 0x1_0000_0000) % 2 == 1 && slot_number(id) != 0xffff_ffff
}

/// Whether a slot map could have given `id` out.
pub fn is_valid_id(id: u64) -> (r: bool)
    ensures
        r == valid_id(id),
{
    (id / 0x1_0000_0000) % 2 == 1 && id % 0x1_0000_0000 != 0xffff_ffff
}

/// A `slotmap::SlotMap` that hands out identifiers.
#[verifier::external_body]
pub struct IdSource {
    map: SlotMap<DefaultKey, ()>,
}

/// The identifiers that were handed out and not taken back.
pub uninterp spec fn live_ids(s: IdSource) -> Set<u64>;

impl IdSource {
    /// `SlotMap::new` holds nothing.
    #[verifier::external_body]
    fn empty() -> (r: IdSource)
        ensures
            live_ids(r) == Set::<u64>::empty(),
    {
        IdSource { map: SlotMap::new() }
    }

    /// `SlotMap::insert` gives a key that no live value has, for a slot that no live value
    /// uses. It panics when all slots are in use: of the numbers that fit, one is left out and
    /// one stands for no slot.
    #[verifier::external_body]
    fn allocate(&mut self) -> (id: u64)
        requires
            live_ids(*old(self)).finite(),
            live_ids(*old(self)).len() < 0xffff_fffe,
        ensures
            valid_id(id),
            !live_ids(*old(self)).contains(id),
            forall|k: u64|
                live_ids(*old(self)).contains(k) ==> #[trigger] slot_number(k) != slot_number(id),
            live_ids(*final(self)) == live_ids(*old(self)).insert(id),
    {
        self.map.insert(()).data().as_ffi()
    }

    /// `SlotMap::remove` makes a key invalid.
    #[verifier::external_body]
    fn release(&mut self, id: u64)
        requires
            valid_id(id),
        ensures
            live_ids(*final(self)) == live_ids(*old(self)).remove(id),
    {
        self.map.remove(KeyData::from_ffi(id).into());
    }
}

/// The identifiers in use.
pub struct IdPool {
    source: IdSource,
    count: usize,
}

impl View for IdPool {
    type V = Set<u64>;

    closed spec fn view(&self) -> Set<u64> {
        live_ids(self.source)
    }
}

impl IdPool {
    #[verifier::type_invariant]
    spec fn inv(self) -> bool {
        let ids = live_ids(self.source);
        &&& ids.finite()
        &&& ids.len() == self.count
        &&& slots_apart(ids)
        &&& forall|k: u64| #[trigger] ids.contains(k) ==> valid_id(k)
    }

    pub fn new() -> (r: IdPool)
        ensures
            r@ == Set::<u64>::empty(),
    {
        IdPool { source: IdSource::empty(), count: 0 }
    }

    /// What the identifiers in use keep: they are valid, and no two share a slot.
    pub fn check_ids(&self)
        ensures
            self@.finite(),
            slots_apart(self@),
            forall|k: u64| #[trigger] self@.contains(k) ==> valid_id(k),
    {
        proof {
            use_type_invariant(self);
        }
    }

    /// A new identifier, whose slot no other one in use has.
    pub fn insert(&mut self) -> (id: u64)
        requires
            old(self)@.len() < 0xffff_fffe,
        ensures
            valid_id(id),
            !old(self)@.contains(id),
            forall|k: u64|
                old(self)@.contains(k) ==> #[trigger] slot_number(k) != slot_number(id),
            final(self)@ == old(self)@.insert(id),
    {
        proof {
            use_type_invariant(&*self);
        }
        let mut t = IdPool { source: IdSource::empty(), count: 0 };
        std::mem::swap(&mut t, self);
        let IdPool { mut source, count } = t;
        let ghost s0 = live_ids(source);
        let id = source.allocate();
        proof {
            let s1 = live_ids(source);
            assert(slots_apart(s1)) by {
                assert forall|a: u64, b: u64|
                    #![trigger s1.contains(a), s1.contains(b)]
                    s1.contains(a) && s1.contains(b) && a != b implies slot_number(a)
                    != slot_number(b) by {
                    if a != id && b != id {
                        assert(s0.contains(a) && s0.contains(b));
                    }
                }
            }
        }
        *self = IdPool { source, count: count + 1 };
        id
    }

    /// Takes an identifier out of use.
    pub fn remove(&mut self, id: u64)
        requires
            valid_id(id),
            old(self)@.contains(id),
        ensures
            final(self)@ == old(self)@.remove(id),
    {
        proof {
            use_type_invariant(&*self);
        }
        let mut t = IdPool { source: IdSource::empty(), count: 0 };
        std::mem::swap(&mut t, self);
        let IdPool { mut source, count } = t;
        let ghost s0 = live_ids(source);
        source.release(id);
        proof {
            let s1 = live_ids(source);
            assert(slots_apart(s1)) by {
                assert forall|a: u64, b: u64|
                    #![trigger s1.contains(a), s1.contains(b)]
                    s1.contains(a) && s1.contains(b) && a != b implies slot_number(a)
                    != slot_number(b) by {
                    assert(s0.contains(a) && s0.contains(b));
                }
            }
        }
        *self = IdPool { source, count: count - 1 };
    }
}

/// A `slotmap::SecondaryMap` from identifiers to positions.
#[verifier::external_body]
pub struct SlotIndex {
    map: SecondaryMap<DefaultKey, usize>,
}

/// The positions that an index holds, by identifier.
pub uninterp spec fn positions(s: SlotIndex) -> Map<u64, usize>;

impl SlotIndex {
    /// `SecondaryMap::new` holds nothing.
    #[verifier::external_body]
    fn empty() -> (r: SlotIndex)
        ensures
            positions(r).dom() == Set::<u64>::empty(),
    {
        SlotIndex { map: SecondaryMap::new() }
    }

    /// `SecondaryMap::get` finds what was put in under the same key.
    #[verifier::external_body]
    fn lookup(&self, id: u64) -> (r: Option<usize>)
        requires
            valid_id(id),
        ensures
            r == (if positions(*self).contains_key(id) {
                Some(positions(*self)[id])
            } else {
                None
            }),
    {
        self.map.get(KeyData::from_ffi(id).into()).copied()
    }

    /// `SecondaryMap::insert` sets the value of a key. Where another key has the same slot
    /// it would give way or win by age, so no other key in the map may have it.
    #[verifier::external_body]
    fn store(&mut self, id: u64, pos: usize)
        requires
            valid_id(id),
            forall|k: u64|
                positions(*old(self)).contains_key(k) && k != id ==> #[trigger] slot_number(k)
                    != slot_number(id),
        ensures
            positions(*final(self)) == positions(*old(self)).insert(id, pos),
    {
        self.map.insert(KeyData::from_ffi(id).into(), pos);
    }

    /// `SecondaryMap::remove` forgets a key.
    #[verifier::external_body]
    fn forget(&mut self, id: u64)
        requires
            valid_id(id),
        ensures
            positions(*final(self)) == positions(*old(self)).remove(id),
    {
        self.map.remove(KeyData::from_ffi(id).into());
    }
}

/// Values of any kind, by identifier.
pub struct SlotTable<V> {
    index: SlotIndex,
    ids: Vec<u64>,
    values: Vec<V>,
}

/// No two identifiers of a set share a slot.
pub open spec fn slots_apart(ids: Set<u64>) -> bool {
    forall|a: u64, b: u64|
        #![trigger ids.contains(a), ids.contains(b)]
        ids.contains(a) && ids.contains(b) && a != b ==> slot_number(a) != slot_number(b)
}

impl<V> View for SlotTable<V> {
    type V = Map<u64, V>;

    closed spec fn view(&self) -> Map<u64, V> {
        Map::new(
            |k: u64| positions(self.index).contains_key(k),
            |k: u64| self.values@[positions(self.index)[k] as int],
        )
    }
}

impl<V> SlotTable<V> {
    #[verifier::type_invariant]
    spec fn inv(self) -> bool {
        table_ok(positions(self.index), self.ids@, self.values@.len())
    }

    pub fn new() -> (r: Self)
        ensures
            r@ == Map::<u64, V>::empty(),
    {
        let r = SlotTable { index: SlotIndex::empty(), ids: Vec::new(), values: Vec::new() };
        assert(r@ =~= Map::empty());
        r
    }

    /// Whether `id` has a value.
    pub fn contains(&self, id: u64) -> (r: bool)
        requires
            valid_id(id),
        ensures
            r == self@.contains_key(id),
    {
        self.index.lookup(id).is_some()
    }

    /// The value of `id`.
    pub fn get(&self, id: u64) -> (r: Option<&V>)
        requires
            valid_id(id),
        ensures
            match r {
                Some(v) => self@.contains_key(id) && *v == self@[id],
                None => !self@.contains_key(id),
            },
    {
        proof {
            use_type_invariant(self);
        }
        match self.index.lookup(id) {
            Some(p) => Some(&self.values[p]),
            None => None,
        }
    }

    /// What the identifiers of a table keep: they are valid, and no two share a slot.
    pub fn check_ids(&self)
        ensures
            self@.dom().finite(),
            slots_apart(self@.dom()),
            forall|k: u64| #[trigger] self@.contains_key(k) ==> valid_id(k),
    {
        proof {
            use_type_invariant(self);
            lemma_table_dom(positions(self.index), self.ids@, self.values@.len());
            assert(self@.dom() =~= positions(self.index).dom());
        }
    }

    /// Gives `id` the value `v`, in place of one it had.
    pub fn insert(&mut self, id: u64, v: V)
        requires
            valid_id(id),
            forall|k: u64|
                old(self)@.contains_key(k) && k != id ==> #[trigger] slot_number(k) != slot_number(
                    id,
                ),
        ensures
            final(self)@ == old(self)@.insert(id, v),
    {
        proof {
            use_type_invariant(&*self);
        }
        let mut t = SlotTable { index: SlotIndex::empty(), ids: Vec::new(), values: Vec::new() };
        std::mem::swap(&mut t, self);
        let SlotTable { mut index, mut ids, mut values } = t;
        let ghost p0 = positions(index);
        let ghost ids0 = ids@;
        let ghost values0 = values@;
        match index.lookup(id) {
            Some(p) => {
                values.set(p, v);
            },
            None => {
                let p = ids.len();
                index.store(id, p);
                ids.push(id);
                values.push(v);
            },
        }
        proof {
            if !p0.contains_key(id) {
                let n = ids0.len() as int;
                assert forall|i: int| 0 <= i < ids@.len() implies positions(index).contains_key(
                    #[trigger] ids@[i],
                ) && positions(index)[ids@[i]] == i by {
                    if i < n {
                        assert(ids@[i] == ids0[i]);
                        assert(p0.contains_key(ids0[i]));
                    }
                }
                assert forall|k: u64| #[trigger] positions(index).contains_key(k) implies {
                    &&& valid_id(k)
                    &&& positions(index)[k] < ids@.len()
                    &&& ids@[positions(index)[k] as int] == k
                } by {
                    if k != id {
                        assert(p0.contains_key(k));
                    }
                }
                assert(slots_apart(positions(index).dom())) by {
                    assert forall|a: u64, b: u64|
                        #![trigger positions(index).dom().contains(a), positions(index).dom().contains(b)]
                        positions(index).dom().contains(a) && positions(index).dom().contains(b) && a
                            != b implies slot_number(a) != slot_number(b) by {
                        if a != id && b != id {
                            assert(p0.dom().contains(a) && p0.dom().contains(b));
                        } else if a != id {
                            assert(old(self)@.contains_key(a));
                        } else {
                            assert(old(self)@.contains_key(b));
                        }
                    }
                }
            }
        }
        let count = values.len();
        *self = SlotTable { index, ids, values };
        proof {
            assert forall|k: u64| #[trigger] old(self)@.contains_key(k) && k != id implies self@[k]
                == old(self)@[k] by {
                assert(p0.contains_key(k));
                if p0.contains_key(id) && p0[k] == p0[id] {
                    assert(ids0[p0[k] as int] == k && ids0[p0[id] as int] == id);
                }
            }
            assert(self@ =~= old(self)@.insert(id, v));
        }
    }

    /// Exchanges the value of `id` and `v`.
    pub fn swap(&mut self, id: u64, v: &mut V)
        requires
            valid_id(id),
            old(self)@.contains_key(id),
        ensures
            *final(v) == old(self)@[id],
            final(self)@ == old(self)@.insert(id, *old(v)),
    {
        proof {
            use_type_invariant(&*self);
        }
        match self.index.lookup(id) {
            Some(p) => {
                let ghost p0 = positions(self.index);
                let ghost values0 = self.values@;
                std::mem::swap(&mut self.values[p], v);
                proof {
                    assert forall|k: u64| #[trigger] old(self)@.contains_key(k) && k
                        != id implies self@[k] == old(self)@[k] by {
                        assert(p0.contains_key(k));
                        if p0[k] == p0[id] {
                            assert(self.ids@[p0[k] as int] == k && self.ids@[p0[id] as int] == id);
                        }
                    }
                    assert(self@ =~= old(self)@.insert(id, *old(v)));
                }
            },
            None => {},
        }
    }

    /// Takes the value of `id` out.
    pub fn remove(&mut self, id: u64) -> (r: Option<V>)
        requires
            valid_id(id),
        ensures
            final(self)@ == old(self)@.remove(id),
            match r {
                Some(v) => old(self)@.contains_key(id) && v == old(self)@[id],
                None => !old(self)@.contains_key(id),
            },
    {
        proof {
            use_type_invariant(&*self);
        }
        let mut t = SlotTable { index: SlotIndex::empty(), ids: Vec::new(), values: Vec::new() };
        std::mem::swap(&mut t, self);
        let SlotTable { mut index, mut ids, mut values } = t;
        let ghost p0 = positions(index);
        let ghost ids0 = ids@;
        let ghost values0 = values@;
        let p = match index.lookup(id) {
            None => {
                *self = SlotTable { index, ids, values };
                assert(self@ =~= old(self)@.remove(id));
                return None;
            },
            Some(p) => p,
        };
        let last = ids.len() - 1;
        let moved = ids[last];
        assert(p0.contains_key(moved) && p0[moved] == last);
        index.forget(id);
        if p != last {
            assert(moved != id);
            proof {
                assert forall|k: u64| positions(index).contains_key(k) && k
                    != moved implies #[trigger] slot_number(k) != slot_number(moved) by {
                    assert(p0.dom().contains(k) && p0.dom().contains(moved));
                }
            }
            index.store(moved, p);
        }
        let _ = ids.swap_remove(p);
        let v = values.swap_remove(p);
        proof {
            let p1 = positions(index);
            assert forall|i: int| 0 <= i < ids@.len() implies p1.contains_key(#[trigger] ids@[i])
                && p1[ids@[i]] == i by {
                if i == p {
                    assert(ids@[i] == moved);
                } else {
                    assert(ids@[i] == ids0[i]);
                    assert(p0.contains_key(ids0[i]) && p0[ids0[i]] == i);
                    assert(ids0[i] != moved);
                    assert(ids0[i] != id);
                }
            }
            assert forall|k: u64| #[trigger] p1.contains_key(k) implies {
                &&& valid_id(k)
                &&& p1[k] < ids@.len()
                &&& ids@[p1[k] as int] == k
            } by {
                assert(p0.contains_key(k));
                if k == moved {
                } else {
                    assert(p0[k] != last) by {
                        if p0[k] == last {
                            assert(ids0[last as int] == k);
                        }
                    }
                    assert(p0[k] != p) by {
                        if p0[k] == p {
                            assert(ids0[p as int] == k);
                        }
                    }
                    assert(ids@[p0[k] as int] == ids0[p0[k] as int]);
                }
            }
            assert(slots_apart(p1.dom())) by {
                assert forall|a: u64, b: u64|
                    #![trigger p1.dom().contains(a), p1.dom().contains(b)]
                    p1.dom().contains(a) && p1.dom().contains(b) && a != b implies slot_number(a)
                    != slot_number(b) by {
                    assert(p0.dom().contains(a) && p0.dom().contains(b));
                }
            }
        }
        *self = SlotTable { index, ids, values };
        proof {
            assert forall|k: u64| #[trigger] self@.contains_key(k) <==> old(self)@.remove(
                id,
            ).contains_key(k) by {}
            assert forall|k: u64| #[trigger] self@.contains_key(k) implies self@[k] == old(
                self,
            )@[k] by {
                assert(p0.contains_key(k));
                if k == moved {
                    assert(values@[p as int] == values0[last as int]);
                } else {
                    assert(p0[k] != last) by {
                        if p0[k] == last {
                            assert(ids0[last as int] == k);
                        }
                    }
                    assert(p0[k] != p) by {
                        if p0[k] == p {
                            assert(ids0[p as int] == k);
                        }
                    }
                }
            }
            assert(self@ =~= old(self)@.remove(id));
        }
        Some(v)
    }

    /// All identifiers that have a value, each once, in no order that callers can rely
    /// on.
    pub fn ids(&self) -> (r: Vec<u64>)
        ensures
            r@.no_duplicates(),
            forall|k: u64| r@.contains(k) <==> #[trigger] self@.contains_key(k),
            forall|i: int| 0 <= i < r@.len() ==> self@.contains_key(#[trigger] r@[i]),
            r@.len() == self@.dom().len(),
    {
        proof {
            use_type_invariant(self);
            lemma_table_dom(positions(self.index), self.ids@, self.values@.len());
            assert(self@.dom() =~= positions(self.index).dom());
        }
        let mut r: Vec<u64> = Vec::new();
        let n = self.ids.len();
        let mut i: usize = 0;
        while i < n
            invariant
                i <= n == self.ids@.len(),
                r@ == self.ids@.take(i as int),
            decreases n - i,
        {
            r.push(self.ids[i]);
            i = i + 1;
            assert(r@ =~= self.ids@.take(i as int));
        }
        assert(r@ =~= self.ids@);
        proof {
            assert forall|k: u64| r@.contains(k) <==> #[trigger] self@.contains_key(k) by {
                if self@.contains_key(k) {
                    assert(r@[positions(self.index)[k] as int] == k);
                }
            }
        }
        r
    }

    /// The number of identifiers that have a value.
    pub fn len(&self) -> (r: usize)
        ensures
            r == self@.dom().len(),
            self@.dom().finite(),
    {
        proof {
            use_type_invariant(self);
            lemma_table_dom(positions(self.index), self.ids@, self.values@.len());
            assert(self@.dom() =~= positions(self.index).dom());
        }
        self.ids.len()
    }
}

/// The index and the lists of a table agree.
spec fn table_ok(index: Map<u64, usize>, ids: Seq<u64>, n: nat) -> bool {
    &&& ids.len() == n
    &&& n <= usize::MAX
    &&& forall|i: int|
        0 <= i < ids.len() ==> index.contains_key(#[trigger] ids[i]) && index[ids[i]] == i
    &&& forall|k: u64| #[trigger]
        index.contains_key(k) ==> {
            &&& valid_id(k)
            &&& index[k] < ids.len()
            &&& ids[index[k] as int] == k
        }
    &&& slots_apart(index.dom())
}

proof fn lemma_table_dom(index: Map<u64, usize>, ids: Seq<u64>, n: nat)
    requires
        table_ok(index, ids, n),
    ensures
        index.dom().finite(),
        index.dom().len() == ids.len(),
        ids.no_duplicates(),
{
    assert(ids.no_duplicates()) by {
        assert forall|i: int, j: int| 0 <= i < ids.len() && 0 <= j < ids.len() && i
            != j implies ids[i] != ids[j] by {
            assert(index[ids[i]] == i && index[ids[j]] == j);
        }
    }
    ids.unique_seq_to_set();
    assert(ids.to_set() =~= index.dom()) by {
        assert forall|k: u64| ids.to_set().contains(k) <==> index.dom().contains(k) by {
            if index.contains_key(k) {
                assert(ids[index[k] as int] == k);
            }
        }
    }
}

} // verus!

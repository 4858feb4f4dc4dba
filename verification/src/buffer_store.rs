//! All open buffers, in the order they were opened and in the order they were used.

use crate::buffer::Buffer;
use crate::slots::{slot_number, slots_apart, is_valid_id, valid_id, SlotTable};
use crate::strings::str_eq;
use vstd::prelude::*;

verus! {

/// Names an open buffer.
#[derive(Debug, Clone, Copy, PartialEq, Eq, Structural)]
pub struct BufferId(pub u64);

/// `s` without `x`.
pub open spec fn without(s: Seq<u64>, x: u64) -> Seq<u64>
    decreases s.len(),
{
    if s.len() == 0 {
        s
    } else if s.last() == x {
        without(s.drop_last(), x)
    } else {
        without(s.drop_last(), x).push(s.last())
    }
}

/// The last element of `s` that is not `x`.
pub open spec fn last_other(s: Seq<u64>, x: u64) -> Option<u64>
    decreases s.len(),
{
    if s.len() == 0 {
        None
    } else if s.last() != x {
        Some(s.last())
    } else {
        last_other(s.drop_last(), x)
    }
}

/// The position of `x` in `s`, or 0 where it does not occur.
pub open spec fn place(s: Seq<u64>, x: u64) -> int {
    if s.contains(x) {
        s.index_of(x)
    } else {
        0
    }
}

/// The element of `s` behind `x`, and the first one behind the last.
pub open spec fn next_in(s: Seq<u64>, x: u64) -> u64 {
    if s.len() == 0 {
        x
    } else if place(s, x) + 1 == s.len() {
        s[0]
    } else {
        s[place(s, x) + 1]
    }
}

/// The element of `s` before `x`, and the last one before the first.
pub open spec fn prev_in(s: Seq<u64>, x: u64) -> u64 {
    if s.len() == 0 {
        x
    } else if place(s, x) == 0 {
        s[s.len() - 1]
    } else {
        s[place(s, x) - 1]
    }
}

/// None of `ids` that come before `k` has a buffer with this path.
pub open spec fn first_at(ids: Seq<u64>, buffers: Map<u64, Buffer>, path: Seq<char>, k: u64) -> bool {
    exists|j: int|
        {
            &&& 0 <= j < ids.len()
            &&& #[trigger] ids[j] == k
            &&& forall|i: int|
                0 <= i < j ==> !(buffers[#[trigger] ids[i]].path is Some
                    && buffers[ids[i]].path->0@ == path)
        }
}

/// What is left of a list without one element, in words.
pub proof fn lemma_without(s: Seq<u64>, x: u64)
    ensures
        !without(s, x).contains(x),
        forall|y: u64| y != x ==> (without(s, x).contains(y) <==> #[trigger] s.contains(y)),
        s.no_duplicates() ==> without(s, x).no_duplicates(),
        without(s, x).len() <= s.len(),
    decreases s.len(),
{
    if s.len() > 0 {
        let r = s.drop_last();
        lemma_without(r, x);
        let w = without(s, x);
        let wr = without(r, x);
        assert forall|y: u64| y != x implies (w.contains(y) <==> #[trigger] s.contains(y)) by {
            if s.contains(y) {
                let i = choose|i: int| 0 <= i < s.len() && s[i] == y;
                if i < r.len() {
                    assert(r[i] == y);
                    assert(r.contains(y));
                    let j = choose|j: int| 0 <= j < wr.len() && wr[j] == y;
                    assert(w[j] == y);
                } else {
                    assert(w[wr.len() as int] == y);
                }
            }
            if w.contains(y) {
                let j = choose|j: int| 0 <= j < w.len() && w[j] == y;
                if j < wr.len() {
                    assert(wr[j] == y);
                    assert(wr.contains(y));
                    assert(r.contains(y));
                    let i = choose|i: int| 0 <= i < r.len() && r[i] == y;
                    assert(s[i] == y);
                } else {
                    assert(s[s.len() - 1] == y);
                }
            }
        }
        if w.contains(x) {
            let j = choose|j: int| 0 <= j < w.len() && w[j] == x;
            if j < wr.len() {
                assert(wr[j] == x);
                assert(wr.contains(x));
            }
        }
        if s.no_duplicates() {
            assert(r.no_duplicates());
            if s.last() != x {
                assert(!wr.contains(s.last())) by {
                    if wr.contains(s.last()) {
                        assert(r.contains(s.last()));
                        let i = choose|i: int| 0 <= i < r.len() && r[i] == s.last();
                        assert(s[i] == s[s.len() - 1]);
                    }
                }
                assert forall|i: int, j: int| 0 <= i < w.len() && 0 <= j < w.len() && i
                    != j implies w[i] != w[j] by {
                    if i < wr.len() && j < wr.len() {
                        assert(wr[i] != wr[j]);
                    } else if i < wr.len() {
                        assert(wr.contains(wr[i]));
                    } else {
                        assert(wr.contains(wr[j]));
                    }
                }
            }
        }
    }
}

/// The last other element occurs and differs; there is one where any other occurs.
pub proof fn lemma_last_other(s: Seq<u64>, x: u64)
    ensures
        match last_other(s, x) {
            Some(y) => y != x && s.contains(y),
            None => forall|y: u64| #[trigger] s.contains(y) ==> y == x,
        },
    decreases s.len(),
{
    if s.len() > 0 {
        let r = s.drop_last();
        lemma_last_other(r, x);
        if s.last() != x {
            assert(s[s.len() - 1] == s.last());
        } else {
            match last_other(r, x) {
                Some(y) => {
                    let i = choose|i: int| 0 <= i < r.len() && r[i] == y;
                    assert(s[i] == y);
                },
                None => {
                    assert forall|y: u64| #[trigger] s.contains(y) implies y == x by {
                        let i = choose|i: int| 0 <= i < s.len() && s[i] == y;
                        if i < r.len() {
                            assert(r[i] == y);
                            assert(r.contains(y));
                        }
                    }
                },
            }
        }
    }
}

fn remove_all(v: &Vec<u64>, x: u64) -> (r: Vec<u64>)
    ensures
        r@ == without(v@, x),
{
    let mut r: Vec<u64> = Vec::new();
    let n = v.len();
    let mut i: usize = 0;
    assert(v@.take(0) =~= Seq::<u64>::empty());
    while i < n
        invariant
            i <= n == v@.len(),
            r@ == without(v@.take(i as int), x),
        decreases n - i,
    {
        assert(v@.take(i + 1).drop_last() =~= v@.take(i as int));
        if v[i] != x {
            r.push(v[i]);
        }
        i = i + 1;
    }
    assert(v@.take(n as int) =~= v@);
    r
}

fn place_of(v: &Vec<u64>, x: u64) -> (r: usize)
    requires
        v@.no_duplicates(),
    ensures
        r == place(v@, x),
        v@.len() > 0 ==> r < v@.len(),
{
    let n = v.len();
    let mut i: usize = 0;
    while i < n
        invariant
            i <= n == v@.len(),
            v@.no_duplicates(),
            forall|j: int| 0 <= j < i ==> v@[j] != x,
        decreases n - i,
    {
        if v[i] == x {
            proof {
                assert(v@.contains(x));
                assert(v@[v@.index_of(x)] == x);
            }
            return i;
        }
        i = i + 1;
    }
    0
}

/// All open buffers.
pub struct BufferStore {
    buffers: SlotTable<Buffer>,
    order: Vec<u64>,
    mru: Vec<u64>,
}

impl View for BufferStore {
    type V = Map<u64, Buffer>;

    closed spec fn view(&self) -> Map<u64, Buffer> {
        self.buffers@
    }
}

spec fn lists_all(s: Seq<u64>, ids: Set<u64>) -> bool {
    s.no_duplicates() && forall|k: u64| #[trigger] s.contains(k) <==> ids.contains(k)
}

impl BufferStore {
    #[verifier::type_invariant]
    spec fn inv(self) -> bool {
        &&& lists_all(self.order@, self.buffers@.dom())
        &&& lists_all(self.mru@, self.buffers@.dom())
    }

    /// The buffers in the order they were opened.
    pub closed spec fn opened(&self) -> Seq<u64> {
        self.order@
    }

    /// The buffers in the order they were last used, the most recent at the end.
    pub closed spec fn used(&self) -> Seq<u64> {
        self.mru@
    }

    pub fn new() -> (r: Self)
        ensures
            r@ == Map::<u64, Buffer>::empty(),
            r.opened() == Seq::<u64>::empty(),
            r.used() == Seq::<u64>::empty(),
    {
        BufferStore { buffers: SlotTable::new(), order: Vec::new(), mru: Vec::new() }
    }

    /// What the two orders keep: each lists every open buffer once.
    pub fn check_orders(&self)
        ensures
            self.opened().no_duplicates(),
            self.used().no_duplicates(),
            forall|k: u64| #[trigger] self.opened().contains(k) <==> self@.contains_key(k),
            forall|k: u64| #[trigger] self.used().contains(k) <==> self@.contains_key(k),
            self@.dom().finite(),
            slots_apart(self@.dom()),
            forall|k: u64| #[trigger] self@.contains_key(k) ==> valid_id(k),
    {
        proof {
            use_type_invariant(self);
        }
        self.buffers.check_ids();
    }

    /// Adds a buffer under a new identifier. It becomes the last opened and the most
    /// recently used one.
    pub fn open(&mut self, id: BufferId, doc: Buffer)
        requires
            valid_id(id.0),
            !old(self)@.contains_key(id.0),
            forall|k: u64|
                old(self)@.contains_key(k) ==> #[trigger] slot_number(k) != slot_number(id.0),
        ensures
            final(self)@ == old(self)@.insert(id.0, doc),
            final(self).opened() == old(self).opened().push(id.0),
            final(self).used() == old(self).used().push(id.0),
    {
        proof {
            use_type_invariant(&*self);
        }
        let mut t = BufferStore::new();
        std::mem::swap(&mut t, self);
        let BufferStore { mut buffers, mut order, mut mru } = t;
        let ghost o0 = order@;
        let ghost m0 = mru@;
        let ghost d0 = buffers@.dom();
        buffers.insert(id.0, doc);
        order.push(id.0);
        mru.push(id.0);
        proof {
            lemma_lists_push(o0, d0, id.0);
            lemma_lists_push(m0, d0, id.0);
            assert(buffers@.dom() =~= d0.insert(id.0));
        }
        *self = BufferStore { buffers, order, mru };
    }

    /// The buffer opened first of those whose file has this path; `None` where there is
    /// none.
    pub fn find_by_path(&self, path: &str) -> (r: Option<BufferId>)
        ensures
            match r {
                Some(id) => self@.contains_key(id.0) && self@[id.0].path is Some
                    && self@[id.0].path->0@ == path@ && first_at(
                    self.opened(),
                    self@,
                    path@,
                    id.0,
                ),
                None => forall|k: u64|
                    #![trigger self@.contains_key(k)]
                    self@.contains_key(k) ==> !(self@[k].path is Some && self@[k].path->0@
                        == path@),
            },
    {
        proof {
            use_type_invariant(self);
        }
        self.buffers.check_ids();
        let n = self.order.len();
        let mut i: usize = 0;
        while i < n
            invariant
                i <= n == self.order@.len(),
                lists_all(self.order@, self.buffers@.dom()),
                forall|k: u64| #[trigger] self.buffers@.contains_key(k) ==> valid_id(k),
                forall|j: int|
                    #![trigger self.order@[j]]
                    0 <= j < i ==> !(self@[self.order@[j]].path is Some
                        && self@[self.order@[j]].path->0@ == path@),
            decreases n - i,
        {
            let id = self.order[i];
            assert(self.order@.contains(id));
            assert(self.buffers@.contains_key(id));
            if let Some(b) = self.buffers.get(id) {
                if let Some(p) = &b.path {
                    if str_eq(p.as_str(), path) {
                        assert(self.opened()[i as int] == id);
                        return Some(BufferId(id));
                    }
                }
            }
            i = i + 1;
        }
        proof {
            assert forall|k: u64| #![trigger self@.contains_key(k)]
                self@.contains_key(k) implies !(self@[k].path is Some && self@[k].path->0@
                == path@) by {
                assert(self.order@.contains(k));
                let j = choose|j: int| 0 <= j < self.order@.len() && self.order@[j] == k;
                assert(self.order@[j] == k);
            }
        }
        None
    }

    /// The buffer `id`, which is open.
    pub fn get(&self, id: BufferId) -> (r: &Buffer)
        requires
            self@.contains_key(id.0),
        ensures
            *r == self@[id.0],
    {
        self.buffers.check_ids();
        self.buffers.get(id.0).unwrap()
    }

    /// Exchanges the buffer `id` and `b`.
    pub fn swap(&mut self, id: BufferId, b: &mut Buffer)
        requires
            old(self)@.contains_key(id.0),
        ensures
            *final(b) == old(self)@[id.0],
            final(self)@ == old(self)@.insert(id.0, *old(b)),
            final(self).opened() == old(self).opened(),
            final(self).used() == old(self).used(),
    {
        proof {
            use_type_invariant(&*self);
        }
        let mut t = BufferStore::new();
        std::mem::swap(&mut t, self);
        let BufferStore { mut buffers, order, mru } = t;
        let ghost d0 = buffers@.dom();
        buffers.check_ids();
        buffers.swap(id.0, b);
        assert(buffers@.dom() =~= d0);
        *self = BufferStore { buffers, order, mru };
    }

    /// The buffer `id`, if it is open.
    pub fn try_get(&self, id: BufferId) -> (r: Option<&Buffer>)
        ensures
            match r {
                Some(b) => self@.contains_key(id.0) && *b == self@[id.0],
                None => !self@.contains_key(id.0),
            },
    {
        self.buffers.check_ids();
        if !is_valid_id(id.0) {
            return None;
        }
        self.buffers.get(id.0)
    }

    /// The open buffers in the order they were opened.
    pub fn ids(&self) -> (r: Vec<BufferId>)
        ensures
            r@.map_values(|b: BufferId| b.0) == self.opened(),
            forall|i: int| 0 <= i < r@.len() ==> self@.contains_key((#[trigger] r@[i]).0),
    {
        proof {
            use_type_invariant(self);
        }
        let mut r: Vec<BufferId> = Vec::new();
        let n = self.order.len();
        let mut i: usize = 0;
        while i < n
            invariant
                i <= n == self.order@.len(),
                r@.len() == i,
                lists_all(self.order@, self.buffers@.dom()),
                forall|j: int| 0 <= j < i ==> (#[trigger] r@[j]).0 == self.order@[j],
                forall|j: int| 0 <= j < i ==> self@.contains_key((#[trigger] r@[j]).0),
            decreases n - i,
        {
            assert(self.order@.contains(self.order@[i as int]));
            r.push(BufferId(self.order[i]));
            i = i + 1;
        }
        assert(r@.map_values(|b: BufferId| b.0) =~= self.opened());
        r
    }

    /// Removes the buffer `id`. Gives the most recently used other one, which is the one
    /// to show in its place.
    pub fn close(&mut self, id: BufferId) -> (r: Option<BufferId>)
        requires
            valid_id(id.0),
        ensures
            final(self)@ == old(self)@.remove(id.0),
            final(self).opened() == without(old(self).opened(), id.0),
            final(self).used() == without(old(self).used(), id.0),
            r == (match last_other(old(self).used(), id.0) {
                Some(k) => Some(BufferId(k)),
                None => None,
            }),
    {
        proof {
            use_type_invariant(&*self);
        }
        let replacement = self.mru_excluding(id);
        let mut t = BufferStore::new();
        std::mem::swap(&mut t, self);
        let BufferStore { mut buffers, order, mru } = t;
        let ghost d0 = buffers@.dom();
        let _ = buffers.remove(id.0);
        let new_order = remove_all(&order, id.0);
        let new_mru = remove_all(&mru, id.0);
        proof {
            lemma_without(order@, id.0);
            lemma_without(mru@, id.0);
            assert(buffers@.dom() =~= d0.remove(id.0));
            lemma_lists_without(order@, d0, id.0);
            lemma_lists_without(mru@, d0, id.0);
        }
        *self = BufferStore { buffers, order: new_order, mru: new_mru };
        replacement
    }

    /// Makes the open buffer `id` the most recently used one.
    pub fn touch_mru(&mut self, id: BufferId)
        requires
            old(self)@.contains_key(id.0),
        ensures
            final(self)@ == old(self)@,
            final(self).opened() == old(self).opened(),
            final(self).used() == without(old(self).used(), id.0).push(id.0),
    {
        proof {
            use_type_invariant(&*self);
        }
        let mut mru = remove_all(&self.mru, id.0);
        let ghost w = mru@;
        mru.push(id.0);
        proof {
            lemma_without(self.mru@, id.0);
            lemma_lists_without(self.mru@, self.buffers@.dom(), id.0);
            lemma_lists_push(w, self.buffers@.dom().remove(id.0), id.0);
            assert(self.buffers@.dom().remove(id.0).insert(id.0) =~= self.buffers@.dom());
        }
        self.mru = mru;
    }

    /// The most recently used buffer that is not `id`.
    pub fn mru_excluding(&self, id: BufferId) -> (r: Option<BufferId>)
        ensures
            r == (match last_other(self.used(), id.0) {
                Some(k) => Some(BufferId(k)),
                None => None,
            }),
    {
        let mut i: usize = self.mru.len();
        assert(self.mru@.take(i as int) =~= self.mru@);
        while i > 0
            invariant
                i <= self.mru@.len(),
                last_other(self.mru@.take(i as int), id.0) == last_other(self.used(), id.0),
            decreases i,
        {
            let k = self.mru[i - 1];
            assert(self.mru@.take(i as int).drop_last() =~= self.mru@.take(i - 1));
            if k != id.0 {
                return Some(BufferId(k));
            }
            i = i - 1;
        }
        None
    }

    /// The buffer opened after `current`; the first one after the last.
    pub fn next(&self, current: BufferId) -> (r: BufferId)
        ensures
            r.0 == next_in(self.opened(), current.0),
    {
        proof {
            use_type_invariant(self);
        }
        let n = self.order.len();
        if n == 0 {
            return current;
        }
        let pos = place_of(&self.order, current.0);
        if pos + 1 == n {
            BufferId(self.order[0])
        } else {
            BufferId(self.order[pos + 1])
        }
    }

    /// The buffer opened before `current`; the last one before the first.
    pub fn prev(&self, current: BufferId) -> (r: BufferId)
        ensures
            r.0 == prev_in(self.opened(), current.0),
    {
        proof {
            use_type_invariant(self);
        }
        let n = self.order.len();
        if n == 0 {
            return current;
        }
        let pos = place_of(&self.order, current.0);
        if pos == 0 {
            BufferId(self.order[n - 1])
        } else {
            BufferId(self.order[pos - 1])
        }
    }

    pub fn len(&self) -> (r: usize)
        ensures
            r == self@.dom().len(),
    {
        self.buffers.len()
    }
}

proof fn lemma_lists_push(s: Seq<u64>, ids: Set<u64>, x: u64)
    requires
        lists_all(s, ids),
        !ids.contains(x),
    ensures
        lists_all(s.push(x), ids.insert(x)),
{
    let p = s.push(x);
    assert(!s.contains(x));
    assert forall|k: u64| #[trigger] p.contains(k) <==> ids.insert(x).contains(k) by {
        if ids.contains(k) {
            assert(s.contains(k));
            let i = choose|i: int| 0 <= i < s.len() && s[i] == k;
            assert(p[i] == k);
        }
        if k == x {
            assert(p[s.len() as int] == x);
        }
        if p.contains(k) {
            let i = choose|i: int| 0 <= i < p.len() && p[i] == k;
            if i < s.len() {
                assert(s[i] == k);
                assert(s.contains(k));
            }
        }
    }
    assert forall|i: int, j: int| 0 <= i < p.len() && 0 <= j < p.len() && i != j implies p[i]
        != p[j] by {
        if i < s.len() && j < s.len() {
            assert(s[i] != s[j]);
        } else if i < s.len() {
            assert(s.contains(s[i]));
        } else {
            assert(s.contains(s[j]));
        }
    }
}

proof fn lemma_lists_without(s: Seq<u64>, ids: Set<u64>, x: u64)
    requires
        lists_all(s, ids),
    ensures
        lists_all(without(s, x), ids.remove(x)),
{
    lemma_without(s, x);
    assert forall|k: u64| #[trigger] without(s, x).contains(k) <==> ids.remove(x).contains(k) by {
        if k != x {
            assert(s.contains(k) <==> ids.contains(k));
        }
    }
}

/// The neighbours of an element are elements.
pub proof fn lemma_next_prev_in(s: Seq<u64>, x: u64)
    requires
        s.contains(x),
    ensures
        s.contains(next_in(s, x)),
        s.contains(prev_in(s, x)),
{
    let p = s.index_of(x);
    assert(0 <= p < s.len() && s[p] == x);
    let py = if p + 1 == s.len() {
        0
    } else {
        p + 1
    };
    let pz = if p == 0 {
        s.len() - 1
    } else {
        p - 1
    };
    assert(s[py] == next_in(s, x) && s[pz] == prev_in(s, x));
}

/// Walking forward and then back through the open buffers leads to where it began.
pub proof fn law_next_then_prev(s: Seq<u64>, x: u64)
    requires
        s.no_duplicates(),
        s.contains(x),
    ensures
        prev_in(s, next_in(s, x)) == x,
        next_in(s, prev_in(s, x)) == x,
{
    let p = s.index_of(x);
    assert(s[p] == x);
    let y = next_in(s, x);
    let z = prev_in(s, x);
    let py = if p + 1 == s.len() {
        0
    } else {
        p + 1
    };
    let pz = if p == 0 {
        s.len() - 1
    } else {
        p - 1
    };
    assert(s[py] == y && s[pz] == z);
    assert(s.contains(y) && s.contains(z));
    assert(s.index_of(y) == py) by {
        assert(s[s.index_of(y)] == y);
    }
    assert(s.index_of(z) == pz) by {
        assert(s[s.index_of(z)] == z);
    }
}

/// Taking an element out leaves the others in their order.
pub proof fn law_others_stay_in_order(s: Seq<u64>, x: u64)
    ensures
        without(s, x) == s.filter(|y: u64| y != x),
    decreases s.len(),
{
    reveal(Seq::filter);
    if s.len() > 0 {
        law_others_stay_in_order(s.drop_last(), x);
    }
}

/// The last other element is the one behind which only `x` comes.
pub proof fn law_last_other_is_the_last(s: Seq<u64>, x: u64, k: int)
    ensures
        0 <= k < s.len() && s[k] != x && (forall|i: int| k < i < s.len() ==> #[trigger] s[i] == x)
            ==> last_other(s, x) == Some(s[k]),
        last_other(s, x) is None <==> (forall|i: int| 0 <= i < s.len() ==> #[trigger] s[i] == x),
    decreases s.len(),
{
    if s.len() > 0 {
        let t = s.drop_last();
        law_last_other_is_the_last(t, x, k);
        assert(s[s.len() - 1] == s.last());
        assert(forall|i: int| 0 <= i < t.len() ==> t[i] == s[i]);
        if last_other(s, x) is None {
            assert forall|i: int| 0 <= i < s.len() implies #[trigger] s[i] == x by {
                if i < t.len() {
                    assert(t[i] == x);
                }
            }
        }
        if forall|i: int| 0 <= i < s.len() ==> #[trigger] s[i] == x {
            assert(s[s.len() - 1] == x);
            assert forall|i: int| 0 <= i < t.len() implies #[trigger] t[i] == x by {
                assert(s[i] == x);
            }
        }
        if 0 <= k < s.len() && s[k] != x && (forall|i: int|
            k < i < s.len() ==> #[trigger] s[i] == x) && k < s.len() - 1 {
            assert(s[s.len() - 1] == x);
            assert forall|i: int| k < i < t.len() implies #[trigger] t[i] == x by {
                assert(s[i] == x);
            }
        }
    }
}

/// The next buffer is the one opened behind it, the previous one the one opened before it,
/// round and round.
pub proof fn law_neighbours_go_round(s: Seq<u64>, i: int)
    requires
        s.no_duplicates(),
        0 <= i < s.len(),
    ensures
        i + 1 < s.len() ==> next_in(s, s[i]) == s[i + 1],
        i + 1 == s.len() ==> next_in(s, s[i]) == s[0],
        i > 0 ==> prev_in(s, s[i]) == s[i - 1],
        i == 0 ==> prev_in(s, s[i]) == s[s.len() - 1],
{
    assert(s.contains(s[i]));
    assert(s[s.index_of(s[i])] == s[i]);
}

} // verus!

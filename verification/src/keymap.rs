//! Tries from key sequences to commands, one for each mode.

use crate::keys::{
    ch, char_key, ctrl, ctrl_key, law_canonical_idempotent, named, named_key, KeyCode, KeyEvent,
    KeyEventKind, KeyModifiers,
};
use vstd::prelude::*;
use vstd::string::*;

verus! {

/// A command that waits for one more character. `ctrl_extend` remembers that the key was
/// pressed with control to extend the selection.
#[derive(Debug)]
pub struct WaitCharPending {
    pub cmd_name: String,
    pub ctrl_extend: bool,
}

/// What a binding stands for: the name of a command.
#[derive(Debug)]
pub struct KeymapCommand {
    pub name: String,
}

impl KeymapCommand {
    pub fn new(name: &str) -> (r: KeymapCommand)
        ensures
            r.name@ == name@,
    {
        KeymapCommand { name: name.to_owned() }
    }

    pub fn clone(&self) -> (r: KeymapCommand)
        ensures
            r.name@ == self.name@,
    {
        KeymapCommand { name: self.name.clone() }
    }
}

impl WaitCharPending {
    pub fn clone(&self) -> (r: WaitCharPending)
        ensures
            r.cmd_name@ == self.cmd_name@,
            r.ctrl_extend == self.ctrl_extend,
    {
        WaitCharPending { cmd_name: self.cmd_name.clone(), ctrl_extend: self.ctrl_extend }
    }
}

/// Where a key sequence leads in a trie.
#[derive(Debug)]
pub enum WalkResult {
    /// To a command.
    Leaf(KeymapCommand),
    /// To an inner node: more keys are needed.
    Interior { name: &'static str },
    /// To a command that takes the next character.
    WaitChar(WaitCharPending),
    NoMatch,
}

/// Where a key sequence leads, as a value.
pub enum Walk {
    Leaf(Seq<char>),
    Interior(Seq<char>),
    WaitChar(Seq<char>, bool),
    NoMatch,
}

impl View for WalkResult {
    type V = Walk;

    open spec fn view(&self) -> Walk {
        match self {
            WalkResult::Leaf(c) => Walk::Leaf(c.name@),
            WalkResult::Interior { name } => Walk::Interior(name@),
            WalkResult::WaitChar(w) => Walk::WaitChar(w.cmd_name@, w.ctrl_extend),
            WalkResult::NoMatch => Walk::NoMatch,
        }
    }
}

/// One level of a keymap.
#[derive(Debug)]
pub struct KeyTrie {
    /// Shown while the keys of a sequence through this node are typed.
    pub name: &'static str,
    /// What the keys lead to. Keys are canonical.
    pub bindings: Vec<Binding>,
}

#[derive(Debug)]
pub struct Binding {
    pub key: KeyEvent,
    pub node: KeyTrieNode,
}

#[derive(Debug)]
pub enum KeyTrieNode {
    Leaf(KeymapCommand),
    Node(KeyTrie),
    WaitChar(WaitCharPending),
}

/// The position of the binding of `k`, or the length of `b` where there is none.
pub open spec fn slot(b: Seq<Binding>, k: KeyEvent) -> nat
    decreases b.len(),
{
    if b.len() == 0 {
        0
    } else if b[0].key == k {
        0
    } else {
        1 + slot(b.drop_first(), k)
    }
}

/// The canonical forms of a key sequence.
pub open spec fn canon(ks: Seq<KeyEvent>) -> Seq<KeyEvent> {
    ks.map_values(|k: KeyEvent| k.canonical())
}

proof fn lemma_slot(b: Seq<Binding>, k: KeyEvent)
    ensures
        slot(b, k) <= b.len(),
        slot(b, k) < b.len() ==> b[slot(b, k) as int].key == k,
        forall|i: int| 0 <= i < slot(b, k) ==> (#[trigger] b[i]).key != k,
    decreases b.len(),
{
    if b.len() > 0 && b[0].key != k {
        lemma_slot(b.drop_first(), k);
        assert forall|i: int| 0 <= i < slot(b, k) implies (#[trigger] b[i]).key != k by {
            if i > 0 {
                assert(b.drop_first()[i - 1].key != k);
            }
        }
    }
}

proof fn lemma_slot_unique(b: Seq<Binding>, k: KeyEvent, p: int)
    requires
        0 <= p <= b.len(),
        p < b.len() ==> b[p].key == k,
        forall|i: int| 0 <= i < p ==> (#[trigger] b[i]).key != k,
    ensures
        slot(b, k) == p,
{
    lemma_slot(b, k);
    if slot(b, k) < p {
        assert(b[slot(b, k) as int].key != k);
    }
    if p < slot(b, k) {
        assert(b[p].key != k);
    }
}

impl KeyTrieNode {
    /// Where `rest` leads from this node.
    pub open spec fn follow(self, rest: Seq<KeyEvent>) -> Walk
        decreases rest.len(), 1nat,
    {
        match self {
            KeyTrieNode::Leaf(c) => if rest.len() == 0 {
                Walk::Leaf(c.name@)
            } else {
                Walk::NoMatch
            },
            KeyTrieNode::WaitChar(w) => if rest.len() == 0 {
                Walk::WaitChar(w.cmd_name@, w.ctrl_extend)
            } else {
                Walk::NoMatch
            },
            KeyTrieNode::Node(sub) => if rest.len() == 0 {
                Walk::Interior(sub.name@)
            } else {
                sub.at(rest)
            },
        }
    }
}

impl KeyTrie {
    /// Where a sequence of canonical keys leads.
    pub open spec fn at(self, ks: Seq<KeyEvent>) -> Walk
        decreases ks.len(), 0nat,
    {
        if ks.len() == 0 {
            Walk::NoMatch
        } else {
            let p = slot(self.bindings@, ks[0]);
            if p < self.bindings@.len() {
                self.bindings@[p as int].node.follow(ks.drop_first())
            } else {
                Walk::NoMatch
            }
        }
    }

    pub fn new(name: &'static str) -> (r: Self)
        ensures
            r.name@ == name@,
            forall|ks: Seq<KeyEvent>| #[trigger] r.at(ks) == Walk::NoMatch,
    {
        let r = KeyTrie { name, bindings: Vec::new() };
        assert forall|ks: Seq<KeyEvent>| #[trigger] r.at(ks) == Walk::NoMatch by {
            if ks.len() > 0 {
                assert(slot(r.bindings@, ks[0]) == 0);
            }
        }
        r
    }

    fn find(&self, key: KeyEvent) -> (r: usize)
        ensures
            r == slot(self.bindings@, key),
            r <= self.bindings@.len(),
    {
        let n = self.bindings.len();
        let mut i: usize = 0;
        while i < n
            invariant
                i <= n == self.bindings@.len(),
                forall|j: int| 0 <= j < i ==> (#[trigger] self.bindings@[j]).key != key,
            decreases n - i,
        {
            if self.bindings[i].key == key {
                proof {
                    lemma_slot_unique(self.bindings@, key, i as int);
                }
                return i;
            }
            i = i + 1;
        }
        proof {
            lemma_slot_unique(self.bindings@, key, n as int);
        }
        n
    }

    /// Binds `key` to `node`, in place of what it was bound to.
    pub fn bind(&mut self, key: KeyEvent, node: KeyTrieNode)
        ensures
            final(self).name == old(self).name,
            forall|ks: Seq<KeyEvent>|
                ks.len() > 0 ==> #[trigger] final(self).at(ks) == (if ks[0] == key.canonical() {
                    node.follow(ks.drop_first())
                } else {
                    old(self).at(ks)
                }),
    {
        let k = key.to_canonical();
        let p = self.find(k);
        let ghost b0 = self.bindings@;
        let ghost b = Binding { key: k, node };
        if p < self.bindings.len() {
            self.bindings.set(p, Binding { key: k, node });
            assert(self.bindings@ == b0.update(p as int, b));
        } else {
            self.bindings.push(Binding { key: k, node });
            assert(self.bindings@ == b0.push(b));
        }
        assert forall|ks: Seq<KeyEvent>| ks.len() > 0 implies #[trigger] self.at(ks) == (if ks[0]
            == k {
            node.follow(ks.drop_first())
        } else {
            old(self).at(ks)
        }) by {
            lemma_slot(b0, ks[0]);
            lemma_slot(b0, k);
            let b1 = self.bindings@;
            if ks[0] == k {
                lemma_slot_unique(b1, k, p as int);
            } else {
                let q = slot(b0, ks[0]) as int;
                let q1 = if q == b0.len() {
                    b1.len() as int
                } else {
                    q
                };
                assert forall|i: int| 0 <= i < q1 implies (#[trigger] b1[i]).key != ks[0] by {
                    if i < b0.len() {
                        if i != p {
                            assert(b1[i] == b0[i]);
                        }
                    }
                }
                lemma_slot_unique(b1, ks[0], q1);
            }
        }
    }

    /// Binds `key` to a command.
    pub fn bind_leaf(&mut self, key: KeyEvent, cmd: KeymapCommand)
        ensures
            final(self).name == old(self).name,
            forall|ks: Seq<KeyEvent>|
                ks.len() > 0 ==> #[trigger] final(self).at(ks) == (if ks[0] == key.canonical() {
                    if ks.len() == 1 {
                        Walk::Leaf(cmd.name@)
                    } else {
                        Walk::NoMatch
                    }
                } else {
                    old(self).at(ks)
                }),
    {
        self.bind(key, KeyTrieNode::Leaf(cmd));
    }

    /// Binds a sequence of keys to a command. Inner nodes are made where they are
    /// missing; a binding that is in the way of one gives way to it.
    pub fn bind_sequence(&mut self, keys: &Vec<KeyEvent>, cmd: KeymapCommand)
        requires
            keys@.len() > 0,
        ensures
            final(self).name == old(self).name,
            forall|ks: Seq<KeyEvent>|
                ks.len() > 0 ==> #[trigger] final(self).at(ks) == bound_at(
                    *old(self),
                    canon(keys@),
                    cmd.name@,
                    ks,
                ),
    {
        self.bind_from(keys, 0, cmd);
        assert(keys@.skip(0) =~= keys@);
    }

    fn bind_from(&mut self, keys: &Vec<KeyEvent>, from: usize, cmd: KeymapCommand)
        requires
            from < keys@.len(),
        ensures
            final(self).name == old(self).name,
            forall|ks: Seq<KeyEvent>|
                ks.len() > 0 ==> #[trigger] final(self).at(ks) == bound_at(
                    *old(self),
                    canon(keys@.skip(from as int)),
                    cmd.name@,
                    ks,
                ),
        decreases keys@.len() - from,
    {
        let ghost rest = canon(keys@.skip(from as int));
        let ghost name = cmd.name@;
        let ghost old_self = *self;
        let n = keys.len();
        let k = keys[from].to_canonical();
        proof {
            law_canonical_idempotent(keys@[from as int]);
        }
        assert(rest[0] == k);
        if from + 1 == n {
            self.bind_leaf(k, cmd);
            assert forall|ks: Seq<KeyEvent>| ks.len() > 0 implies #[trigger] self.at(ks)
                == bound_at(old_self, rest, name, ks) by {
                if ks[0] == k {
                    if ks.len() == 1 {
                        assert(ks =~= rest);
                    } else {
                        assert(ks != rest);
                        assert(rest.is_prefix_of(ks));
                    }
                } else {
                    assert(ks != rest);
                }
            }
            return;
        }
        let p = self.find(k);
        let mut sub = KeyTrie::new("user");
        if p < self.bindings.len() {
            let mut b = Binding {
                key: k,
                node: KeyTrieNode::Leaf(KeymapCommand { name: String::new() }),
            };
            proof {
                lemma_slot(self.bindings@, k);
            }
            self.swap_binding(p, &mut b);
            match b.node {
                KeyTrieNode::Node(t) => {
                    sub = t;
                },
                _ => {},
            }
        }
        let ghost sub0 = sub;
        sub.bind_from(keys, from + 1, cmd);
        let ghost tail = canon(keys@.skip(from as int + 1));
        let ghost before = *self;
        let node = KeyTrieNode::Node(sub);
        self.bind(k, node);
        assert forall|ks: Seq<KeyEvent>| ks.len() > 0 implies #[trigger] self.at(ks) == bound_at(
            old_self,
            rest,
            name,
            ks,
        ) by {
            let d = ks.drop_first();
            assert(rest.drop_first() =~= tail);
            if ks[0] == k {
                assert(seq![k] + d =~= ks);
                assert(seq![k] + tail =~= rest);
                if d.len() == 0 {
                    assert(ks != rest && ks.is_prefix_of(rest));
                    assert(!rest.is_prefix_of(ks));
                    lemma_old_interior(old_self, k, ks);
                } else {
                    assert(sub.at(d) == bound_at(sub0, tail, name, d));
                    if d == tail {
                        assert(ks == rest);
                    } else {
                        assert(ks != rest) by {
                            if ks == rest {
                                assert(d =~= tail);
                            }
                        }
                        assert(d.is_prefix_of(tail) == ks.is_prefix_of(rest)) by {
                            if ks.is_prefix_of(rest) {
                                assert(d =~= tail.subrange(0, d.len() as int));
                            }
                            if d.is_prefix_of(tail) {
                                assert(ks =~= rest.subrange(0, ks.len() as int));
                            }
                        }
                        assert(tail.is_prefix_of(d) == rest.is_prefix_of(ks)) by {
                            if rest.is_prefix_of(ks) {
                                assert(tail =~= d.subrange(0, tail.len() as int));
                            }
                            if tail.is_prefix_of(d) {
                                assert(rest =~= ks.subrange(0, rest.len() as int));
                            }
                        }
                        lemma_slot(old_self.bindings@, k);
                        assert(sub0.at(d) == old_self.at(ks) || old_self.at(ks)
                            == Walk::NoMatch);
                    }
                }
            } else {
                assert(ks != rest);
                assert(!ks.is_prefix_of(rest)) by {
                    if ks.is_prefix_of(rest) {
                        assert(ks[0] == rest[0]);
                    }
                }
                assert(!rest.is_prefix_of(ks)) by {
                    if rest.is_prefix_of(ks) {
                        assert(ks[0] == rest[0]);
                    }
                }
                assert(self.at(ks) == before.at(ks));
            }
        }
    }

    /// Exchanges the binding at `p`, whose key stays.
    fn swap_binding(&mut self, p: usize, b: &mut Binding)
        requires
            p < old(self).bindings@.len(),
            old(b).key == old(self).bindings@[p as int].key,
        ensures
            final(self).name == old(self).name,
            *final(b) == old(self).bindings@[p as int],
            final(self).bindings@ == old(self).bindings@.update(p as int, *old(b)),
            forall|ks: Seq<KeyEvent>|
                ks.len() > 0 && ks[0] != old(b).key ==> #[trigger] final(self).at(ks) == old(
                    self,
                ).at(ks),
    {
        let ghost b0 = self.bindings@;
        let slot_ref = &mut self.bindings[p];
        std::mem::swap(slot_ref, b);
        assert(self.bindings@ == b0.update(p as int, *old(b)));
        assert forall|ks: Seq<KeyEvent>| ks.len() > 0 && ks[0] != old(
            b,
        ).key implies #[trigger] self.at(ks) == old(self).at(ks) by {
            lemma_slot(b0, ks[0]);
            let q = slot(b0, ks[0]) as int;
            let b1 = self.bindings@;
            assert forall|i: int| 0 <= i < q implies (#[trigger] b1[i]).key != ks[0] by {
                assert(b0[i].key != ks[0]);
            }
            lemma_slot_unique(b1, ks[0], q);
        }
    }

    /// Removes the binding of a sequence. Inner nodes stay; nothing happens where the
    /// sequence leads nowhere.
    pub fn remove_sequence(&mut self, keys: &Vec<KeyEvent>)
        ensures
            final(self).name == old(self).name,
            forall|ks: Seq<KeyEvent>|
                ks.len() > 0 ==> #[trigger] final(self).at(ks) == (if keys@.len() > 0 && canon(
                    keys@,
                ).is_prefix_of(ks) {
                    Walk::NoMatch
                } else {
                    old(self).at(ks)
                }),
    {
        if keys.len() > 0 {
            self.remove_from(keys, 0);
            assert(keys@.skip(0) =~= keys@);
        }
    }

    fn remove_from(&mut self, keys: &Vec<KeyEvent>, from: usize)
        requires
            from < keys@.len(),
        ensures
            final(self).name == old(self).name,
            forall|ks: Seq<KeyEvent>|
                ks.len() > 0 ==> #[trigger] final(self).at(ks) == (if canon(
                    keys@.skip(from as int),
                ).is_prefix_of(ks) {
                    Walk::NoMatch
                } else {
                    old(self).at(ks)
                }),
        decreases keys@.len() - from,
    {
        let ghost rest = canon(keys@.skip(from as int));
        let ghost old_self = *self;
        let n = keys.len();
        let k = keys[from].to_canonical();
        proof {
            law_canonical_idempotent(keys@[from as int]);
        }
        assert(rest[0] == k);
        if from + 1 == n {
            self.remove_key(k);
            assert forall|ks: Seq<KeyEvent>| ks.len() > 0 implies #[trigger] self.at(ks) == (
            if rest.is_prefix_of(ks) {
                Walk::NoMatch
            } else {
                old_self.at(ks)
            }) by {
                if ks[0] == k {
                    assert(rest =~= ks.subrange(0, 1));
                } else if rest.is_prefix_of(ks) {
                    assert(rest[0] == ks[0]);
                }
            }
            return;
        }
        let p = self.find(k);
        if p < self.bindings.len() {
            let mut b = Binding {
                key: k,
                node: KeyTrieNode::Leaf(KeymapCommand { name: String::new() }),
            };
            proof {
                lemma_slot(self.bindings@, k);
            }
            self.swap_binding(p, &mut b);
            let ghost node0 = b.node;
            let node = match b.node {
                KeyTrieNode::Node(sub) => {
                    let mut sub = sub;
                    sub.remove_from(keys, from + 1);
                    KeyTrieNode::Node(sub)
                },
                other => other,
            };
            let ghost tail = canon(keys@.skip(from as int + 1));
            let ghost before = *self;
            let ghost node1 = node;
            self.bind(k, node);
            assert forall|ks: Seq<KeyEvent>| ks.len() > 0 implies #[trigger] self.at(ks) == (
            if rest.is_prefix_of(ks) {
                Walk::NoMatch
            } else {
                old_self.at(ks)
            }) by {
                let d = ks.drop_first();
                assert(rest.drop_first() =~= tail);
                if ks[0] == k {
                    assert(seq![k] + d =~= ks);
                    assert(seq![k] + tail =~= rest);
                    assert(tail.is_prefix_of(d) == rest.is_prefix_of(ks)) by {
                        if rest.is_prefix_of(ks) {
                            assert(tail =~= d.subrange(0, tail.len() as int));
                        }
                        if tail.is_prefix_of(d) {
                            assert(rest =~= ks.subrange(0, rest.len() as int));
                        }
                    }
                    assert(old_self.at(ks) == node0.follow(d));
                    assert(self.at(ks) == node1.follow(d));
                    if d.len() == 0 {
                        assert(!rest.is_prefix_of(ks));
                    } else if node0 is Node {
                        let s1 = node1->Node_0;
                        assert(s1.at(d) == (if tail.is_prefix_of(d) {
                            Walk::NoMatch
                        } else {
                            node0->Node_0.at(d)
                        }));
                    }
                } else {
                    if rest.is_prefix_of(ks) {
                        assert(rest[0] == ks[0]);
                    }
                    assert(self.at(ks) == before.at(ks));
                }
            }
        } else {
            assert forall|ks: Seq<KeyEvent>| ks.len() > 0 implies #[trigger] self.at(ks) == (
            if rest.is_prefix_of(ks) {
                Walk::NoMatch
            } else {
                old_self.at(ks)
            }) by {
                if rest.is_prefix_of(ks) {
                    assert(rest[0] == ks[0]);
                }
            }
        }
    }

    fn remove_key(&mut self, k: KeyEvent)
        ensures
            final(self).name == old(self).name,
            forall|ks: Seq<KeyEvent>|
                ks.len() > 0 ==> #[trigger] final(self).at(ks) == (if ks[0] == k {
                    Walk::NoMatch
                } else {
                    old(self).at(ks)
                }),
        decreases old(self).bindings@.len(),
    {
        let p = self.find(k);
        proof {
            lemma_slot(self.bindings@, k);
        }
        if p == self.bindings.len() {
            return;
        }
        let ghost b0 = self.bindings@;
        let _ = self.bindings.remove(p);
        let ghost mid = *self;
        assert forall|ks: Seq<KeyEvent>| ks.len() > 0 && ks[0] != k implies #[trigger] mid.at(ks)
            == old(self).at(ks) by {
            let b1 = mid.bindings@;
            assert(b1 =~= b0.remove(p as int));
            lemma_slot(b0, ks[0]);
            let q = slot(b0, ks[0]) as int;
            let q1 = if q > p {
                q - 1
            } else {
                q
            };
            assert forall|i: int| 0 <= i < q1 implies (#[trigger] b1[i]).key != ks[0] by {
                if i < p {
                    assert(b1[i] == b0[i]);
                } else {
                    assert(b1[i] == b0[i + 1]);
                }
            }
            lemma_slot_unique(b1, ks[0], q1);
        }
        self.remove_key(k);
        assert forall|ks: Seq<KeyEvent>| ks.len() > 0 implies #[trigger] self.at(ks) == (if ks[0]
            == k {
            Walk::NoMatch
        } else {
            old(self).at(ks)
        }) by {
            if ks[0] != k {
                assert(self.at(ks) == mid.at(ks));
            }
        }
    }

    /// Follows a sequence of keys.
    pub fn walk(&self, keys: &Vec<KeyEvent>) -> (r: WalkResult)
        requires
            keys@.len() > 0,
        ensures
            r@ == self.at(canon(keys@)),
    {
        let ghost whole = canon(keys@);
        let n = keys.len();
        let mut current = self;
        let mut i: usize = 0;
        assert(whole.skip(0) =~= whole);
        while i < n
            invariant
                i <= n == keys@.len(),
                whole == canon(keys@),
                current.at(whole.skip(i as int)) == self.at(whole),
                i == n ==> false,
            decreases n - i,
        {
            let ghost rest = whole.skip(i as int);
            let key = keys[i].to_canonical();
            assert(rest[0] == key);
            assert(rest.drop_first() =~= whole.skip(i as int + 1));
            let p = current.find(key);
            if p == current.bindings.len() {
                return WalkResult::NoMatch;
            }
            let last = i + 1 == n;
            match &current.bindings[p].node {
                KeyTrieNode::Leaf(cmd) => {
                    if last {
                        return WalkResult::Leaf(cmd.clone());
                    }
                    return WalkResult::NoMatch;
                },
                KeyTrieNode::WaitChar(wc) => {
                    if last {
                        return WalkResult::WaitChar(wc.clone());
                    }
                    return WalkResult::NoMatch;
                },
                KeyTrieNode::Node(sub) => {
                    if last {
                        return WalkResult::Interior { name: sub.name };
                    }
                    current = sub;
                },
            }
            i = i + 1;
        }
        WalkResult::NoMatch
    }
}

/// Where `ks` leads once `keys` is bound to `name` in `old_trie`.
pub open spec fn bound_at(
    old_trie: KeyTrie,
    keys: Seq<KeyEvent>,
    name: Seq<char>,
    ks: Seq<KeyEvent>,
) -> Walk {
    if ks == keys {
        Walk::Leaf(name)
    } else if ks.is_prefix_of(keys) {
        match old_trie.at(ks) {
            Walk::Interior(n) => Walk::Interior(n),
            _ => Walk::Interior("user"@),
        }
    } else if keys.is_prefix_of(ks) {
        Walk::NoMatch
    } else {
        old_trie.at(ks)
    }
}

proof fn lemma_old_interior(t: KeyTrie, k: KeyEvent, ks: Seq<KeyEvent>)
    requires
        ks.len() == 1,
        ks[0] == k,
    ensures
        ({
            let p = slot(t.bindings@, k);
            match t.at(ks) {
                Walk::Interior(n) => p < t.bindings@.len() && t.bindings@[p as int].node is Node
                    && t.bindings@[p as int].node->Node_0.name@ == n,
                _ => p >= t.bindings@.len() || !(t.bindings@[p as int].node is Node),
            }
        }),
{
    assert(ks.drop_first() =~= Seq::<KeyEvent>::empty());
}

/// Which keymap a binding belongs to.
#[derive(Debug, Clone, Copy, PartialEq, Eq, Structural)]
pub enum BindMode {
    Normal,
    /// Overrides in extend mode; keys without one go to the normal keymap.
    Extend,
    Insert,
}

/// Which keys of a layer lead where: `b` is what the first key is bound to, `below` where
/// the keys lead without the layer.
pub open spec fn layered(b: Option<Walk>, ks: Seq<KeyEvent>, below: Walk) -> Walk {
    match b {
        Some(w) => if ks.len() == 1 {
            w
        } else {
            Walk::NoMatch
        },
        None => below,
    }
}

fn wait_char(name: &str) -> (r: KeyTrieNode)
    ensures
        forall|rest: Seq<KeyEvent>| #[trigger]
            r.follow(rest) == (if rest.len() == 0 {
                Walk::WaitChar(name@, false)
            } else {
                Walk::NoMatch
            }),
{
    KeyTrieNode::WaitChar(WaitCharPending { cmd_name: name.to_owned(), ctrl_extend: false })
}

/// Basic motion.
pub open spec fn motion_binding(k: KeyEvent) -> Option<Walk> {
    if k == named(KeyCode::Up) || k == ch('k') {
        Some(Walk::Leaf("move-up"@))
    } else if k == named(KeyCode::Down) || k == ch('j') {
        Some(Walk::Leaf("move-down"@))
    } else if k == named(KeyCode::Right) || k == ch('l') {
        Some(Walk::Leaf("move-right"@))
    } else if k == named(KeyCode::Left) || k == ch('h') {
        Some(Walk::Leaf("move-left"@))
    } else {
        None
    }
}

fn bind_motion(t: &mut KeyTrie)
    ensures
        final(t).name == old(t).name,
        forall|ks: Seq<KeyEvent>|
            ks.len() > 0 ==> #[trigger] final(t).at(ks) == layered(
                motion_binding(ks[0]),
                ks,
                old(t).at(ks),
            ),
{
    t.bind_leaf(char_key('h'), KeymapCommand::new("move-left"));
    t.bind_leaf(named_key(KeyCode::Left), KeymapCommand::new("move-left"));
    t.bind_leaf(char_key('l'), KeymapCommand::new("move-right"));
    t.bind_leaf(named_key(KeyCode::Right), KeymapCommand::new("move-right"));
    t.bind_leaf(char_key('j'), KeymapCommand::new("move-down"));
    t.bind_leaf(named_key(KeyCode::Down), KeymapCommand::new("move-down"));
    t.bind_leaf(char_key('k'), KeymapCommand::new("move-up"));
    t.bind_leaf(named_key(KeyCode::Up), KeymapCommand::new("move-up"));
}

/// Motion by words.
pub open spec fn word_binding(k: KeyEvent) -> Option<Walk> {
    if k == ch('B') {
        Some(Walk::Leaf("select-prev-WORD"@))
    } else if k == ch('b') {
        Some(Walk::Leaf("select-prev-word"@))
    } else if k == ch('W') {
        Some(Walk::Leaf("select-next-WORD"@))
    } else if k == ch('w') {
        Some(Walk::Leaf("select-next-word"@))
    } else {
        None
    }
}

fn bind_word(t: &mut KeyTrie)
    ensures
        final(t).name == old(t).name,
        forall|ks: Seq<KeyEvent>|
            ks.len() > 0 ==> #[trigger] final(t).at(ks) == layered(
                word_binding(ks[0]),
                ks,
                old(t).at(ks),
            ),
{
    t.bind_leaf(char_key('w'), KeymapCommand::new("select-next-word"));
    t.bind_leaf(char_key('W'), KeymapCommand::new("select-next-WORD"));
    t.bind_leaf(char_key('b'), KeymapCommand::new("select-prev-word"));
    t.bind_leaf(char_key('B'), KeymapCommand::new("select-prev-WORD"));
}

/// Line ends, paragraphs, and lines as a whole. With control, whole lines are added to the selection.
pub open spec fn line_binding(k: KeyEvent) -> Option<Walk> {
    if k == ctrl('X') {
        Some(Walk::Leaf("extend-select-line-backward"@))
    } else if k == ctrl('x') {
        Some(Walk::Leaf("extend-select-line"@))
    } else if k == ch('X') {
        Some(Walk::Leaf("select-line-backward"@))
    } else if k == ch('x') {
        Some(Walk::Leaf("select-line"@))
    } else if k == ch('}') {
        Some(Walk::Leaf("next-paragraph"@))
    } else if k == ch('{') {
        Some(Walk::Leaf("prev-paragraph"@))
    } else if k == ch('^') {
        Some(Walk::Leaf("goto-first-nonblank"@))
    } else if k == named(KeyCode::End) || k == ch('$') {
        Some(Walk::Leaf("goto-line-end"@))
    } else if k == named(KeyCode::Home) || k == ch('0') {
        Some(Walk::Leaf("goto-line-start"@))
    } else {
        None
    }
}

fn bind_line(t: &mut KeyTrie)
    ensures
        final(t).name == old(t).name,
        forall|ks: Seq<KeyEvent>|
            ks.len() > 0 ==> #[trigger] final(t).at(ks) == layered(
                line_binding(ks[0]),
                ks,
                old(t).at(ks),
            ),
{
    t.bind_leaf(char_key('0'), KeymapCommand::new("goto-line-start"));
    t.bind_leaf(named_key(KeyCode::Home), KeymapCommand::new("goto-line-start"));
    t.bind_leaf(char_key('$'), KeymapCommand::new("goto-line-end"));
    t.bind_leaf(named_key(KeyCode::End), KeymapCommand::new("goto-line-end"));
    t.bind_leaf(char_key('^'), KeymapCommand::new("goto-first-nonblank"));
    t.bind_leaf(char_key('{'), KeymapCommand::new("prev-paragraph"));
    t.bind_leaf(char_key('}'), KeymapCommand::new("next-paragraph"));
    t.bind_leaf(char_key('x'), KeymapCommand::new("select-line"));
    t.bind_leaf(char_key('X'), KeymapCommand::new("select-line-backward"));
    t.bind_leaf(ctrl_key('x'), KeymapCommand::new("extend-select-line"));
    t.bind_leaf(ctrl_key('X'), KeymapCommand::new("extend-select-line-backward"));
}

/// Scrolling by pages, and the jump list. Some terminals report control-i as the tab key, so both are bound.
pub open spec fn page_binding(k: KeyEvent) -> Option<Walk> {
    if k == named(KeyCode::Tab) || k == ctrl('i') {
        Some(Walk::Leaf("jump-forward"@))
    } else if k == ctrl('o') {
        Some(Walk::Leaf("jump-backward"@))
    } else if k == ctrl('u') {
        Some(Walk::Leaf("half-page-up"@))
    } else if k == ctrl('d') {
        Some(Walk::Leaf("half-page-down"@))
    } else if k == named(KeyCode::PageUp) {
        Some(Walk::Leaf("page-up"@))
    } else if k == named(KeyCode::PageDown) {
        Some(Walk::Leaf("page-down"@))
    } else {
        None
    }
}

fn bind_page(t: &mut KeyTrie)
    ensures
        final(t).name == old(t).name,
        forall|ks: Seq<KeyEvent>|
            ks.len() > 0 ==> #[trigger] final(t).at(ks) == layered(
                page_binding(ks[0]),
                ks,
                old(t).at(ks),
            ),
{
    t.bind_leaf(named_key(KeyCode::PageDown), KeymapCommand::new("page-down"));
    t.bind_leaf(named_key(KeyCode::PageUp), KeymapCommand::new("page-up"));
    t.bind_leaf(ctrl_key('d'), KeymapCommand::new("half-page-down"));
    t.bind_leaf(ctrl_key('u'), KeymapCommand::new("half-page-up"));
    t.bind_leaf(ctrl_key('o'), KeymapCommand::new("jump-backward"));
    t.bind_leaf(ctrl_key('i'), KeymapCommand::new("jump-forward"));
    t.bind_leaf(named_key(KeyCode::Tab), KeymapCommand::new("jump-forward"));
}

/// Selections.
pub open spec fn selection_binding(k: KeyEvent) -> Option<Walk> {
    if k == ch('e') {
        Some(Walk::Leaf("toggle-extend"@))
    } else if k == ch('_') {
        Some(Walk::Leaf("trim-selection-whitespace"@))
    } else if k == ch('C') {
        Some(Walk::Leaf("copy-selection-on-next-line"@))
    } else if k == ch(')') {
        Some(Walk::Leaf("cycle-primary-forward"@))
    } else if k == ch('(') {
        Some(Walk::Leaf("cycle-primary-backward"@))
    } else if k == ch('S') {
        Some(Walk::Leaf("split-selection-on-newlines"@))
    } else if k == ctrl(',') {
        Some(Walk::Leaf("remove-primary-selection"@))
    } else if k == ch(',') {
        Some(Walk::Leaf("keep-primary-selection"@))
    } else if k == ch(';') {
        Some(Walk::Leaf("collapse-and-exit-extend"@))
    } else if k == ch('%') {
        Some(Walk::Leaf("select-all"@))
    } else {
        None
    }
}

fn bind_selection(t: &mut KeyTrie)
    ensures
        final(t).name == old(t).name,
        forall|ks: Seq<KeyEvent>|
            ks.len() > 0 ==> #[trigger] final(t).at(ks) == layered(
                selection_binding(ks[0]),
                ks,
                old(t).at(ks),
            ),
{
    t.bind_leaf(char_key('%'), KeymapCommand::new("select-all"));
    t.bind_leaf(char_key(';'), KeymapCommand::new("collapse-and-exit-extend"));
    t.bind_leaf(char_key(','), KeymapCommand::new("keep-primary-selection"));
    t.bind_leaf(ctrl_key(','), KeymapCommand::new("remove-primary-selection"));
    t.bind_leaf(char_key('S'), KeymapCommand::new("split-selection-on-newlines"));
    t.bind_leaf(char_key('('), KeymapCommand::new("cycle-primary-backward"));
    t.bind_leaf(char_key(')'), KeymapCommand::new("cycle-primary-forward"));
    t.bind_leaf(char_key('C'), KeymapCommand::new("copy-selection-on-next-line"));
    t.bind_leaf(char_key('_'), KeymapCommand::new("trim-selection-whitespace"));
    t.bind_leaf(char_key('e'), KeymapCommand::new("toggle-extend"));
}

/// Editing.
pub open spec fn edit_binding(k: KeyEvent) -> Option<Walk> {
    if k == ctrl('r') {
        Some(Walk::Leaf("redo"@))
    } else if k == ch('r') {
        Some(Walk::WaitChar("replace"@, false))
    } else if k == ch('U') {
        Some(Walk::Leaf("redo"@))
    } else if k == ch('u') {
        Some(Walk::Leaf("undo"@))
    } else if k == ch('P') {
        Some(Walk::Leaf("paste-before"@))
    } else if k == ch('p') {
        Some(Walk::Leaf("paste-after"@))
    } else if k == ch('y') {
        Some(Walk::Leaf("yank"@))
    } else if k == ch('c') {
        Some(Walk::Leaf("change"@))
    } else if k == ch('d') {
        Some(Walk::Leaf("delete"@))
    } else {
        None
    }
}

fn bind_edit(t: &mut KeyTrie)
    ensures
        final(t).name == old(t).name,
        forall|ks: Seq<KeyEvent>|
            ks.len() > 0 ==> #[trigger] final(t).at(ks) == layered(
                edit_binding(ks[0]),
                ks,
                old(t).at(ks),
            ),
{
    t.bind_leaf(char_key('d'), KeymapCommand::new("delete"));
    t.bind_leaf(char_key('c'), KeymapCommand::new("change"));
    t.bind_leaf(char_key('y'), KeymapCommand::new("yank"));
    t.bind_leaf(char_key('p'), KeymapCommand::new("paste-after"));
    t.bind_leaf(char_key('P'), KeymapCommand::new("paste-before"));
    t.bind_leaf(char_key('u'), KeymapCommand::new("undo"));
    t.bind_leaf(char_key('U'), KeymapCommand::new("redo"));
    t.bind(char_key('r'), wait_char("replace"));
    t.bind_leaf(ctrl_key('r'), KeymapCommand::new("redo"));
}

/// Finding a character, and repeating the last find or edit.
pub open spec fn find_binding(k: KeyEvent) -> Option<Walk> {
    if k == ch('.') {
        Some(Walk::Leaf("repeat-last-action"@))
    } else if k == ch('-') {
        Some(Walk::Leaf("repeat-find-backward"@))
    } else if k == ch('=') {
        Some(Walk::Leaf("repeat-find-forward"@))
    } else if k == ch('T') {
        Some(Walk::WaitChar("till-backward"@, false))
    } else if k == ch('t') {
        Some(Walk::WaitChar("till-forward"@, false))
    } else if k == ch('F') {
        Some(Walk::WaitChar("find-backward"@, false))
    } else if k == ch('f') {
        Some(Walk::WaitChar("find-forward"@, false))
    } else {
        None
    }
}

fn bind_find(t: &mut KeyTrie)
    ensures
        final(t).name == old(t).name,
        forall|ks: Seq<KeyEvent>|
            ks.len() > 0 ==> #[trigger] final(t).at(ks) == layered(
                find_binding(ks[0]),
                ks,
                old(t).at(ks),
            ),
{
    t.bind(char_key('f'), wait_char("find-forward"));
    t.bind(char_key('F'), wait_char("find-backward"));
    t.bind(char_key('t'), wait_char("till-forward"));
    t.bind(char_key('T'), wait_char("till-backward"));
    t.bind_leaf(char_key('='), KeymapCommand::new("repeat-find-forward"));
    t.bind_leaf(char_key('-'), KeymapCommand::new("repeat-find-backward"));
    t.bind_leaf(char_key('.'), KeymapCommand::new("repeat-last-action"));
}

/// Searching.
pub open spec fn search_binding(k: KeyEvent) -> Option<Walk> {
    if k == ch('*') {
        Some(Walk::Leaf("use-selection-as-search"@))
    } else if k == ch('s') {
        Some(Walk::Leaf("select-within"@))
    } else if k == ch('N') {
        Some(Walk::Leaf("search-prev"@))
    } else if k == ch('n') {
        Some(Walk::Leaf("search-next"@))
    } else if k == ch('?') {
        Some(Walk::Leaf("search-backward"@))
    } else if k == ch('/') {
        Some(Walk::Leaf("search-forward"@))
    } else {
        None
    }
}

fn bind_search(t: &mut KeyTrie)
    ensures
        final(t).name == old(t).name,
        forall|ks: Seq<KeyEvent>|
            ks.len() > 0 ==> #[trigger] final(t).at(ks) == layered(
                search_binding(ks[0]),
                ks,
                old(t).at(ks),
            ),
{
    t.bind_leaf(char_key('/'), KeymapCommand::new("search-forward"));
    t.bind_leaf(char_key('?'), KeymapCommand::new("search-backward"));
    t.bind_leaf(char_key('n'), KeymapCommand::new("search-next"));
    t.bind_leaf(char_key('N'), KeymapCommand::new("search-prev"));
    t.bind_leaf(char_key('s'), KeymapCommand::new("select-within"));
    t.bind_leaf(char_key('*'), KeymapCommand::new("use-selection-as-search"));
}

/// Mode changes.
pub open spec fn mode_binding(k: KeyEvent) -> Option<Walk> {
    if k == ctrl('c') {
        Some(Walk::Leaf("force-quit"@))
    } else if k == ch('O') {
        Some(Walk::Leaf("open-line-above"@))
    } else if k == ch('o') {
        Some(Walk::Leaf("open-line-below"@))
    } else if k == ch('A') {
        Some(Walk::Leaf("insert-at-line-end"@))
    } else if k == ch('I') {
        Some(Walk::Leaf("insert-at-line-start"@))
    } else if k == ch('a') {
        Some(Walk::Leaf("insert-after"@))
    } else if k == ch('i') {
        Some(Walk::Leaf("insert-before"@))
    } else if k == ch(':') {
        Some(Walk::Leaf("command-mode"@))
    } else {
        None
    }
}

fn bind_mode(t: &mut KeyTrie)
    ensures
        final(t).name == old(t).name,
        forall|ks: Seq<KeyEvent>|
            ks.len() > 0 ==> #[trigger] final(t).at(ks) == layered(
                mode_binding(ks[0]),
                ks,
                old(t).at(ks),
            ),
{
    t.bind_leaf(char_key(':'), KeymapCommand::new("command-mode"));
    t.bind_leaf(char_key('i'), KeymapCommand::new("insert-before"));
    t.bind_leaf(char_key('a'), KeymapCommand::new("insert-after"));
    t.bind_leaf(char_key('I'), KeymapCommand::new("insert-at-line-start"));
    t.bind_leaf(char_key('A'), KeymapCommand::new("insert-at-line-end"));
    t.bind_leaf(char_key('o'), KeymapCommand::new("open-line-below"));
    t.bind_leaf(char_key('O'), KeymapCommand::new("open-line-above"));
    t.bind_leaf(ctrl_key('c'), KeymapCommand::new("force-quit"));
}

/// What `g` leads to.
pub open spec fn goto_binding(k: KeyEvent) -> Option<Walk> {
    if k == ch('s') {
        Some(Walk::Leaf("goto-first-nonblank"@))
    } else if k == ch('l') {
        Some(Walk::Leaf("goto-line-end"@))
    } else if k == ch('h') {
        Some(Walk::Leaf("goto-line-start"@))
    } else if k == ch('e') {
        Some(Walk::Leaf("goto-last-line"@))
    } else if k == ch('g') {
        Some(Walk::Leaf("goto-first-line"@))
    } else {
        None
    }
}

fn bind_goto(t: &mut KeyTrie)
    ensures
        final(t).name == old(t).name,
        forall|ks: Seq<KeyEvent>|
            ks.len() > 0 ==> #[trigger] final(t).at(ks) == layered(
                goto_binding(ks[0]),
                ks,
                old(t).at(ks),
            ),
{
    t.bind_leaf(char_key('g'), KeymapCommand::new("goto-first-line"));
    t.bind_leaf(char_key('e'), KeymapCommand::new("goto-last-line"));
    t.bind_leaf(char_key('h'), KeymapCommand::new("goto-line-start"));
    t.bind_leaf(char_key('l'), KeymapCommand::new("goto-line-end"));
    t.bind_leaf(char_key('s'), KeymapCommand::new("goto-first-nonblank"));
}

/// What `mi` leads to: the inside of an object.
pub open spec fn inner_binding(k: KeyEvent) -> Option<Walk> {
    if k == ch('l') {
        Some(Walk::Leaf("inner-line"@))
    } else if k == ch('a') {
        Some(Walk::Leaf("inner-argument"@))
    } else if k == ch('`') {
        Some(Walk::Leaf("inner-backtick"@))
    } else if k == ch('\'') {
        Some(Walk::Leaf("inner-single-quote"@))
    } else if k == ch('"') {
        Some(Walk::Leaf("inner-double-quote"@))
    } else if k == ch('>') || k == ch('<') {
        Some(Walk::Leaf("inner-angle"@))
    } else if k == ch('}') || k == ch('{') {
        Some(Walk::Leaf("inner-brace"@))
    } else if k == ch(']') || k == ch('[') {
        Some(Walk::Leaf("inner-bracket"@))
    } else if k == ch(')') || k == ch('(') {
        Some(Walk::Leaf("inner-paren"@))
    } else if k == ch('W') {
        Some(Walk::Leaf("inner-WORD"@))
    } else if k == ch('w') {
        Some(Walk::Leaf("inner-word"@))
    } else {
        None
    }
}

fn bind_inner(t: &mut KeyTrie)
    ensures
        final(t).name == old(t).name,
        forall|ks: Seq<KeyEvent>|
            ks.len() > 0 ==> #[trigger] final(t).at(ks) == layered(
                inner_binding(ks[0]),
                ks,
                old(t).at(ks),
            ),
{
    t.bind_leaf(char_key('w'), KeymapCommand::new("inner-word"));
    t.bind_leaf(char_key('W'), KeymapCommand::new("inner-WORD"));
    t.bind_leaf(char_key('('), KeymapCommand::new("inner-paren"));
    t.bind_leaf(char_key(')'), KeymapCommand::new("inner-paren"));
    t.bind_leaf(char_key('['), KeymapCommand::new("inner-bracket"));
    t.bind_leaf(char_key(']'), KeymapCommand::new("inner-bracket"));
    t.bind_leaf(char_key('{'), KeymapCommand::new("inner-brace"));
    t.bind_leaf(char_key('}'), KeymapCommand::new("inner-brace"));
    t.bind_leaf(char_key('<'), KeymapCommand::new("inner-angle"));
    t.bind_leaf(char_key('>'), KeymapCommand::new("inner-angle"));
    t.bind_leaf(char_key('"'), KeymapCommand::new("inner-double-quote"));
    t.bind_leaf(char_key('\''), KeymapCommand::new("inner-single-quote"));
    t.bind_leaf(char_key('`'), KeymapCommand::new("inner-backtick"));
    t.bind_leaf(char_key('a'), KeymapCommand::new("inner-argument"));
    t.bind_leaf(char_key('l'), KeymapCommand::new("inner-line"));
}

/// What `ma` leads to: an object with what delimits it.
pub open spec fn around_binding(k: KeyEvent) -> Option<Walk> {
    if k == ch('l') {
        Some(Walk::Leaf("around-line"@))
    } else if k == ch('a') {
        Some(Walk::Leaf("around-argument"@))
    } else if k == ch('`') {
        Some(Walk::Leaf("around-backtick"@))
    } else if k == ch('\'') {
        Some(Walk::Leaf("around-single-quote"@))
    } else if k == ch('"') {
        Some(Walk::Leaf("around-double-quote"@))
    } else if k == ch('>') || k == ch('<') {
        Some(Walk::Leaf("around-angle"@))
    } else if k == ch('}') || k == ch('{') {
        Some(Walk::Leaf("around-brace"@))
    } else if k == ch(']') || k == ch('[') {
        Some(Walk::Leaf("around-bracket"@))
    } else if k == ch(')') || k == ch('(') {
        Some(Walk::Leaf("around-paren"@))
    } else if k == ch('W') {
        Some(Walk::Leaf("around-WORD"@))
    } else if k == ch('w') {
        Some(Walk::Leaf("around-word"@))
    } else {
        None
    }
}

fn bind_around(t: &mut KeyTrie)
    ensures
        final(t).name == old(t).name,
        forall|ks: Seq<KeyEvent>|
            ks.len() > 0 ==> #[trigger] final(t).at(ks) == layered(
                around_binding(ks[0]),
                ks,
                old(t).at(ks),
            ),
{
    t.bind_leaf(char_key('w'), KeymapCommand::new("around-word"));
    t.bind_leaf(char_key('W'), KeymapCommand::new("around-WORD"));
    t.bind_leaf(char_key('('), KeymapCommand::new("around-paren"));
    t.bind_leaf(char_key(')'), KeymapCommand::new("around-paren"));
    t.bind_leaf(char_key('['), KeymapCommand::new("around-bracket"));
    t.bind_leaf(char_key(']'), KeymapCommand::new("around-bracket"));
    t.bind_leaf(char_key('{'), KeymapCommand::new("around-brace"));
    t.bind_leaf(char_key('}'), KeymapCommand::new("around-brace"));
    t.bind_leaf(char_key('<'), KeymapCommand::new("around-angle"));
    t.bind_leaf(char_key('>'), KeymapCommand::new("around-angle"));
    t.bind_leaf(char_key('"'), KeymapCommand::new("around-double-quote"));
    t.bind_leaf(char_key('\''), KeymapCommand::new("around-single-quote"));
    t.bind_leaf(char_key('`'), KeymapCommand::new("around-backtick"));
    t.bind_leaf(char_key('a'), KeymapCommand::new("around-argument"));
    t.bind_leaf(char_key('l'), KeymapCommand::new("around-line"));
}

/// What `ms` leads to: the two delimiters around.
pub open spec fn surround_binding(k: KeyEvent) -> Option<Walk> {
    if k == ch('`') {
        Some(Walk::Leaf("surround-backtick"@))
    } else if k == ch('\'') {
        Some(Walk::Leaf("surround-single-quote"@))
    } else if k == ch('"') {
        Some(Walk::Leaf("surround-double-quote"@))
    } else if k == ch('>') || k == ch('<') {
        Some(Walk::Leaf("surround-angle"@))
    } else if k == ch('}') || k == ch('{') {
        Some(Walk::Leaf("surround-brace"@))
    } else if k == ch(']') || k == ch('[') {
        Some(Walk::Leaf("surround-bracket"@))
    } else if k == ch(')') || k == ch('(') {
        Some(Walk::Leaf("surround-paren"@))
    } else {
        None
    }
}

fn bind_surround(t: &mut KeyTrie)
    ensures
        final(t).name == old(t).name,
        forall|ks: Seq<KeyEvent>|
            ks.len() > 0 ==> #[trigger] final(t).at(ks) == layered(
                surround_binding(ks[0]),
                ks,
                old(t).at(ks),
            ),
{
    t.bind_leaf(char_key('('), KeymapCommand::new("surround-paren"));
    t.bind_leaf(char_key(')'), KeymapCommand::new("surround-paren"));
    t.bind_leaf(char_key('['), KeymapCommand::new("surround-bracket"));
    t.bind_leaf(char_key(']'), KeymapCommand::new("surround-bracket"));
    t.bind_leaf(char_key('{'), KeymapCommand::new("surround-brace"));
    t.bind_leaf(char_key('}'), KeymapCommand::new("surround-brace"));
    t.bind_leaf(char_key('<'), KeymapCommand::new("surround-angle"));
    t.bind_leaf(char_key('>'), KeymapCommand::new("surround-angle"));
    t.bind_leaf(char_key('"'), KeymapCommand::new("surround-double-quote"));
    t.bind_leaf(char_key('\''), KeymapCommand::new("surround-single-quote"));
    t.bind_leaf(char_key('`'), KeymapCommand::new("surround-backtick"));
}

/// The overrides of extend mode.
pub open spec fn extend_binding(k: KeyEvent) -> Option<Walk> {
    if k == ch('o') {
        Some(Walk::Leaf("flip-selections"@))
    } else {
        None
    }
}

fn bind_extend(t: &mut KeyTrie)
    ensures
        final(t).name == old(t).name,
        forall|ks: Seq<KeyEvent>|
            ks.len() > 0 ==> #[trigger] final(t).at(ks) == layered(
                extend_binding(ks[0]),
                ks,
                old(t).at(ks),
            ),
{
    t.bind_leaf(char_key('o'), KeymapCommand::new("flip-selections"));
}

/// The insert-mode keymap.
pub open spec fn insert_binding(k: KeyEvent) -> Option<Walk> {
    if k == named(KeyCode::End) {
        Some(Walk::Leaf("goto-line-end"@))
    } else if k == named(KeyCode::Home) {
        Some(Walk::Leaf("goto-line-start"@))
    } else if k == named(KeyCode::Up) {
        Some(Walk::Leaf("move-up"@))
    } else if k == named(KeyCode::Down) {
        Some(Walk::Leaf("move-down"@))
    } else if k == named(KeyCode::Right) {
        Some(Walk::Leaf("move-right"@))
    } else if k == named(KeyCode::Left) {
        Some(Walk::Leaf("move-left"@))
    } else if k == ctrl('c') || k == named(KeyCode::Esc) {
        Some(Walk::Leaf("exit-insert"@))
    } else {
        None
    }
}

fn bind_insert(t: &mut KeyTrie)
    ensures
        final(t).name == old(t).name,
        forall|ks: Seq<KeyEvent>|
            ks.len() > 0 ==> #[trigger] final(t).at(ks) == layered(
                insert_binding(ks[0]),
                ks,
                old(t).at(ks),
            ),
{
    t.bind_leaf(named_key(KeyCode::Esc), KeymapCommand::new("exit-insert"));
    t.bind_leaf(ctrl_key('c'), KeymapCommand::new("exit-insert"));
    t.bind_leaf(named_key(KeyCode::Left), KeymapCommand::new("move-left"));
    t.bind_leaf(named_key(KeyCode::Right), KeymapCommand::new("move-right"));
    t.bind_leaf(named_key(KeyCode::Down), KeymapCommand::new("move-down"));
    t.bind_leaf(named_key(KeyCode::Up), KeymapCommand::new("move-up"));
    t.bind_leaf(named_key(KeyCode::Home), KeymapCommand::new("goto-line-start"));
    t.bind_leaf(named_key(KeyCode::End), KeymapCommand::new("goto-line-end"));
}

/// The keys behind `g`.
fn build_goto_trie() -> (t: KeyTrie)
    ensures
        t.name@ == "goto"@,
        forall|ks: Seq<KeyEvent>|
            ks.len() > 0 ==> #[trigger] t.at(ks) == layered(goto_binding(ks[0]), ks, Walk::NoMatch),
{
    let mut t = KeyTrie::new("goto");
    bind_goto(&mut t);
    t
}

/// The keys behind `mi`.
fn build_inner_trie() -> (t: KeyTrie)
    ensures
        t.name@ == "inner"@,
        forall|ks: Seq<KeyEvent>|
            ks.len() > 0 ==> #[trigger] t.at(ks) == layered(inner_binding(ks[0]), ks, Walk::NoMatch),
{
    let mut t = KeyTrie::new("inner");
    bind_inner(&mut t);
    t
}

/// The keys behind `ma`.
fn build_around_trie() -> (t: KeyTrie)
    ensures
        t.name@ == "around"@,
        forall|ks: Seq<KeyEvent>|
            ks.len() > 0 ==> #[trigger] t.at(ks) == layered(around_binding(ks[0]), ks, Walk::NoMatch),
{
    let mut t = KeyTrie::new("around");
    bind_around(&mut t);
    t
}

/// The keys behind `ms`.
fn build_surround_trie() -> (t: KeyTrie)
    ensures
        t.name@ == "surround"@,
        forall|ks: Seq<KeyEvent>|
            ks.len() > 0 ==> #[trigger] t.at(ks) == layered(surround_binding(ks[0]), ks, Walk::NoMatch),
{
    let mut t = KeyTrie::new("surround");
    bind_surround(&mut t);
    t
}

/// Where the keys behind `m` lead.
pub open spec fn match_at(ks: Seq<KeyEvent>) -> Walk {
    if ks[0] == ch('/') {
        if ks.len() == 1 {
            Walk::Leaf("select-all-matches"@)
        } else {
            Walk::NoMatch
        }
    } else if ks[0] == ch('s') {
        sub_at("surround"@, ks, layered(surround_binding(ks[1]), ks.drop_first(), Walk::NoMatch))
    } else if ks[0] == ch('a') {
        sub_at("around"@, ks, layered(around_binding(ks[1]), ks.drop_first(), Walk::NoMatch))
    } else if ks[0] == ch('i') {
        sub_at("inner"@, ks, layered(inner_binding(ks[1]), ks.drop_first(), Walk::NoMatch))
    } else {
        Walk::NoMatch
    }
}

/// The node `name` after the first of `ks`, and `behind` after more of them.
pub open spec fn sub_at(name: Seq<char>, ks: Seq<KeyEvent>, behind: Walk) -> Walk {
    if ks.len() == 1 {
        Walk::Interior(name)
    } else {
        behind
    }
}

/// The text objects, delimiters and matches behind `m`.
fn build_text_object_trie() -> (t: KeyTrie)
    ensures
        t.name@ == "match"@,
        forall|ks: Seq<KeyEvent>| ks.len() > 0 ==> #[trigger] t.at(ks) == match_at(ks),
{
    let inner = build_inner_trie();
    let around = build_around_trie();
    let surround = build_surround_trie();
    let mut t = KeyTrie::new("match");
    t.bind(char_key('i'), KeyTrieNode::Node(inner));
    t.bind(char_key('a'), KeyTrieNode::Node(around));
    t.bind(char_key('s'), KeyTrieNode::Node(surround));
    t.bind_leaf(char_key('/'), KeymapCommand::new("select-all-matches"));
    assert forall|ks: Seq<KeyEvent>| ks.len() > 0 implies #[trigger] t.at(ks) == match_at(ks) by {
        let d = ks.drop_first();
        if d.len() > 0 {
            assert(d[0] == ks[1]);
            assert(inner.at(d) == layered(inner_binding(d[0]), d, Walk::NoMatch));
            assert(around.at(d) == layered(around_binding(d[0]), d, Walk::NoMatch));
            assert(surround.at(d) == layered(surround_binding(d[0]), d, Walk::NoMatch));
        }
    }
    t
}

/// Where a sequence of keys leads in the normal-mode keymap.
pub open spec fn normal_at(ks: Seq<KeyEvent>) -> Walk {
    let k = ks[0];
    if mode_binding(k) is Some {
        layered(mode_binding(k), ks, Walk::NoMatch)
    } else if k == ch('m') {
        sub_at("match"@, ks, match_at(ks.drop_first()))
    } else if k == ch('g') {
        sub_at("goto"@, ks, layered(goto_binding(ks[1]), ks.drop_first(), Walk::NoMatch))
    } else if search_binding(k) is Some {
        layered(search_binding(k), ks, Walk::NoMatch)
    } else if find_binding(k) is Some {
        layered(find_binding(k), ks, Walk::NoMatch)
    } else if edit_binding(k) is Some {
        layered(edit_binding(k), ks, Walk::NoMatch)
    } else if selection_binding(k) is Some {
        layered(selection_binding(k), ks, Walk::NoMatch)
    } else if page_binding(k) is Some {
        layered(page_binding(k), ks, Walk::NoMatch)
    } else if line_binding(k) is Some {
        layered(line_binding(k), ks, Walk::NoMatch)
    } else if word_binding(k) is Some {
        layered(word_binding(k), ks, Walk::NoMatch)
    } else if motion_binding(k) is Some {
        layered(motion_binding(k), ks, Walk::NoMatch)
    } else {
        Walk::NoMatch
    }
}

/// The keymap of normal mode.
pub fn default_normal_keymap() -> (t: KeyTrie)
    ensures
        t.name@ == "normal"@,
        forall|ks: Seq<KeyEvent>| ks.len() > 0 ==> #[trigger] t.at(ks) == normal_at(ks),
{
    let mut t = KeyTrie::new("normal");
    bind_motion(&mut t);
    bind_word(&mut t);
    bind_line(&mut t);
    bind_page(&mut t);
    bind_selection(&mut t);
    bind_edit(&mut t);
    bind_find(&mut t);
    bind_search(&mut t);
    let goto = build_goto_trie();
    let objects = build_text_object_trie();
    t.bind(char_key('g'), KeyTrieNode::Node(goto));
    t.bind(char_key('m'), KeyTrieNode::Node(objects));
    bind_mode(&mut t);
    assert forall|ks: Seq<KeyEvent>| ks.len() > 0 implies #[trigger] t.at(ks) == normal_at(ks) by {
        let d = ks.drop_first();
        if d.len() > 0 {
            assert(d[0] == ks[1]);
            assert(goto.at(d) == layered(goto_binding(d[0]), d, Walk::NoMatch));
            assert(objects.at(d) == match_at(d));
        }
    }
    t
}

/// The overrides of extend mode.
pub fn default_extend_keymap() -> (t: KeyTrie)
    ensures
        t.name@ == "extend"@,
        forall|ks: Seq<KeyEvent>|
            ks.len() > 0 ==> #[trigger] t.at(ks) == layered(extend_binding(ks[0]), ks, Walk::NoMatch),
{
    let mut t = KeyTrie::new("extend");
    bind_extend(&mut t);
    t
}

/// The keymap of insert mode. Other keys insert themselves.
pub fn default_insert_keymap() -> (t: KeyTrie)
    ensures
        t.name@ == "insert"@,
        forall|ks: Seq<KeyEvent>|
            ks.len() > 0 ==> #[trigger] t.at(ks) == layered(insert_binding(ks[0]), ks, Walk::NoMatch),
{
    let mut t = KeyTrie::new("insert");
    bind_insert(&mut t);
    t
}

/// The keymaps of all modes.
pub struct Keymap {
    pub normal: KeyTrie,
    /// Looked at first in extend mode.
    pub extend: KeyTrie,
    pub insert: KeyTrie,
}

impl Default for Keymap {
    fn default() -> (r: Keymap)
        ensures
            forall|ks: Seq<KeyEvent>| ks.len() > 0 ==> #[trigger] r.normal.at(ks) == normal_at(ks),
            forall|ks: Seq<KeyEvent>|
                ks.len() > 0 ==> #[trigger] r.extend.at(ks) == layered(
                    extend_binding(ks[0]),
                    ks,
                    Walk::NoMatch,
                ),
            forall|ks: Seq<KeyEvent>|
                ks.len() > 0 ==> #[trigger] r.insert.at(ks) == layered(
                    insert_binding(ks[0]),
                    ks,
                    Walk::NoMatch,
                ),
    {
        Keymap {
            normal: default_normal_keymap(),
            extend: default_extend_keymap(),
            insert: default_insert_keymap(),
        }
    }
}

impl Keymap {
    pub open spec fn trie(&self, mode: BindMode) -> KeyTrie {
        match mode {
            BindMode::Normal => self.normal,
            BindMode::Extend => self.extend,
            BindMode::Insert => self.insert,
        }
    }

    /// Binds a sequence of keys to a command in one mode; the other modes stay as they
    /// are.
    pub fn bind_user(&mut self, mode: BindMode, keys: &Vec<KeyEvent>, command: &str)
        requires
            keys@.len() > 0,
        ensures
            forall|ks: Seq<KeyEvent>|
                ks.len() > 0 ==> #[trigger] final(self).trie(mode).at(ks) == bound_at(
                    old(self).trie(mode),
                    canon(keys@),
                    command@,
                    ks,
                ),
            forall|m: BindMode| m != mode ==> #[trigger] final(self).trie(m) == old(self).trie(m),
    {
        let cmd = KeymapCommand::new(command);
        match mode {
            BindMode::Normal => self.normal.bind_sequence(keys, cmd),
            BindMode::Extend => self.extend.bind_sequence(keys, cmd),
            BindMode::Insert => self.insert.bind_sequence(keys, cmd),
        }
    }

    /// Removes the binding of a sequence of keys in one mode; the other modes stay as they
    /// are.
    pub fn unbind_user(&mut self, mode: BindMode, keys: &Vec<KeyEvent>)
        ensures
            forall|ks: Seq<KeyEvent>|
                ks.len() > 0 ==> #[trigger] final(self).trie(mode).at(ks) == (if keys@.len() > 0
                    && canon(keys@).is_prefix_of(ks) {
                    Walk::NoMatch
                } else {
                    old(self).trie(mode).at(ks)
                }),
            forall|m: BindMode| m != mode ==> #[trigger] final(self).trie(m) == old(self).trie(m),
    {
        match mode {
            BindMode::Normal => self.normal.remove_sequence(keys),
            BindMode::Extend => self.extend.remove_sequence(keys),
            BindMode::Insert => self.insert.remove_sequence(keys),
        }
    }
}

/// A sequence that was just bound leads to its command, and removing it again makes it
/// lead nowhere.
pub proof fn law_bind_and_unbind(t: KeyTrie, keys: Seq<KeyEvent>, name: Seq<char>)
    requires
        keys.len() > 0,
    ensures
        bound_at(t, keys, name, keys) == Walk::Leaf(name),
        keys.is_prefix_of(keys),
{
}

/// Binding a sequence leaves every sequence alone that is neither a beginning nor a
/// continuation of it.
pub proof fn law_bind_keeps_others(
    t: KeyTrie,
    keys: Seq<KeyEvent>,
    name: Seq<char>,
    ks: Seq<KeyEvent>,
)
    requires
        !ks.is_prefix_of(keys),
        !keys.is_prefix_of(ks),
    ensures
        bound_at(t, keys, name, ks) == t.at(ks),
{
}

/// The key of a character with nothing held down.
pub open spec fn plain_key(c: char) -> KeyEvent {
    KeyEvent {
        code: KeyCode::Char(c),
        modifiers: KeyModifiers {
            shift: false,
            control: false,
            alt: false,
            super_key: false,
            hyper: false,
            meta: false,
        },
        kind: KeyEventKind::Press,
        state: 0,
    }
}

/// The key of a character with control held down.
pub open spec fn control_key(c: char) -> KeyEvent {
    KeyEvent {
        modifiers: KeyModifiers { control: true, ..plain_key(c).modifiers },
        ..plain_key(c)
    }
}

/// A key that types nothing, with nothing held down.
pub open spec fn bare_key(code: KeyCode) -> KeyEvent {
    KeyEvent { code, ..plain_key(' ') }
}

proof fn lemma_behind_m(a: char, b: char)
    ensures
        ({
            let m = plain_key('m').canonical();
            let x = plain_key(a).canonical();
            let y = plain_key(b).canonical();
            &&& seq![m, x, y].drop_first() == seq![x, y]
            &&& seq![x, y].drop_first() == seq![y]
        }),
{
    let m = plain_key('m').canonical();
    let x = plain_key(a).canonical();
    let y = plain_key(b).canonical();
    assert(seq![m, x, y].drop_first() =~= seq![x, y]);
    assert(seq![x, y].drop_first() =~= seq![y]);
}

/// The keys of basic motion, as they are bound by default.
pub proof fn law_default_motion_keys()
    ensures
        normal_at(seq![plain_key('h').canonical()]) == Walk::Leaf("move-left"@),
        normal_at(seq![bare_key(KeyCode::Left).canonical()]) == Walk::Leaf("move-left"@),
        normal_at(seq![plain_key('l').canonical()]) == Walk::Leaf("move-right"@),
        normal_at(seq![bare_key(KeyCode::Right).canonical()]) == Walk::Leaf("move-right"@),
        normal_at(seq![plain_key('j').canonical()]) == Walk::Leaf("move-down"@),
        normal_at(seq![bare_key(KeyCode::Down).canonical()]) == Walk::Leaf("move-down"@),
        normal_at(seq![plain_key('k').canonical()]) == Walk::Leaf("move-up"@),
        normal_at(seq![bare_key(KeyCode::Up).canonical()]) == Walk::Leaf("move-up"@),
{
}

/// The keys of motion by words, as they are bound by default.
pub proof fn law_default_word_keys()
    ensures
        normal_at(seq![plain_key('w').canonical()]) == Walk::Leaf("select-next-word"@),
        normal_at(seq![plain_key('W').canonical()]) == Walk::Leaf("select-next-WORD"@),
        normal_at(seq![plain_key('b').canonical()]) == Walk::Leaf("select-prev-word"@),
        normal_at(seq![plain_key('B').canonical()]) == Walk::Leaf("select-prev-WORD"@),
{
}

/// The keys of lines and paragraphs, as they are bound by default.
pub proof fn law_default_line_keys()
    ensures
        normal_at(seq![plain_key('0').canonical()]) == Walk::Leaf("goto-line-start"@),
        normal_at(seq![bare_key(KeyCode::Home).canonical()]) == Walk::Leaf("goto-line-start"@),
        normal_at(seq![plain_key('$').canonical()]) == Walk::Leaf("goto-line-end"@),
        normal_at(seq![bare_key(KeyCode::End).canonical()]) == Walk::Leaf("goto-line-end"@),
        normal_at(seq![plain_key('^').canonical()]) == Walk::Leaf("goto-first-nonblank"@),
        normal_at(seq![plain_key('{').canonical()]) == Walk::Leaf("prev-paragraph"@),
        normal_at(seq![plain_key('}').canonical()]) == Walk::Leaf("next-paragraph"@),
        normal_at(seq![plain_key('x').canonical()]) == Walk::Leaf("select-line"@),
        normal_at(seq![plain_key('X').canonical()]) == Walk::Leaf("select-line-backward"@),
        normal_at(seq![control_key('x').canonical()]) == Walk::Leaf("extend-select-line"@),
        normal_at(seq![control_key('X').canonical()]) == Walk::Leaf("extend-select-line-backward"@),
{
}

/// The keys of pages and of the jump list, as they are bound by default.
pub proof fn law_default_page_keys()
    ensures
        normal_at(seq![bare_key(KeyCode::PageDown).canonical()]) == Walk::Leaf("page-down"@),
        normal_at(seq![bare_key(KeyCode::PageUp).canonical()]) == Walk::Leaf("page-up"@),
        normal_at(seq![control_key('d').canonical()]) == Walk::Leaf("half-page-down"@),
        normal_at(seq![control_key('u').canonical()]) == Walk::Leaf("half-page-up"@),
        normal_at(seq![control_key('o').canonical()]) == Walk::Leaf("jump-backward"@),
        normal_at(seq![control_key('i').canonical()]) == Walk::Leaf("jump-forward"@),
        normal_at(seq![bare_key(KeyCode::Tab).canonical()]) == Walk::Leaf("jump-forward"@),
{
}

/// The keys of selections, as they are bound by default.
pub proof fn law_default_selection_keys()
    ensures
        normal_at(seq![plain_key('%').canonical()]) == Walk::Leaf("select-all"@),
        normal_at(seq![plain_key(';').canonical()]) == Walk::Leaf("collapse-and-exit-extend"@),
        normal_at(seq![plain_key(',').canonical()]) == Walk::Leaf("keep-primary-selection"@),
        normal_at(seq![control_key(',').canonical()]) == Walk::Leaf("remove-primary-selection"@),
        normal_at(seq![plain_key('S').canonical()]) == Walk::Leaf("split-selection-on-newlines"@),
        normal_at(seq![plain_key('(').canonical()]) == Walk::Leaf("cycle-primary-backward"@),
        normal_at(seq![plain_key(')').canonical()]) == Walk::Leaf("cycle-primary-forward"@),
        normal_at(seq![plain_key('C').canonical()]) == Walk::Leaf("copy-selection-on-next-line"@),
        normal_at(seq![plain_key('_').canonical()]) == Walk::Leaf("trim-selection-whitespace"@),
        normal_at(seq![plain_key('e').canonical()]) == Walk::Leaf("toggle-extend"@),
{
}

/// The keys of editing, as they are bound by default.
pub proof fn law_default_edit_keys()
    ensures
        normal_at(seq![plain_key('d').canonical()]) == Walk::Leaf("delete"@),
        normal_at(seq![plain_key('c').canonical()]) == Walk::Leaf("change"@),
        normal_at(seq![plain_key('y').canonical()]) == Walk::Leaf("yank"@),
        normal_at(seq![plain_key('p').canonical()]) == Walk::Leaf("paste-after"@),
        normal_at(seq![plain_key('P').canonical()]) == Walk::Leaf("paste-before"@),
        normal_at(seq![plain_key('u').canonical()]) == Walk::Leaf("undo"@),
        normal_at(seq![plain_key('U').canonical()]) == Walk::Leaf("redo"@),
        normal_at(seq![plain_key('r').canonical()]) == Walk::WaitChar("replace"@, false),
        normal_at(seq![control_key('r').canonical()]) == Walk::Leaf("redo"@),
{
}

/// The keys of finding a character and of repeating, as they are bound by default.
pub proof fn law_default_find_keys()
    ensures
        normal_at(seq![plain_key('f').canonical()]) == Walk::WaitChar("find-forward"@, false),
        normal_at(seq![plain_key('F').canonical()]) == Walk::WaitChar("find-backward"@, false),
        normal_at(seq![plain_key('t').canonical()]) == Walk::WaitChar("till-forward"@, false),
        normal_at(seq![plain_key('T').canonical()]) == Walk::WaitChar("till-backward"@, false),
        normal_at(seq![plain_key('=').canonical()]) == Walk::Leaf("repeat-find-forward"@),
        normal_at(seq![plain_key('-').canonical()]) == Walk::Leaf("repeat-find-backward"@),
        normal_at(seq![plain_key('.').canonical()]) == Walk::Leaf("repeat-last-action"@),
{
}

/// The keys of searching, as they are bound by default.
pub proof fn law_default_search_keys()
    ensures
        normal_at(seq![plain_key('/').canonical()]) == Walk::Leaf("search-forward"@),
        normal_at(seq![plain_key('?').canonical()]) == Walk::Leaf("search-backward"@),
        normal_at(seq![plain_key('n').canonical()]) == Walk::Leaf("search-next"@),
        normal_at(seq![plain_key('N').canonical()]) == Walk::Leaf("search-prev"@),
        normal_at(seq![plain_key('s').canonical()]) == Walk::Leaf("select-within"@),
        normal_at(seq![plain_key('*').canonical()]) == Walk::Leaf("use-selection-as-search"@),
{
}

/// The keys that change the mode, as they are bound by default.
pub proof fn law_default_mode_keys()
    ensures
        normal_at(seq![plain_key(':').canonical()]) == Walk::Leaf("command-mode"@),
        normal_at(seq![plain_key('i').canonical()]) == Walk::Leaf("insert-before"@),
        normal_at(seq![plain_key('a').canonical()]) == Walk::Leaf("insert-after"@),
        normal_at(seq![plain_key('I').canonical()]) == Walk::Leaf("insert-at-line-start"@),
        normal_at(seq![plain_key('A').canonical()]) == Walk::Leaf("insert-at-line-end"@),
        normal_at(seq![plain_key('o').canonical()]) == Walk::Leaf("open-line-below"@),
        normal_at(seq![plain_key('O').canonical()]) == Walk::Leaf("open-line-above"@),
        normal_at(seq![control_key('c').canonical()]) == Walk::Leaf("force-quit"@),
{
}

/// The keys behind `g`, as they are bound by default.
pub proof fn law_default_goto_keys()
    ensures
        normal_at(seq![plain_key('g').canonical(), plain_key('g').canonical()])
            == Walk::Leaf("goto-first-line"@),
        normal_at(seq![plain_key('g').canonical(), plain_key('e').canonical()])
            == Walk::Leaf("goto-last-line"@),
        normal_at(seq![plain_key('g').canonical(), plain_key('h').canonical()])
            == Walk::Leaf("goto-line-start"@),
        normal_at(seq![plain_key('g').canonical(), plain_key('l').canonical()])
            == Walk::Leaf("goto-line-end"@),
        normal_at(seq![plain_key('g').canonical(), plain_key('s').canonical()])
            == Walk::Leaf("goto-first-nonblank"@),
{
    let g = plain_key('g').canonical();
    assert(seq![g, plain_key('g').canonical()].drop_first() =~= seq![plain_key('g').canonical()]);
    assert(seq![g, plain_key('e').canonical()].drop_first() =~= seq![plain_key('e').canonical()]);
    assert(seq![g, plain_key('h').canonical()].drop_first() =~= seq![plain_key('h').canonical()]);
    assert(seq![g, plain_key('l').canonical()].drop_first() =~= seq![plain_key('l').canonical()]);
    assert(seq![g, plain_key('s').canonical()].drop_first() =~= seq![plain_key('s').canonical()]);
}

/// The keys behind `mi`, as they are bound by default.
pub proof fn law_default_inner_keys()
    ensures
        normal_at(
            seq![plain_key('m').canonical(), plain_key('i').canonical(), plain_key('w').canonical()],
        ) == Walk::Leaf("inner-word"@),
        normal_at(
            seq![plain_key('m').canonical(), plain_key('i').canonical(), plain_key('W').canonical()],
        ) == Walk::Leaf("inner-WORD"@),
        normal_at(
            seq![plain_key('m').canonical(), plain_key('i').canonical(), plain_key('(').canonical()],
        ) == Walk::Leaf("inner-paren"@),
        normal_at(
            seq![plain_key('m').canonical(), plain_key('i').canonical(), plain_key(')').canonical()],
        ) == Walk::Leaf("inner-paren"@),
        normal_at(
            seq![plain_key('m').canonical(), plain_key('i').canonical(), plain_key('[').canonical()],
        ) == Walk::Leaf("inner-bracket"@),
        normal_at(
            seq![plain_key('m').canonical(), plain_key('i').canonical(), plain_key(']').canonical()],
        ) == Walk::Leaf("inner-bracket"@),
        normal_at(
            seq![plain_key('m').canonical(), plain_key('i').canonical(), plain_key('{').canonical()],
        ) == Walk::Leaf("inner-brace"@),
        normal_at(
            seq![plain_key('m').canonical(), plain_key('i').canonical(), plain_key('}').canonical()],
        ) == Walk::Leaf("inner-brace"@),
        normal_at(
            seq![plain_key('m').canonical(), plain_key('i').canonical(), plain_key('<').canonical()],
        ) == Walk::Leaf("inner-angle"@),
        normal_at(
            seq![plain_key('m').canonical(), plain_key('i').canonical(), plain_key('>').canonical()],
        ) == Walk::Leaf("inner-angle"@),
        normal_at(
            seq![plain_key('m').canonical(), plain_key('i').canonical(), plain_key('"').canonical()],
        ) == Walk::Leaf("inner-double-quote"@),
        normal_at(
            seq![plain_key('m').canonical(), plain_key('i').canonical(), plain_key('\'').canonical()],
        ) == Walk::Leaf("inner-single-quote"@),
        normal_at(
            seq![plain_key('m').canonical(), plain_key('i').canonical(), plain_key('`').canonical()],
        ) == Walk::Leaf("inner-backtick"@),
        normal_at(
            seq![plain_key('m').canonical(), plain_key('i').canonical(), plain_key('a').canonical()],
        ) == Walk::Leaf("inner-argument"@),
        normal_at(
            seq![plain_key('m').canonical(), plain_key('i').canonical(), plain_key('l').canonical()],
        ) == Walk::Leaf("inner-line"@),
{
    lemma_behind_m('i', 'w');
    lemma_behind_m('i', 'W');
    lemma_behind_m('i', '(');
    lemma_behind_m('i', ')');
    lemma_behind_m('i', '[');
    lemma_behind_m('i', ']');
    lemma_behind_m('i', '{');
    lemma_behind_m('i', '}');
    lemma_behind_m('i', '<');
    lemma_behind_m('i', '>');
    lemma_behind_m('i', '"');
    lemma_behind_m('i', '\'');
    lemma_behind_m('i', '`');
    lemma_behind_m('i', 'a');
    lemma_behind_m('i', 'l');
}

/// The keys behind `ma`, as they are bound by default.
pub proof fn law_default_around_keys()
    ensures
        normal_at(
            seq![plain_key('m').canonical(), plain_key('a').canonical(), plain_key('w').canonical()],
        ) == Walk::Leaf("around-word"@),
        normal_at(
            seq![plain_key('m').canonical(), plain_key('a').canonical(), plain_key('W').canonical()],
        ) == Walk::Leaf("around-WORD"@),
        normal_at(
            seq![plain_key('m').canonical(), plain_key('a').canonical(), plain_key('(').canonical()],
        ) == Walk::Leaf("around-paren"@),
        normal_at(
            seq![plain_key('m').canonical(), plain_key('a').canonical(), plain_key(')').canonical()],
        ) == Walk::Leaf("around-paren"@),
        normal_at(
            seq![plain_key('m').canonical(), plain_key('a').canonical(), plain_key('[').canonical()],
        ) == Walk::Leaf("around-bracket"@),
        normal_at(
            seq![plain_key('m').canonical(), plain_key('a').canonical(), plain_key(']').canonical()],
        ) == Walk::Leaf("around-bracket"@),
        normal_at(
            seq![plain_key('m').canonical(), plain_key('a').canonical(), plain_key('{').canonical()],
        ) == Walk::Leaf("around-brace"@),
        normal_at(
            seq![plain_key('m').canonical(), plain_key('a').canonical(), plain_key('}').canonical()],
        ) == Walk::Leaf("around-brace"@),
        normal_at(
            seq![plain_key('m').canonical(), plain_key('a').canonical(), plain_key('<').canonical()],
        ) == Walk::Leaf("around-angle"@),
        normal_at(
            seq![plain_key('m').canonical(), plain_key('a').canonical(), plain_key('>').canonical()],
        ) == Walk::Leaf("around-angle"@),
        normal_at(
            seq![plain_key('m').canonical(), plain_key('a').canonical(), plain_key('"').canonical()],
        ) == Walk::Leaf("around-double-quote"@),
        normal_at(
            seq![plain_key('m').canonical(), plain_key('a').canonical(), plain_key('\'').canonical()],
        ) == Walk::Leaf("around-single-quote"@),
        normal_at(
            seq![plain_key('m').canonical(), plain_key('a').canonical(), plain_key('`').canonical()],
        ) == Walk::Leaf("around-backtick"@),
        normal_at(
            seq![plain_key('m').canonical(), plain_key('a').canonical(), plain_key('a').canonical()],
        ) == Walk::Leaf("around-argument"@),
        normal_at(
            seq![plain_key('m').canonical(), plain_key('a').canonical(), plain_key('l').canonical()],
        ) == Walk::Leaf("around-line"@),
{
    lemma_behind_m('a', 'w');
    lemma_behind_m('a', 'W');
    lemma_behind_m('a', '(');
    lemma_behind_m('a', ')');
    lemma_behind_m('a', '[');
    lemma_behind_m('a', ']');
    lemma_behind_m('a', '{');
    lemma_behind_m('a', '}');
    lemma_behind_m('a', '<');
    lemma_behind_m('a', '>');
    lemma_behind_m('a', '"');
    lemma_behind_m('a', '\'');
    lemma_behind_m('a', '`');
    lemma_behind_m('a', 'a');
    lemma_behind_m('a', 'l');
}

/// The keys behind `ms`, as they are bound by default.
pub proof fn law_default_surround_keys()
    ensures
        normal_at(
            seq![plain_key('m').canonical(), plain_key('s').canonical(), plain_key('(').canonical()],
        ) == Walk::Leaf("surround-paren"@),
        normal_at(
            seq![plain_key('m').canonical(), plain_key('s').canonical(), plain_key(')').canonical()],
        ) == Walk::Leaf("surround-paren"@),
        normal_at(
            seq![plain_key('m').canonical(), plain_key('s').canonical(), plain_key('[').canonical()],
        ) == Walk::Leaf("surround-bracket"@),
        normal_at(
            seq![plain_key('m').canonical(), plain_key('s').canonical(), plain_key(']').canonical()],
        ) == Walk::Leaf("surround-bracket"@),
        normal_at(
            seq![plain_key('m').canonical(), plain_key('s').canonical(), plain_key('{').canonical()],
        ) == Walk::Leaf("surround-brace"@),
        normal_at(
            seq![plain_key('m').canonical(), plain_key('s').canonical(), plain_key('}').canonical()],
        ) == Walk::Leaf("surround-brace"@),
        normal_at(
            seq![plain_key('m').canonical(), plain_key('s').canonical(), plain_key('<').canonical()],
        ) == Walk::Leaf("surround-angle"@),
        normal_at(
            seq![plain_key('m').canonical(), plain_key('s').canonical(), plain_key('>').canonical()],
        ) == Walk::Leaf("surround-angle"@),
        normal_at(
            seq![plain_key('m').canonical(), plain_key('s').canonical(), plain_key('"').canonical()],
        ) == Walk::Leaf("surround-double-quote"@),
        normal_at(
            seq![plain_key('m').canonical(), plain_key('s').canonical(), plain_key('\'').canonical()],
        ) == Walk::Leaf("surround-single-quote"@),
        normal_at(
            seq![plain_key('m').canonical(), plain_key('s').canonical(), plain_key('`').canonical()],
        ) == Walk::Leaf("surround-backtick"@),
{
    lemma_behind_m('s', '(');
    lemma_behind_m('s', ')');
    lemma_behind_m('s', '[');
    lemma_behind_m('s', ']');
    lemma_behind_m('s', '{');
    lemma_behind_m('s', '}');
    lemma_behind_m('s', '<');
    lemma_behind_m('s', '>');
    lemma_behind_m('s', '"');
    lemma_behind_m('s', '\'');
    lemma_behind_m('s', '`');
}

/// The keys of extend mode, as they are bound by default.
pub proof fn law_default_extend_keys()
    ensures
        layered(
            extend_binding(plain_key('o').canonical()),
            seq![plain_key('o').canonical()],
            Walk::NoMatch,
        ) == Walk::Leaf("flip-selections"@),
{
}

/// The keys of insert mode, as they are bound by default.
pub proof fn law_default_insert_keys()
    ensures
        layered(
            insert_binding(bare_key(KeyCode::Esc).canonical()),
            seq![bare_key(KeyCode::Esc).canonical()],
            Walk::NoMatch,
        ) == Walk::Leaf("exit-insert"@),
        layered(
            insert_binding(control_key('c').canonical()),
            seq![control_key('c').canonical()],
            Walk::NoMatch,
        ) == Walk::Leaf("exit-insert"@),
        layered(
            insert_binding(bare_key(KeyCode::Left).canonical()),
            seq![bare_key(KeyCode::Left).canonical()],
            Walk::NoMatch,
        ) == Walk::Leaf("move-left"@),
        layered(
            insert_binding(bare_key(KeyCode::Right).canonical()),
            seq![bare_key(KeyCode::Right).canonical()],
            Walk::NoMatch,
        ) == Walk::Leaf("move-right"@),
        layered(
            insert_binding(bare_key(KeyCode::Down).canonical()),
            seq![bare_key(KeyCode::Down).canonical()],
            Walk::NoMatch,
        ) == Walk::Leaf("move-down"@),
        layered(
            insert_binding(bare_key(KeyCode::Up).canonical()),
            seq![bare_key(KeyCode::Up).canonical()],
            Walk::NoMatch,
        ) == Walk::Leaf("move-up"@),
        layered(
            insert_binding(bare_key(KeyCode::Home).canonical()),
            seq![bare_key(KeyCode::Home).canonical()],
            Walk::NoMatch,
        ) == Walk::Leaf("goto-line-start"@),
        layered(
            insert_binding(bare_key(KeyCode::End).canonical()),
            seq![bare_key(KeyCode::End).canonical()],
            Walk::NoMatch,
        ) == Walk::Leaf("goto-line-end"@),
{
}

/// The two keys that begin sequences by default, and those behind the second, name what they lead
/// into, and a key that is bound leads nowhere further.
pub proof fn law_default_prefix_keys(k: KeyEvent)
    ensures
        normal_at(seq![plain_key('g').canonical()]) == Walk::Interior("goto"@),
        normal_at(seq![plain_key('m').canonical()]) == Walk::Interior("match"@),
        normal_at(seq![plain_key('m').canonical(), plain_key('i').canonical()]) == Walk::Interior(
            "inner"@,
        ),
        normal_at(seq![plain_key('m').canonical(), plain_key('a').canonical()]) == Walk::Interior(
            "around"@,
        ),
        normal_at(seq![plain_key('m').canonical(), plain_key('s').canonical()]) == Walk::Interior(
            "surround"@,
        ),
        normal_at(seq![plain_key('m').canonical(), plain_key('/').canonical()]) == Walk::Leaf(
            "select-all-matches"@,
        ),
        normal_at(seq![plain_key('d').canonical(), k]) == Walk::NoMatch,
        normal_at(seq![plain_key('f').canonical(), k]) == Walk::NoMatch,
{
    let m = plain_key('m').canonical();
    let i = plain_key('i').canonical();
    let a = plain_key('a').canonical();
    let s = plain_key('s').canonical();
    let l = plain_key('/').canonical();
    assert(seq![m, i].drop_first() =~= seq![i]);
    assert(seq![m, a].drop_first() =~= seq![a]);
    assert(seq![m, s].drop_first() =~= seq![s]);
    assert(seq![m, l].drop_first() =~= seq![l]);
}

/// Binding a sequence makes every beginning of it wait for more keys, and nothing follow it. What
/// was bound to a beginning is gone; a node that was there keeps its name.
pub proof fn law_bound_sequence_waits(
    t: KeyTrie,
    keys: Seq<KeyEvent>,
    name: Seq<char>,
    n: int,
    more: Seq<KeyEvent>,
)
    requires
        0 < n < keys.len(),
        more.len() > 0,
    ensures
        bound_at(t, keys, name, keys.take(n)) is Interior,
        t.at(keys.take(n)) is Interior ==> bound_at(t, keys, name, keys.take(n)) == t.at(
            keys.take(n),
        ),
        bound_at(t, keys, name, keys + more) == Walk::NoMatch,
{
    assert(keys.take(n).is_prefix_of(keys));
    assert(keys.take(n).len() != keys.len());
    let all = keys + more;
    assert(all.len() != keys.len());
    assert(!all.is_prefix_of(keys));
    assert(keys.is_prefix_of(all)) by {
        assert(all.take(keys.len() as int) =~= keys);
    }
}

/// Each mode has a keymap of its own.
pub proof fn law_modes_have_their_keymaps(k: Keymap)
    ensures
        k.trie(BindMode::Normal) == k.normal,
        k.trie(BindMode::Extend) == k.extend,
        k.trie(BindMode::Insert) == k.insert,
{
}

/// The canonical form of a sequence is that of each of its keys.
pub proof fn law_sequences_are_canonical_key_by_key(ks: Seq<KeyEvent>)
    ensures
        canon(ks).len() == ks.len(),
        forall|i: int| 0 <= i < ks.len() ==> #[trigger] canon(ks)[i] == ks[i].canonical(),
        canon(canon(ks)) == canon(ks),
{
    assert forall|i: int| 0 <= i < ks.len() implies #[trigger] canon(canon(ks))[i] == canon(
        ks,
    )[i] by {
        crate::keys::law_canonical_idempotent(ks[i]);
    }
    assert(canon(canon(ks)) =~= canon(ks));
}

} // verus!

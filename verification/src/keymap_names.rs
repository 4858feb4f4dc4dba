//! The commands that keys are bound to.

use crate::keymap::{KeyTrie, KeyTrieNode, Keymap};
use crate::message_log::{Entry, Severity};
use crate::messages::Messages;
use crate::registers::texts;
use crate::registry::CommandRegistry;
use crate::strings::{chars_of, concat3, str_eq};
use vstd::prelude::*;
use vstd::string::*;

verus! {

/// The commands that the first `n` keys of a trie lead to.
pub open spec fn first_names(t: KeyTrie, n: nat) -> Seq<Seq<char>>
    decreases t, n,
{
    if n == 0 || n > t.bindings@.len() {
        Seq::empty()
    } else {
        first_names(t, (n - 1) as nat) + (match t.bindings@[n - 1].node {
            KeyTrieNode::Leaf(c) => seq![c.name@],
            KeyTrieNode::WaitChar(w) => seq![w.cmd_name@],
            KeyTrieNode::Node(sub) => first_names(sub, sub.bindings@.len()),
        })
    }
}

/// The commands that the keys of a trie lead to.
pub open spec fn trie_names(t: KeyTrie) -> Seq<Seq<char>> {
    first_names(t, t.bindings@.len())
}

/// The commands that keys are bound to in any mode.
pub open spec fn keymap_names(k: Keymap) -> Seq<Seq<char>> {
    trie_names(k.normal) + trie_names(k.extend) + trie_names(k.insert)
}

fn push_names(t: &KeyTrie, out: &mut Vec<String>)
    ensures
        texts(final(out)@) == texts(old(out)@) + trie_names(*t),
    decreases *t,
{
    let n = t.bindings.len();
    let mut i: usize = 0;
    let ghost o = texts(out@);
    assert(o + first_names(*t, 0) =~= o);
    while i < n
        invariant
            i <= n == t.bindings@.len(),
            texts(out@) == o + first_names(*t, i as nat),
        decreases n - i,
    {
        let ghost before = texts(out@);
        match &t.bindings[i].node {
            KeyTrieNode::Leaf(c) => {
                let name = c.name.clone();
                let ghost one = name@;
                out.push(name);
                assert(texts(out@) =~= before + seq![one]);
            },
            KeyTrieNode::WaitChar(w) => {
                let name = w.cmd_name.clone();
                let ghost one = name@;
                out.push(name);
                assert(texts(out@) =~= before + seq![one]);
            },
            KeyTrieNode::Node(sub) => {
                assert(decreases_to!(*t => t.bindings@[i as int].node->Node_0));
                push_names(sub, out);
            },
        }
        i = i + 1;
        assert(texts(out@) =~= o + first_names(*t, i as nat));
    }
}

/// The commands that keys are bound to in any mode.
pub fn all_command_names(k: &Keymap) -> (r: Vec<String>)
    ensures
        texts(r@) == keymap_names(*k),
{
    let mut out: Vec<String> = Vec::new();
    assert(texts(out@) =~= Seq::empty());
    push_names(&k.normal, &mut out);
    push_names(&k.extend, &mut out);
    push_names(&k.insert, &mut out);
    assert(texts(out@) =~= keymap_names(*k));
    out
}

/// Text `a` comes before `b`, by the codes of their characters.
pub open spec fn text_before(a: Seq<char>, b: Seq<char>) -> bool
    decreases a.len(),
{
    if b.len() == 0 {
        false
    } else if a.len() == 0 {
        true
    } else if a[0] != b[0] {
        a[0] < b[0]
    } else {
        text_before(a.drop_first(), b.drop_first())
    }
}

/// `s`, which is sorted, with `x` in its place, unless it is there already.
pub open spec fn put_text(s: Seq<Seq<char>>, x: Seq<char>) -> Seq<Seq<char>>
    decreases s.len(),
{
    if s.len() == 0 {
        seq![x]
    } else if s.last() == x {
        s
    } else if text_before(s.last(), x) {
        s.push(x)
    } else {
        put_text(s.drop_last(), x).push(s.last())
    }
}

/// The texts of `s`, sorted, each of them once.
pub open spec fn sorted_texts(s: Seq<Seq<char>>) -> Seq<Seq<char>>
    decreases s.len(),
{
    if s.len() == 0 {
        s
    } else {
        put_text(sorted_texts(s.drop_last()), s.last())
    }
}

proof fn lemma_put_text_contains(s: Seq<Seq<char>>, x: Seq<char>, y: Seq<char>)
    ensures
        put_text(s, x).contains(y) <==> s.contains(y) || y == x,
    decreases s.len(),
{
    let r = put_text(s, x);
    if s.len() == 0 {
        assert(r[0] == x);
    } else if s.last() == x {
        assert(s[s.len() - 1] == x);
    } else if text_before(s.last(), x) {
        assert(r[s.len() as int] == x);
        if s.contains(y) {
            let i = choose|i: int| 0 <= i < s.len() && s[i] == y;
            assert(r[i] == y);
        }
        if r.contains(y) && y != x {
            let i = choose|i: int| 0 <= i < r.len() && r[i] == y;
            assert(s[i] == y);
        }
    } else {
        let t = s.drop_last();
        lemma_put_text_contains(t, x, y);
        let u = put_text(t, x);
        if s.contains(y) {
            let i = choose|i: int| 0 <= i < s.len() && s[i] == y;
            if i < t.len() {
                assert(t[i] == y);
                let j = choose|j: int| 0 <= j < u.len() && u[j] == y;
                assert(r[j] == y);
            } else {
                assert(r[u.len() as int] == y);
            }
        }
        if y == x {
            let j = choose|j: int| 0 <= j < u.len() && u[j] == y;
            assert(r[j] == y);
        }
        if r.contains(y) {
            let i = choose|i: int| 0 <= i < r.len() && r[i] == y;
            if i < u.len() {
                assert(u[i] == y);
                if y != x {
                    let j = choose|j: int| 0 <= j < t.len() && t[j] == y;
                    assert(s[j] == y);
                }
            } else {
                assert(s[s.len() - 1] == y);
            }
        }
    }
}

/// Sorting neither adds nor loses a text.
pub proof fn law_sorted_texts_same(s: Seq<Seq<char>>, y: Seq<char>)
    ensures
        sorted_texts(s).contains(y) <==> s.contains(y),
    decreases s.len(),
{
    if s.len() > 0 {
        let t = s.drop_last();
        law_sorted_texts_same(t, y);
        lemma_put_text_contains(sorted_texts(t), s.last(), y);
        if s.contains(y) && y != s.last() {
            let i = choose|i: int| 0 <= i < s.len() && s[i] == y;
            assert(t[i] == y);
        }
        if t.contains(y) {
            let i = choose|i: int| 0 <= i < t.len() && t[i] == y;
            assert(s[i] == y);
        }
        assert(s[s.len() - 1] == s.last());
    }
}

pub proof fn lemma_before_total(a: Seq<char>, b: Seq<char>)
    ensures
        a == b || text_before(a, b) || text_before(b, a),
        !(text_before(a, b) && text_before(b, a)),
        a == b ==> !text_before(a, b),
    decreases a.len(),
{
    if a.len() > 0 && b.len() > 0 {
        if a[0] == b[0] {
            lemma_before_total(a.drop_first(), b.drop_first());
            if a.drop_first() == b.drop_first() {
                assert(a =~= seq![a[0]] + a.drop_first());
                assert(b =~= seq![b[0]] + b.drop_first());
            }
        }
    } else if a.len() == 0 && b.len() == 0 {
        assert(a =~= b);
    }
}

/// The order of texts is transitive.
pub proof fn lemma_before_transitive(a: Seq<char>, b: Seq<char>, c: Seq<char>)
    requires
        text_before(a, b),
        text_before(b, c),
    ensures
        text_before(a, c),
    decreases a.len(),
{
    if a.len() > 0 && a[0] == b[0] && b[0] == c[0] {
        lemma_before_transitive(a.drop_first(), b.drop_first(), c.drop_first());
    }
}

/// Not before is transitive as well.
pub proof fn lemma_not_before_transitive(a: Seq<char>, b: Seq<char>, c: Seq<char>)
    requires
        !text_before(b, a),
        !text_before(c, b),
    ensures
        !text_before(c, a),
{
    lemma_before_total(a, b);
    lemma_before_total(b, c);
    lemma_before_total(a, c);
    if text_before(c, a) && a != b && b != c {
        lemma_before_transitive(a, b, c);
    }
}

/// Each text comes before all that stand behind it.
pub open spec fn ascending(s: Seq<Seq<char>>) -> bool {
    forall|i: int, j: int| 0 <= i < j < s.len() ==> text_before(#[trigger] s[i], #[trigger] s[j])
}

proof fn lemma_put_text_ascending(s: Seq<Seq<char>>, x: Seq<char>)
    requires
        ascending(s),
    ensures
        ascending(put_text(s, x)),
    decreases s.len(),
{
    let r = put_text(s, x);
    if s.len() > 0 && s.last() != x {
        let t = s.drop_last();
        lemma_before_total(s.last(), x);
        if text_before(s.last(), x) {
            assert forall|i: int, j: int| 0 <= i < j < r.len() implies text_before(
                #[trigger] r[i],
                #[trigger] r[j],
            ) by {
                if j == s.len() && i < t.len() {
                    lemma_before_transitive(s[i], s.last(), x);
                }
            }
        } else {
            lemma_put_text_ascending(t, x);
            let u = put_text(t, x);
            assert forall|i: int, j: int| 0 <= i < j < r.len() implies text_before(
                #[trigger] r[i],
                #[trigger] r[j],
            ) by {
                if j == u.len() {
                    assert(u.contains(u[i]));
                    lemma_put_text_contains(t, x, u[i]);
                    if u[i] != x {
                        let k = choose|k: int| 0 <= k < t.len() && t[k] == u[i];
                        assert(s[k] == u[i]);
                    }
                }
            }
        }
    }
}

/// Sorted texts ascend, so that none occurs twice.
pub proof fn law_sorted_texts_ascend(s: Seq<Seq<char>>)
    ensures
        ascending(sorted_texts(s)),
    decreases s.len(),
{
    if s.len() > 0 {
        law_sorted_texts_ascend(s.drop_last());
        lemma_put_text_ascending(sorted_texts(s.drop_last()), s.last());
    }
}

pub(crate) fn is_before(a: &str, b: &str) -> (r: bool)
    ensures
        r == text_before(a@, b@),
{
    let x = chars_of(a);
    let y = chars_of(b);
    let n = x.len();
    let m = y.len();
    let mut i: usize = 0;
    assert(x@.skip(0) =~= a@);
    assert(y@.skip(0) =~= b@);
    while i < n && i < m && x[i] == y[i]
        invariant
            i <= n == x@.len(),
            i <= m == y@.len(),
            text_before(a@, b@) == text_before(x@.skip(i as int), y@.skip(i as int)),
        decreases n - i,
    {
        assert(x@.skip(i as int).drop_first() =~= x@.skip(i + 1));
        assert(y@.skip(i as int).drop_first() =~= y@.skip(i + 1));
        i = i + 1;
    }
    if i == m {
        false
    } else if i == n {
        true
    } else {
        x[i] < y[i]
    }
}

fn insert_text(v: &mut Vec<String>, x: String)
    ensures
        texts(final(v)@) == put_text(texts(old(v)@), x@),
{
    let ghost s = texts(v@);
    let mut i = v.len();
    assert(s.take(i as int) =~= s);
    assert(put_text(s, x@) =~= put_text(s.take(i as int), x@) + s.skip(i as int));
    while i > 0 && !str_eq(v[i - 1].as_str(), x.as_str()) && !is_before(
        v[i - 1].as_str(),
        x.as_str(),
    )
        invariant
            i <= s.len() == v@.len(),
            texts(v@) == s,
            put_text(s, x@) == put_text(s.take(i as int), x@) + s.skip(i as int),
        decreases i,
    {
        assert(s.take(i as int).drop_last() =~= s.take(i - 1));
        assert(s.take(i as int).last() == v@[i - 1]@);
        i = i - 1;
        assert(put_text(s, x@) =~= put_text(s.take(i as int), x@) + s.skip(i as int));
    }
    proof {
        if i > 0 {
            assert(s.take(i as int).last() == v@[i - 1]@);
        }
    }
    if i > 0 && str_eq(v[i - 1].as_str(), x.as_str()) {
        assert(s =~= s.take(i as int) + s.skip(i as int));
        return;
    }
    let ghost one = x@;
    v.insert(i, x);
    proof {
        assert(put_text(s.take(i as int), one) =~= s.take(i as int).push(one));
        assert(texts(v@) =~= s.take(i as int).push(one) + s.skip(i as int));
    }
}

/// Sorts texts, and keeps each of them once.
pub fn sort_texts(v: &Vec<String>) -> (r: Vec<String>)
    ensures
        texts(r@) == sorted_texts(texts(v@)),
{
    let mut r: Vec<String> = Vec::new();
    let n = v.len();
    let mut i: usize = 0;
    let ghost all = texts(v@);
    assert(all.take(0) =~= Seq::empty());
    assert(texts(r@) =~= Seq::empty());
    while i < n
        invariant
            i <= n == v@.len(),
            all == texts(v@),
            texts(r@) == sorted_texts(all.take(i as int)),
        decreases n - i,
    {
        assert(all.take(i + 1).drop_last() =~= all.take(i as int));
        assert(all.take(i + 1).last() == v@[i as int]@);
        insert_text(&mut r, v[i].clone());
        i = i + 1;
    }
    assert(all.take(n as int) =~= all);
    r
}

/// The warning about a key that is bound to no command.
pub open spec fn unknown_binding(name: Seq<char>) -> Seq<char> {
    "key bound to unknown command '"@ + name + "' — typo, or missing from #:on-command?"@
}

/// The warnings about those of `names` that no command is called.
pub open spec fn unknown_bindings(names: Seq<Seq<char>>, registry: CommandRegistry) -> Seq<Entry>
    decreases names.len(),
{
    if names.len() == 0 {
        Seq::empty()
    } else {
        let before = unknown_bindings(names.drop_last(), registry);
        if registry.entry(names.last()) is None {
            before.push((Severity::Warning, unknown_binding(names.last())))
        } else {
            before
        }
    }
}

/// Warns of every key that is bound to no command, once for each name, in the order of the
/// names.
pub fn lint_keymap(keymap: &Keymap, registry: &CommandRegistry, messages: &mut Messages)
    ensures
        final(messages)@ == old(messages)@.reported_all(
            unknown_bindings(sorted_texts(keymap_names(*keymap)), *registry),
        ),
{
    let all = all_command_names(keymap);
    let names = sort_texts(&all);
    let ghost t = texts(names@);
    let ghost m0 = messages@;
    let n = names.len();
    let mut i: usize = 0;
    assert(t.take(0) =~= Seq::empty());
    while i < n
        invariant
            i <= n == names@.len(),
            t == texts(names@),
            messages@ == m0.reported_all(unknown_bindings(t.take(i as int), *registry)),
        decreases n - i,
    {
        assert(t.take(i + 1).drop_last() =~= t.take(i as int));
        assert(t.take(i + 1).last() == names@[i as int]@);
        if !registry.contains(names[i].as_str()) {
            let ghost before = unknown_bindings(t.take(i as int), *registry);
            messages.report(
                Severity::Warning,
                concat3(
                    "key bound to unknown command '",
                    names[i].as_str(),
                    "' — typo, or missing from #:on-command?",
                ),
            );
            proof {
                let after = unknown_bindings(t.take(i + 1), *registry);
                assert(after.drop_last() =~= before);
            }
        }
        i = i + 1;
    }
    assert(t.take(n as int) =~= t);
}

/// Texts are ordered as in a dictionary: by the first character in which they differ, and the
/// beginning of a text comes before the text.
pub proof fn law_dictionary_order(p: Seq<char>, a: char, b: char, x: Seq<char>, y: Seq<char>)
    requires
        a != b,
    ensures
        text_before(p + seq![a] + x, p + seq![b] + y) <==> a < b,
        text_before(p, p + seq![a] + x),
        !text_before(p + seq![a] + x, p),
        !text_before(p, p),
    decreases p.len(),
{
    let s = p + seq![a] + x;
    let t = p + seq![b] + y;
    if p.len() > 0 {
        let q = p.drop_first();
        assert(s.drop_first() =~= q + seq![a] + x);
        assert(t.drop_first() =~= q + seq![b] + y);
        law_dictionary_order(q, a, b, x, y);
    }
}

/// The names that the keys of a trie lead to: that of every binding, whether it is a command or
/// one that waits for a character, and those behind every prefix.
pub proof fn law_every_binding_is_named(t: KeyTrie, i: int, name: Seq<char>)
    requires
        0 <= i < t.bindings@.len(),
    ensures
        t.bindings@[i].node matches KeyTrieNode::Leaf(c) ==> trie_names(t).contains(c.name@),
        t.bindings@[i].node matches KeyTrieNode::WaitChar(w) ==> trie_names(t).contains(
            w.cmd_name@,
        ),
        t.bindings@[i].node matches KeyTrieNode::Node(sub) ==> (trie_names(sub).contains(name)
            ==> trie_names(t).contains(name)),
{
    let own = first_names(t, (i + 1) as nat);
    let before = first_names(t, i as nat);
    let n = t.bindings@.len();
    match t.bindings@[i].node {
        KeyTrieNode::Leaf(c) => {
            assert(own[before.len() as int] == c.name@);
            lemma_first_names_grow(t, (i + 1) as nat, n, c.name@);
        },
        KeyTrieNode::WaitChar(w) => {
            assert(own[before.len() as int] == w.cmd_name@);
            lemma_first_names_grow(t, (i + 1) as nat, n, w.cmd_name@);
        },
        KeyTrieNode::Node(sub) => {
            if trie_names(sub).contains(name) {
                let k = choose|k: int| 0 <= k < trie_names(sub).len() && trie_names(sub)[k] == name;
                assert(own[before.len() + k] == name);
                lemma_first_names_grow(t, (i + 1) as nat, n, name);
            }
        },
    }
}

proof fn lemma_first_names_grow(t: KeyTrie, a: nat, b: nat, name: Seq<char>)
    requires
        a <= b <= t.bindings@.len(),
        first_names(t, a).contains(name),
    ensures
        first_names(t, b).contains(name),
    decreases b,
{
    if a < b {
        lemma_first_names_grow(t, a, (b - 1) as nat, name);
        let f = first_names(t, (b - 1) as nat);
        let i = choose|i: int| 0 <= i < f.len() && f[i] == name;
        assert(first_names(t, b)[i] == name);
    }
}

/// The keys of all three tries count.
pub proof fn law_names_of_all_modes(k: Keymap, name: Seq<char>)
    ensures
        keymap_names(k).contains(name) <==> trie_names(k.normal).contains(name) || trie_names(
            k.extend,
        ).contains(name) || trie_names(k.insert).contains(name),
{
    let a = trie_names(k.normal);
    let b = trie_names(k.extend);
    let c = trie_names(k.insert);
    let all = keymap_names(k);
    if a.contains(name) {
        let i = choose|i: int| 0 <= i < a.len() && a[i] == name;
        assert(all[i] == name);
    }
    if b.contains(name) {
        let i = choose|i: int| 0 <= i < b.len() && b[i] == name;
        assert(all[a.len() + i] == name);
    }
    if c.contains(name) {
        let i = choose|i: int| 0 <= i < c.len() && c[i] == name;
        assert(all[a.len() + b.len() + i] == name);
    }
    if all.contains(name) {
        let i = choose|i: int| 0 <= i < all.len() && all[i] == name;
        if i < a.len() {
            assert(a[i] == name);
        } else if i < a.len() + b.len() {
            assert(b[i - a.len()] == name);
        } else {
            assert(c[i - a.len() - b.len()] == name);
        }
    }
}

/// Exactly the names that no command has are warned of, in their order.
pub proof fn law_unknown_names_are_warned_of(names: Seq<Seq<char>>, registry: CommandRegistry)
    ensures
        unknown_bindings(names, registry) == names.filter(
            |n: Seq<char>| registry.entry(n) is None,
        ).map_values(
            |n: Seq<char>|
                (
                    Severity::Warning,
                    "key bound to unknown command '"@ + n
                        + "' — typo, or missing from #:on-command?"@,
                ),
        ),
    decreases names.len(),
{
    reveal(Seq::filter);
    let kept = names.filter(|n: Seq<char>| registry.entry(n) is None);
    if names.len() > 0 {
        law_unknown_names_are_warned_of(names.drop_last(), registry);
    }
    assert(unknown_bindings(names, registry) =~= kept.map_values(
        |n: Seq<char>|
            (
                Severity::Warning,
                "key bound to unknown command '"@ + n + "' — typo, or missing from #:on-command?"@,
            ),
    ));
}

} // verus!

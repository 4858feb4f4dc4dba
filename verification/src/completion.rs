//! Completion of what is typed on the command line: names of commands, of buffers, and
//! paths.

use crate::buffer::Buffer;
use crate::buffer_store::{BufferId, BufferStore};
use crate::keymap_names::{
    ascending, is_before, law_sorted_texts_ascend, law_sorted_texts_same,
    lemma_not_before_transitive, sort_texts, text_before,
};
use crate::minibuf::{bytes_of, chars_before, lemma_byte_len_monotonic, on_boundary, splits_at};
use crate::paths::{inside_dir, join_dir, lemma_last_in, Separators};
use crate::registers::texts;
use crate::registry::CommandRegistry;
use crate::strings::{
    byte_len, char_len_utf8, chars_of, concat2, concat3, find_char, first_index,
    lemma_first_index, starts_with, str_eq, string_of_range,
};
use vstd::prelude::*;
use vstd::string::*;

verus! {

/// One way to go on with what was typed.
#[derive(Debug)]
pub struct Completion {
    /// What stands in the input in place of what was typed.
    pub replacement: String,
    /// What the list of candidates shows.
    pub display: String,
}

/// A candidate as a value.
pub struct Cand {
    pub replacement: Seq<char>,
    pub display: Seq<char>,
}

impl View for Completion {
    type V = Cand;

    open spec fn view(&self) -> Cand {
        Cand { replacement: self.replacement@, display: self.display@ }
    }
}

/// The candidates of a list as values.
pub open spec fn cands(v: Seq<Completion>) -> Seq<Cand> {
    v.map_values(|c: Completion| c@)
}

/// A choice between candidates that is open: one of them is in the input.
#[derive(Debug)]
pub struct CompletionState {
    pub candidates: Vec<Completion>,
    /// The candidate that is in the input.
    pub selected: usize,
    /// The byte offset in the input where the candidate starts.
    pub span_start: usize,
}

impl CompletionState {
    /// One of the candidates is selected.
    pub open spec fn wf(&self) -> bool {
        self.selected < self.candidates@.len()
    }

    /// The bytes of the input that the selected candidate takes.
    pub fn current_span(&self) -> (r: std::ops::Range<usize>)
        requires
            self.wf(),
            self.span_start + byte_len(self.candidates@[self.selected as int].replacement@)
                <= usize::MAX,
        ensures
            r.start == self.span_start,
            r.end == self.span_start + byte_len(
                self.candidates@[self.selected as int].replacement@,
            ),
    {
        let chars = chars_of(self.candidates[self.selected].replacement.as_str());
        assert(chars@.take(chars@.len() as int) =~= chars@);
        let n = bytes_of(&chars, chars.len());
        let end: usize = self.span_start + n;
        self.span_start..end
    }
}

/// What completers look at.
pub struct CompletionCtx<'a> {
    pub registry: &'a CommandRegistry,
    pub buffers: &'a BufferStore,
    /// The user's own directory, where there is one.
    pub home: Option<&'a str>,
}

/// The candidates for the part of the input from `span_start` up to the cursor.
#[derive(Debug)]
pub struct CompletionResult {
    pub span_start: usize,
    pub candidates: Vec<Completion>,
}

// ---------------------------------------------------------------------------
// The input up to the cursor
// ---------------------------------------------------------------------------

/// A cursor may stand at byte offset `cursor`: between two characters, or past the end.
pub open spec fn cursor_fits(input: Seq<char>, cursor: nat) -> bool {
    cursor >= byte_len(input) || on_boundary(input, cursor)
}

/// The input up to the cursor.
pub open spec fn typed_part(input: Seq<char>, cursor: nat) -> Seq<char> {
    if cursor >= byte_len(input) {
        input
    } else {
        input.take(chars_before(input, cursor))
    }
}

fn typed_len(chars: &Vec<char>, cursor: usize) -> (k: usize)
    requires
        cursor_fits(chars@, cursor as nat),
    ensures
        k <= chars@.len(),
        chars@.take(k as int) == typed_part(chars@, cursor as nat),
        byte_len(chars@.take(k as int)) <= cursor,
{
    let n = chars.len();
    let mut bytes: usize = 0;
    let mut k: usize = 0;
    let ghost inside = cursor < byte_len(chars@);
    let ghost goal = if inside {
        chars_before(chars@, cursor as nat)
    } else {
        n as int
    };
    proof {
        assert(chars@.take(0) =~= Seq::<char>::empty());
        assert(chars@.take(n as int) =~= chars@);
        if inside {
            assert(splits_at(chars@, cursor as nat, goal));
        }
    }
    while k < n && bytes < cursor
        invariant
            k <= goal <= n == chars@.len(),
            bytes == byte_len(chars@.take(k as int)),
            bytes <= cursor,
            byte_len(chars@.take(goal)) <= cursor,
            inside ==> byte_len(chars@.take(goal)) == cursor,
            !inside ==> goal == n,
        decreases n - k,
    {
        proof {
            assert(chars@.take(k + 1).drop_last() =~= chars@.take(k as int));
            lemma_byte_len_monotonic(chars@, k + 1, goal);
        }
        bytes = bytes + char_len_utf8(chars[k]);
        k = k + 1;
    }
    proof {
        if k < goal {
            lemma_byte_len_monotonic(chars@, k as int, goal);
        }
    }
    k
}

/// The byte offset where the argument starts, in the part `typed` of the input.
pub open spec fn arg_start(typed: Seq<char>) -> nat {
    byte_len(typed.take(first_index(typed, ' ') + 1))
}

/// The argument, as far as it is typed: what comes behind the first space, or everything
/// where there is none.
pub open spec fn arg_text(typed: Seq<char>) -> Seq<char> {
    typed.skip(first_index(typed, ' ') + 1)
}

/// The argument in front of the cursor: the byte offset where it starts, and its text.
pub fn arg_prefix(input: &str, cursor: usize) -> (r: (usize, String))
    requires
        cursor_fits(input@, cursor as nat),
    ensures
        r.0 == arg_start(typed_part(input@, cursor as nat)),
        r.1@ == arg_text(typed_part(input@, cursor as nat)),
{
    let chars = chars_of(input);
    let k = typed_len(&chars, cursor);
    let ghost typed = chars@.take(k as int);
    let up = string_of_range(&chars, 0, k);
    assert(chars@.subrange(0, k as int) =~= typed);
    let part = chars_of(up.as_str());
    proof {
        lemma_first_index(typed, ' ');
        assert(typed.take(typed.len() as int) =~= typed);
    }
    let from: usize = match find_char(&part, ' ') {
        Some(i) => i + 1,
        None => 0,
    };
    proof {
        lemma_byte_len_monotonic(typed, from as int, typed.len() as int);
        assert(typed.skip(from as int) =~= typed.subrange(from as int, typed.len() as int));
    }
    let start = bytes_of(&part, from);
    (start, string_of_range(&part, from, part.len()))
}

// ---------------------------------------------------------------------------
// Names of commands
// ---------------------------------------------------------------------------

/// Completes the name of a command.
#[derive(Debug, Clone, Copy)]
pub struct CommandCompleter;

/// The text `n` starts with `typed` and has more.
pub open spec fn longer(typed: Seq<char>, n: Seq<char>) -> bool {
    typed.is_prefix_of(n) && n != typed
}

/// The name `n` goes on from `typed`.
pub open spec fn goes_on(registry: CommandRegistry, typed: Seq<char>, n: Seq<char>) -> bool {
    registry.known(n) && longer(typed, n)
}

impl CommandCompleter {
    /// All names and short forms of commands that go on from what is typed, in order, each
    /// of them once. What is typed whole is none of them.
    pub fn complete(&self, input: &str, cursor: usize, ctx: &CompletionCtx<'_>) -> (r:
        CompletionResult)
        requires
            cursor_fits(input@, cursor as nat),
        ensures
            r.span_start == 0,
            ({
                let names = cands(r.candidates@).map_values(|c: Cand| c.replacement);
                &&& ascending(names)
                &&& forall|n: Seq<char>| #[trigger]
                    goes_on(*ctx.registry, typed_part(input@, cursor as nat), n)
                        <==> names.contains(n)
            }),
            forall|i: int|
                0 <= i < r.candidates@.len() ==> (#[trigger] r.candidates@[i]).display@
                    == r.candidates@[i].replacement@,
    {
        let chars = chars_of(input);
        let k = typed_len(&chars, cursor);
        let typed = string_of_range(&chars, 0, k);
        assert(chars@.subrange(0, k as int) =~= chars@.take(k as int));
        let all = ctx.registry.names_and_aliases();
        let ghost at = texts(all@);
        let mut found: Vec<String> = Vec::new();
        let n = all.len();
        let mut i: usize = 0;
        while i < n
            invariant
                i <= n == all@.len(),
                at == texts(all@),
                forall|x: Seq<char>|
                    #![trigger texts(found@).contains(x)]
                    #![trigger longer(typed@, x)]
                    texts(found@).contains(x) <==> at.take(i as int).contains(x) && longer(
                        typed@,
                        x,
                    ),
            decreases n - i,
        {
            let ghost f0 = texts(found@);
            let ghost x0 = all@[i as int]@;
            let ghost t0 = at.take(i as int);
            let ghost t1 = at.take(i + 1);
            proof {
                assert(t1 =~= t0.push(x0));
                lemma_push_contains(t0, x0);
            }
            if starts_with(all[i].as_str(), typed.as_str()) && !str_eq(
                all[i].as_str(),
                typed.as_str(),
            ) {
                found.push(all[i].clone());
                proof {
                    assert(texts(found@) =~= f0.push(x0));
                    lemma_push_contains(f0, x0);
                }
            }
            proof {
                assert forall|x: Seq<char>|
                    #![trigger texts(found@).contains(x)]
                    #![trigger longer(typed@, x)]
                    texts(found@).contains(x) <==> t1.contains(x) && longer(typed@, x) by {
                    assert(f0.contains(x) <==> t0.contains(x) && longer(typed@, x));
                    assert(t0.push(x0).contains(x) <==> t0.contains(x) || x == x0);
                }
            }
            i = i + 1;
        }
        assert(at.take(n as int) =~= at);
        let sorted = sort_texts(&found);
        let ghost st = texts(sorted@);
        proof {
            law_sorted_texts_ascend(texts(found@));
        }
        let mut candidates: Vec<Completion> = Vec::new();
        let m = sorted.len();
        let mut j: usize = 0;
        while j < m
            invariant
                j <= m == sorted@.len(),
                candidates@.len() == j,
                forall|q: int|
                    0 <= q < j ==> (#[trigger] candidates@[q]).replacement@ == sorted@[q]@
                        && candidates@[q].display@ == sorted@[q]@,
            decreases m - j,
        {
            candidates.push(
                Completion { replacement: sorted[j].clone(), display: sorted[j].clone() },
            );
            j = j + 1;
        }
        proof {
            let names = cands(candidates@).map_values(|c: Cand| c.replacement);
            assert(names =~= st);
            assert forall|x: Seq<char>| #[trigger] goes_on(*ctx.registry, typed@, x)
                <==> names.contains(x) by {
                law_sorted_texts_same(texts(found@), x);
                assert(ctx.registry.known(x) <==> at.contains(x));
                assert(texts(found@).contains(x) <==> at.contains(x) && longer(typed@, x));
            }
        }
        CompletionResult { span_start: 0, candidates }
    }
}

proof fn lemma_push_contains(s: Seq<Seq<char>>, y: Seq<char>)
    ensures
        forall|x: Seq<char>| s.push(y).contains(x) <==> s.contains(x) || x == y,
{
    let t = s.push(y);
    assert(t[s.len() as int] == y);
    assert forall|x: Seq<char>| t.contains(x) <==> s.contains(x) || x == y by {
        if s.contains(x) {
            let i = choose|i: int| 0 <= i < s.len() && s[i] == x;
            assert(t[i] == x);
        }
        if t.contains(x) && x != y {
            let i = choose|i: int| 0 <= i < t.len() && t[i] == x;
            assert(s[i] == x);
        }
    }
}

// ---------------------------------------------------------------------------
// Candidates in order
// ---------------------------------------------------------------------------

/// `s`, which is in order, with `x` behind all that it does not come before.
pub open spec fn put_cand(s: Seq<Cand>, x: Cand) -> Seq<Cand>
    decreases s.len(),
{
    if s.len() == 0 || !text_before(x.display, s.last().display) {
        s.push(x)
    } else {
        put_cand(s.drop_last(), x).push(s.last())
    }
}

/// Candidates in the order of what they show.
pub open spec fn in_display_order(s: Seq<Cand>) -> Seq<Cand>
    decreases s.len(),
{
    if s.len() == 0 {
        s
    } else {
        put_cand(in_display_order(s.drop_last()), s.last())
    }
}

/// No candidate comes before one that stands ahead of it.
pub open spec fn ordered_by_display(s: Seq<Cand>) -> bool {
    forall|i: int, j: int|
        0 <= i < j < s.len() ==> !text_before((#[trigger] s[j]).display, (#[trigger] s[i]).display)
}

proof fn lemma_put_cand(s: Seq<Cand>, x: Cand)
    requires
        ordered_by_display(s),
    ensures
        ordered_by_display(put_cand(s, x)),
        put_cand(s, x).to_multiset() == s.to_multiset().insert(x),
        put_cand(s, x).len() == s.len() + 1,
    decreases s.len(),
{
    broadcast use vstd::seq_lib::group_to_multiset_ensures;

    let r = put_cand(s, x);
    if s.len() == 0 || !text_before(x.display, s.last().display) {
        assert forall|i: int, j: int| 0 <= i < j < r.len() implies !text_before(
            (#[trigger] r[j]).display,
            (#[trigger] r[i]).display,
        ) by {
            if j == s.len() && i < s.len() - 1 {
                lemma_not_before_transitive(s[i].display, s.last().display, x.display);
            }
        }
    } else {
        let t = s.drop_last();
        let u = put_cand(t, x);
        lemma_put_cand(t, x);
        assert(s =~= t.push(s.last()));
        assert(r.to_multiset() =~= s.to_multiset().insert(x));
        lemma_all_not_after(t, x, s.last().display);
    }
}

proof fn lemma_all_not_after(t: Seq<Cand>, x: Cand, last: Seq<char>)
    requires
        forall|i: int| 0 <= i < t.len() ==> !text_before(last, (#[trigger] t[i]).display),
        text_before(x.display, last),
    ensures
        forall|i: int|
            0 <= i < put_cand(t, x).len() ==> !text_before(
                last,
                (#[trigger] put_cand(t, x)[i]).display,
            ),
    decreases t.len(),
{
    crate::keymap_names::lemma_before_total(x.display, last);
    if t.len() > 0 && text_before(x.display, t.last().display) {
        let u = t.drop_last();
        assert forall|i: int| 0 <= i < u.len() implies !text_before(
            last,
            (#[trigger] u[i]).display,
        ) by {
            assert(t[i] == u[i]);
        }
        lemma_all_not_after(u, x, last);
        let r = put_cand(t, x);
        assert forall|i: int| 0 <= i < r.len() implies !text_before(
            last,
            (#[trigger] r[i]).display,
        ) by {
            if i < r.len() - 1 {
                assert(r[i] == put_cand(u, x)[i]);
            } else {
                assert(!text_before(last, t[t.len() - 1].display));
            }
        }
    } else {
        let r = put_cand(t, x);
        assert forall|i: int| 0 <= i < r.len() implies !text_before(
            last,
            (#[trigger] r[i]).display,
        ) by {
            if i < t.len() {
                assert(r[i] == t[i]);
            }
        }
    }
}

/// Putting candidates in order neither adds nor loses one, and none comes before one that
/// stands ahead of it.
pub proof fn law_display_order(s: Seq<Cand>)
    ensures
        ordered_by_display(in_display_order(s)),
        in_display_order(s).to_multiset() == s.to_multiset(),
        in_display_order(s).len() == s.len(),
    decreases s.len(),
{
    broadcast use vstd::seq_lib::group_to_multiset_ensures;

    if s.len() > 0 {
        law_display_order(s.drop_last());
        lemma_put_cand(in_display_order(s.drop_last()), s.last());
        assert(s =~= s.drop_last().push(s.last()));
    }
}

fn insert_cand(v: &mut Vec<Completion>, x: Completion)
    ensures
        cands(final(v)@) == put_cand(cands(old(v)@), x@),
{
    let ghost s = cands(v@);
    let mut i = v.len();
    assert(s.take(i as int) =~= s);
    assert(put_cand(s, x@) =~= put_cand(s.take(i as int), x@) + s.skip(i as int));
    while i > 0 && is_before(x.display.as_str(), v[i - 1].display.as_str())
        invariant
            i <= s.len() == v@.len(),
            cands(v@) == s,
            put_cand(s, x@) == put_cand(s.take(i as int), x@) + s.skip(i as int),
        decreases i,
    {
        assert(s.take(i as int).drop_last() =~= s.take(i - 1));
        assert(s.take(i as int).last() == v@[i - 1]@);
        i = i - 1;
        assert(put_cand(s, x@) =~= put_cand(s.take(i as int), x@) + s.skip(i as int));
    }
    proof {
        if i > 0 {
            assert(s.take(i as int).last() == v@[i - 1]@);
        }
    }
    let ghost one = x@;
    v.insert(i, x);
    proof {
        assert(put_cand(s.take(i as int), one) =~= s.take(i as int).push(one));
        assert(cands(v@) =~= s.take(i as int).push(one) + s.skip(i as int));
    }
}

// ---------------------------------------------------------------------------
// Names of buffers
// ---------------------------------------------------------------------------

/// Completes the name of an open buffer.
#[derive(Debug, Clone, Copy)]
pub struct BufferNameCompleter;

/// The directory that holds the file at `p`; `None` for a root, a drive alone and the empty
/// path.
pub open spec fn parent_dir(p: Seq<char>, s: Separators) -> Option<Seq<char>> {
    let d = s.drive_len(p);
    let body = p.skip(d);
    let i = s.last_in(body);
    if body.len() == 0 || (i == 0 && body.len() == 1) {
        None
    } else if i == 0 {
        Some(p.take(d + 1))
    } else if i < 0 {
        Some(p.take(d))
    } else {
        Some(p.take(d + i))
    }
}

fn parent_of(p: &str, separators: Separators) -> (r: Option<String>)
    ensures
        match r {
            Some(d) => parent_dir(p@, separators) == Some(d@),
            None => parent_dir(p@, separators) is None,
        },
{
    let all = chars_of(p);
    let d = separators.drive_chars(&all);
    let body = chars_of(string_of_range(&all, d, all.len()).as_str());
    let n = body.len();
    assert(body@ =~= p@.skip(d as int));
    assert(body@.take(n as int) =~= body@);
    proof {
        lemma_last_in(separators, body@);
    }
    if n == 0 {
        return None;
    }
    let to: usize = match separators.rfind(&body, n) {
        None => d,
        Some(i) => {
            if i == 0 && n == 1 {
                return None;
            }
            if i == 0 {
                d + 1
            } else {
                d + i
            }
        },
    };
    assert(all@.subrange(0, to as int) =~= p@.take(to as int));
    Some(string_of_range(&all, 0, to))
}

/// `p` with `~` in place of the user's own directory.
pub open spec fn short_path(p: Seq<char>, home: Option<Seq<char>>, s: Separators) -> Seq<char> {
    match home {
        Some(h) => if p == h {
            seq!['~']
        } else if 0 < h.len() < p.len() && h.is_prefix_of(p) && s.separates(p[h.len() as int]) {
            seq!['~'] + p.skip(h.len() as int)
        } else {
            p
        },
        None => p,
    }
}

/// `p` with `~` in place of the user's own directory.
pub fn shorten_home(p: &str, home: Option<&str>, separators: Separators) -> (r: String)
    ensures
        r@ == short_path(
            p@,
            match home {
                Some(h) => Some(h@),
                None => None,
            },
            separators,
        ),
{
    match home {
        None => p.to_owned(),
        Some(h) => {
            if str_eq(p, h) {
                let mut r = String::new();
                r.push('~');
                assert(r@ =~= seq!['~']);
                return r;
            }
            let chars = chars_of(p);
            let n = chars_of(h).len();
            if 0 < n && n < chars.len() && starts_with(p, h) && separators.is_separator(chars[n]) {
                let rest = string_of_range(&chars, n, chars.len());
                assert(rest@ =~= p@.skip(n as int));
                let mut r = String::new();
                r.push('~');
                r.append(rest.as_str());
                assert(r@ =~= seq!['~'] + rest@);
                r
            } else {
                p.to_owned()
            }
        },
    }
}

/// How many of the buffers `ids` are shown under the name `base`.
pub open spec fn named_so(buffers: Map<u64, Buffer>, ids: Seq<u64>, base: Seq<char>) -> nat
    decreases ids.len(),
{
    if ids.len() == 0 {
        0
    } else {
        named_so(buffers, ids.drop_last(), base) + (if buffers[ids.last()].spec_display_name()
            == base {
            1nat
        } else {
            0
        })
    }
}

/// The candidate for one buffer: it puts the whole path in, and shows the name. Where
/// `shared`, another buffer has the same name, and the directory is shown with it.
pub open spec fn buffer_cand(b: Buffer, shared: bool, home: Option<Seq<char>>) -> Cand {
    let base = b.spec_display_name();
    Cand {
        replacement: match b.spec_path() {
            Some(p) => p@,
            None => base,
        },
        display: match b.spec_path() {
            Some(p) => match parent_dir(p@, p.separators) {
                Some(d) => if shared {
                    base + "  ("@ + short_path(d, home, p.separators) + "/)"@
                } else {
                    base
                },
                None => base,
            },
            None => base,
        },
    }
}

/// The candidates among the buffers `ids`, of all the buffers `opened`.
pub open spec fn buffer_cands(
    buffers: Map<u64, Buffer>,
    opened: Seq<u64>,
    ids: Seq<u64>,
    prefix: Seq<char>,
    home: Option<Seq<char>>,
) -> Seq<Cand>
    decreases ids.len(),
{
    if ids.len() == 0 {
        Seq::empty()
    } else {
        let before = buffer_cands(buffers, opened, ids.drop_last(), prefix, home);
        let b = buffers[ids.last()];
        let base = b.spec_display_name();
        if prefix.is_prefix_of(base) {
            before.push(buffer_cand(b, named_so(buffers, opened, base) >= 2, home))
        } else {
            before
        }
    }
}

fn count_named(buffers: &BufferStore, ids: &Vec<BufferId>, base: &str) -> (r: usize)
    requires
        forall|i: int| 0 <= i < ids@.len() ==> buffers@.contains_key((#[trigger] ids@[i]).0),
    ensures
        r == named_so(buffers@, ids@.map_values(|b: BufferId| b.0), base@),
{
    let n = ids.len();
    let mut i: usize = 0;
    let mut count: usize = 0;
    let ghost s = ids@.map_values(|b: BufferId| b.0);
    assert(s.take(0) =~= Seq::empty());
    while i < n
        invariant
            i <= n == ids@.len(),
            s == ids@.map_values(|b: BufferId| b.0),
            count <= i,
            count == named_so(buffers@, s.take(i as int), base@),
            forall|i: int| 0 <= i < ids@.len() ==> buffers@.contains_key((#[trigger] ids@[i]).0),
        decreases n - i,
    {
        assert(s.take(i + 1).drop_last() =~= s.take(i as int));
        assert(s.take(i + 1).last() == ids@[i as int].0);
        let name = buffers.get(ids[i]).display_name();
        if str_eq(name.as_str(), base) {
            count = count + 1;
        }
        i = i + 1;
    }
    assert(s.take(n as int) =~= s);
    count
}

fn candidate_for(b: &Buffer, shared: bool, home: Option<&str>) -> (r: Completion)
    ensures
        r@ == buffer_cand(
            *b,
            shared,
            match home {
                Some(h) => Some(h@),
                None => None,
            },
        ),
{
    let base = b.display_name();
    match b.path() {
        Some(p) => {
            let display = match parent_of(p.as_str(), p.separators) {
                Some(d) => {
                    if shared {
                        let short = shorten_home(d.as_str(), home, p.separators);
                        let head = concat3(base.as_str(), "  (", short.as_str());
                        concat2(head.as_str(), "/)")
                    } else {
                        base
                    }
                },
                None => base,
            };
            Completion { replacement: p.text.clone(), display }
        },
        None => Completion { replacement: base.clone(), display: base },
    }
}

impl BufferNameCompleter {
    /// The buffers whose name starts with the argument, in the order of what is shown of
    /// them.
    pub fn complete(&self, input: &str, cursor: usize, ctx: &CompletionCtx<'_>) -> (r:
        CompletionResult)
        requires
            cursor_fits(input@, cursor as nat),
        ensures
            r.span_start == arg_start(typed_part(input@, cursor as nat)),
            cands(r.candidates@) == in_display_order(
                buffer_cands(
                    ctx.buffers@,
                    ctx.buffers.opened(),
                    ctx.buffers.opened(),
                    arg_text(typed_part(input@, cursor as nat)),
                    match ctx.home {
                        Some(h) => Some(h@),
                        None => None,
                    },
                ),
            ),
    {
        let (span_start, prefix) = arg_prefix(input, cursor);
        let ids = ctx.buffers.ids();
        let ghost s = ctx.buffers.opened();
        let ghost home = match ctx.home {
            Some(h) => Some(h@),
            None => None,
        };
        let n = ids.len();
        let mut candidates: Vec<Completion> = Vec::new();
        let mut i: usize = 0;
        assert(s.take(0) =~= Seq::empty());
        assert(cands(candidates@) =~= Seq::empty());
        while i < n
            invariant
                i <= n == ids@.len(),
                s == ids@.map_values(|b: BufferId| b.0),
                forall|i: int|
                    0 <= i < ids@.len() ==> ctx.buffers@.contains_key((#[trigger] ids@[i]).0),
                home == (match ctx.home {
                    Some(h) => Some(h@),
                    None => None,
                }),
                cands(candidates@) == in_display_order(
                    buffer_cands(ctx.buffers@, s, s.take(i as int), prefix@, home),
                ),
            decreases n - i,
        {
            assert(s.take(i + 1).drop_last() =~= s.take(i as int));
            assert(s.take(i + 1).last() == ids@[i as int].0);
            let b = ctx.buffers.get(ids[i]);
            let base = b.display_name();
            if starts_with(base.as_str(), prefix.as_str()) {
                let shared = count_named(ctx.buffers, &ids, base.as_str()) >= 2;
                let c = candidate_for(b, shared, ctx.home);
                proof {
                    let before = buffer_cands(ctx.buffers@, s, s.take(i as int), prefix@, home);
                    let after = buffer_cands(ctx.buffers@, s, s.take(i + 1), prefix@, home);
                    assert(after.drop_last() =~= before);
                }
                insert_cand(&mut candidates, c);
            }
            i = i + 1;
        }
        assert(s.take(n as int) =~= s);
        CompletionResult { span_start, candidates }
    }
}

// ---------------------------------------------------------------------------
// Paths
// ---------------------------------------------------------------------------

/// Completes a path.
#[derive(Debug, Clone, Copy)]
pub struct PathCompleter {
    /// Only directories are candidates.
    pub dirs_only: bool,
}

/// What a directory holds: a name, and whether it is a directory itself.
#[derive(Debug)]
pub struct DirEntry {
    pub name: String,
    pub is_dir: bool,
}

/// The part of a path up to its last separator.
pub open spec fn dir_part(p: Seq<char>, s: Separators) -> Seq<char> {
    p.take(s.last_in(p) + 1)
}

/// The part of a path behind its last separator.
pub open spec fn name_part(p: Seq<char>, s: Separators) -> Seq<char> {
    p.skip(s.last_in(p) + 1)
}

/// Splits a path behind its last separator.
pub fn split_path_at_sep(p: &str, separators: Separators) -> (r: (String, String))
    ensures
        r.0@ == dir_part(p@, separators),
        r.1@ == name_part(p@, separators),
{
    let chars = chars_of(p);
    let n = chars.len();
    assert(chars@.take(n as int) =~= chars@);
    let from: usize = match separators.rfind(&chars, n) {
        Some(i) => i + 1,
        None => 0,
    };
    assert(p@.take(from as int) =~= chars@.subrange(0, from as int));
    assert(p@.skip(from as int) =~= chars@.subrange(from as int, n as int));
    (string_of_range(&chars, 0, from), string_of_range(&chars, from, n))
}

/// The two parts of a path make it up. The first ends in a separator, if it is not empty, and
/// the second holds none.
pub proof fn law_path_parts(p: Seq<char>, s: Separators)
    ensures
        dir_part(p, s) + name_part(p, s) == p,
        dir_part(p, s).len() > 0 ==> s.separates(dir_part(p, s).last()),
        forall|i: int|
            0 <= i < name_part(p, s).len() ==> !#[trigger] s.separates(name_part(p, s)[i]),
{
    lemma_last_in(s, p);
    assert(dir_part(p, s) + name_part(p, s) =~= p);
    assert forall|i: int| 0 <= i < name_part(p, s).len() implies !#[trigger] s.separates(
        name_part(p, s)[i],
    ) by {
        assert(name_part(p, s)[i] == p[s.last_in(p) + 1 + i]);
    }
}

/// The directory that is read for an argument whose directory part is `dir`, with all
/// short forms in it written out. What begins at a root without naming its drive is on
/// the drive that is worked on; what names a drive does not depend on that.
pub open spec fn directory_for(dir: Seq<char>, cwd: Seq<char>, s: Separators) -> Seq<char> {
    if dir.len() == 0 {
        cwd
    } else if s.absolute(dir) || s.drive_len(dir) > 0 {
        dir
    } else if s.separates(dir[0]) {
        cwd.take(s.drive_len(cwd)) + dir
    } else {
        inside_dir(cwd, dir, s)
    }
}

/// The directory that is read for an argument; see [`directory_for`].
pub fn lookup_dir(expanded_dir: &str, cwd: &str, separators: Separators) -> (r: String)
    ensures
        r@ == directory_for(expanded_dir@, cwd@, separators),
{
    let chars = chars_of(expanded_dir);
    if chars.len() == 0 {
        cwd.to_owned()
    } else if separators.is_absolute(expanded_dir) || separators.drive_chars(&chars) > 0 {
        expanded_dir.to_owned()
    } else if separators.is_separator(chars[0]) {
        let here = chars_of(cwd);
        let n = separators.drive_chars(&here);
        let drive = string_of_range(&here, 0, n);
        assert(drive@ =~= cwd@.take(n as int));
        concat2(drive.as_str(), expanded_dir)
    } else {
        join_dir(cwd, expanded_dir, separators)
    }
}

/// An entry of the directory goes on from `prefix`. Hidden ones do where the prefix is
/// hidden as well.
pub open spec fn entry_fits(e: DirEntry, prefix: Seq<char>, dirs_only: bool) -> bool {
    &&& prefix.is_prefix_of(e.name@)
    &&& prefix.len() > 0 && prefix[0] == '.' || !(e.name@.len() > 0 && e.name@[0] == '.')
    &&& dirs_only ==> e.is_dir
}

/// The candidate for an entry: directories end in a separator, and what was typed of the
/// directory part stays as it was typed.
pub open spec fn entry_cand(e: DirEntry, dir: Seq<char>) -> Cand {
    let name = if e.is_dir {
        e.name@ + "/"@
    } else {
        e.name@
    };
    Cand { replacement: dir + name, display: name }
}

/// The candidates among the entries of a directory.
pub open spec fn entry_cands(
    entries: Seq<DirEntry>,
    dir: Seq<char>,
    prefix: Seq<char>,
    dirs_only: bool,
) -> Seq<Cand>
    decreases entries.len(),
{
    if entries.len() == 0 {
        Seq::empty()
    } else {
        let before = entry_cands(entries.drop_last(), dir, prefix, dirs_only);
        if entry_fits(entries.last(), prefix, dirs_only) {
            before.push(entry_cand(entries.last(), dir))
        } else {
            before
        }
    }
}

impl PathCompleter {
    /// The part of the argument that names the directory to read, as it was typed.
    pub fn directory_typed(&self, input: &str, cursor: usize, separators: Separators) -> (r: String)
        requires
            cursor_fits(input@, cursor as nat),
        ensures
            r@ == dir_part(arg_text(typed_part(input@, cursor as nat)), separators),
    {
        let (_, prefix) = arg_prefix(input, cursor);
        split_path_at_sep(prefix.as_str(), separators).0
    }

    fn fits(&self, e: &DirEntry, prefix: &str) -> (r: bool)
        ensures
            r == entry_fits(*e, prefix@, self.dirs_only),
    {
        let p = chars_of(prefix);
        let c = chars_of(e.name.as_str());
        let hidden_asked = p.len() > 0 && p[0] == '.';
        let hidden = c.len() > 0 && c[0] == '.';
        starts_with(e.name.as_str(), prefix) && (hidden_asked || !hidden) && (!self.dirs_only
            || e.is_dir)
    }

    /// The entries of the directory that go on from the argument, in the order of what is
    /// shown of them. `entries` is what the directory holds, or `None` where it could not
    /// be read.
    pub fn complete(
        &self,
        input: &str,
        cursor: usize,
        entries: Option<&Vec<DirEntry>>,
        separators: Separators,
    ) -> (r: CompletionResult)
        requires
            cursor_fits(input@, cursor as nat),
        ensures
            r.span_start == arg_start(typed_part(input@, cursor as nat)),
            ({
                let arg = arg_text(typed_part(input@, cursor as nat));
                cands(r.candidates@) == (match entries {
                    Some(v) => in_display_order(
                        entry_cands(
                            v@,
                            dir_part(arg, separators),
                            name_part(arg, separators),
                            self.dirs_only,
                        ),
                    ),
                    None => Seq::empty(),
                })
            }),
    {
        let (span_start, prefix) = arg_prefix(input, cursor);
        let (dir, file_prefix) = split_path_at_sep(prefix.as_str(), separators);
        let mut candidates: Vec<Completion> = Vec::new();
        assert(cands(candidates@) =~= Seq::empty());
        if let Some(v) = entries {
            let n = v.len();
            let mut i: usize = 0;
            assert(v@.take(0) =~= Seq::empty());
            while i < n
                invariant
                    i <= n == v@.len(),
                    cands(candidates@) == in_display_order(
                        entry_cands(v@.take(i as int), dir@, file_prefix@, self.dirs_only),
                    ),
                decreases n - i,
            {
                assert(v@.take(i + 1).drop_last() =~= v@.take(i as int));
                assert(v@.take(i + 1).last() == v@[i as int]);
                if self.fits(&v[i], file_prefix.as_str()) {
                    let display = if v[i].is_dir {
                        concat2(v[i].name.as_str(), "/")
                    } else {
                        v[i].name.clone()
                    };
                    let replacement = concat2(dir.as_str(), display.as_str());
                    proof {
                        let before = entry_cands(
                            v@.take(i as int),
                            dir@,
                            file_prefix@,
                            self.dirs_only,
                        );
                        let after = entry_cands(v@.take(i + 1), dir@, file_prefix@, self.dirs_only);
                        assert(after.drop_last() =~= before);
                    }
                    insert_cand(&mut candidates, Completion { replacement, display });
                }
                i = i + 1;
            }
            assert(v@.take(n as int) =~= v@);
        }
        CompletionResult { span_start, candidates }
    }
}

/// The argument is what stands behind the first space, and its place is counted in bytes from
/// the front. An input without a space is all argument.
pub proof fn law_argument_is_behind_the_first_space(command: Seq<char>, arg: Seq<char>)
    requires
        forall|i: int| 0 <= i < command.len() ==> #[trigger] command[i] != ' ',
    ensures
        arg_text(command.push(' ') + arg) == arg,
        arg_start(command.push(' ') + arg) == byte_len(command) + 1,
        arg_text(command) == command,
        arg_start(command) == 0,
{
    let all = command.push(' ') + arg;
    let n = command.len() as int;
    lemma_first_index(all, ' ');
    lemma_first_index(command, ' ');
    assert(all[n] == ' ');
    let f = first_index(all, ' ');
    if f < n && f >= 0 {
        assert(all[f] == command[f]);
    }
    assert(f == n);
    assert(all.skip(n + 1) =~= arg);
    assert(all.take(n + 1) =~= command.push(' '));
    assert(command.push(' ').drop_last() =~= command);
    if first_index(command, ' ') >= 0 {
        assert(command[first_index(command, ' ')] == ' ');
    }
    assert(command.skip(0) =~= command);
    assert(command.take(0) =~= Seq::<char>::empty());
}

/// What is typed is what stands in front of the cursor: with what stands behind it, it makes up
/// the input, and it takes as many bytes as the cursor is from the front. A cursor past the end
/// stands behind everything.
pub proof fn law_typed_part_is_before_the_cursor(before: Seq<char>, behind: Seq<char>, more: nat)
    ensures
        typed_part(before + behind, byte_len(before)) == before,
        typed_part(before, byte_len(before) + more) == before,
{
    let all = before + behind;
    let k = before.len() as int;
    assert(all.take(k) =~= before);
    assert(splits_at(all, byte_len(before), k));
    crate::minibuf::lemma_split_unique(all, byte_len(before), k);
    if behind.len() == 0 {
        assert(all =~= before);
    }
    crate::strings::lemma_byte_len_concat(before, behind);
    if byte_len(before) >= byte_len(all) {
        lemma_byte_len_monotonic(all, k, all.len() as int);
        assert(all.take(all.len() as int) =~= all);
        assert(all.len() == k);
    }
}

/// A name goes on from what is typed where it starts with it and is longer.
pub proof fn law_longer_names_go_on(typed: Seq<char>, rest: Seq<char>, n: Seq<char>)
    ensures
        longer(typed, typed + rest) == (rest.len() > 0),
        longer(typed, n) ==> n.len() > typed.len() && n == typed + n.skip(typed.len() as int),
{
    assert(typed.is_prefix_of(typed + rest));
    if rest.len() == 0 {
        assert(typed + rest =~= typed);
    }
    if longer(typed, n) {
        assert(n =~= typed + n.skip(typed.len() as int));
        if n.len() == typed.len() {
            assert(n =~= typed);
        }
    }
}

/// An entry of a directory that may stand for the argument `arg`: its name starts with the part
/// of the argument behind the last separator, it is hidden only where that part is, and it is a
/// directory where only those are asked for.
pub open spec fn may_complete(
    e: DirEntry,
    arg: Seq<char>,
    s: Separators,
    dirs_only: bool,
) -> bool {
    let prefix = arg.skip(s.last_in(arg) + 1);
    &&& e.name@.len() >= prefix.len()
    &&& e.name@.take(prefix.len() as int) == prefix
    &&& (e.name@.len() > 0 && e.name@[0] == '.' ==> prefix.len() > 0)
    &&& (dirs_only ==> e.is_dir)
}

/// The candidate puts the entry's name behind what was typed of its directory, and shows the
/// name. A directory ends in a slash.
pub open spec fn stands_for(c: Cand, e: DirEntry, arg: Seq<char>, s: Separators) -> bool {
    let name = if e.is_dir {
        e.name@.push('/')
    } else {
        e.name@
    };
    c.display == name && c.replacement == arg.take(s.last_in(arg) + 1) + name
}

/// One of the entries may complete the argument, and the candidate stands for it.
pub open spec fn stands_for_one(
    c: Cand,
    entries: Seq<DirEntry>,
    arg: Seq<char>,
    s: Separators,
    dirs_only: bool,
) -> bool {
    exists|i: int|
        0 <= i < entries.len() && may_complete(#[trigger] entries[i], arg, s, dirs_only)
            && stands_for(c, entries[i], arg, s)
}

/// One of the candidates stands for the entry.
pub open spec fn one_stands_for(
    cs: Seq<Cand>,
    e: DirEntry,
    arg: Seq<char>,
    s: Separators,
) -> bool {
    exists|j: int| 0 <= j < cs.len() && stands_for(#[trigger] cs[j], e, arg, s)
}

proof fn lemma_entry_cands(
    entries: Seq<DirEntry>,
    arg: Seq<char>,
    s: Separators,
    dirs_only: bool,
)
    ensures
        ({
            let cs = entry_cands(entries, dir_part(arg, s), name_part(arg, s), dirs_only);
            &&& cs.len() <= entries.len()
            &&& forall|j: int|
                0 <= j < cs.len() ==> stands_for_one(#[trigger] cs[j], entries, arg, s, dirs_only)
            &&& forall|i: int|
                0 <= i < entries.len() && may_complete(#[trigger] entries[i], arg, s, dirs_only)
                    ==> one_stands_for(cs, entries[i], arg, s)
        }),
    decreases entries.len(),
{
    let cs = entry_cands(entries, dir_part(arg, s), name_part(arg, s), dirs_only);
    if entries.len() > 0 {
        let rest = entries.drop_last();
        let e = entries.last();
        let before = entry_cands(rest, dir_part(arg, s), name_part(arg, s), dirs_only);
        lemma_entry_cands(rest, arg, s, dirs_only);
        lemma_entry_cand(e, arg, s, dirs_only);
        assert(entries[entries.len() - 1] == e);
        assert forall|j: int| 0 <= j < cs.len() implies stands_for_one(
            #[trigger] cs[j],
            entries,
            arg,
            s,
            dirs_only,
        ) by {
            if j < before.len() {
                assert(cs[j] == before[j]);
                assert(stands_for_one(before[j], rest, arg, s, dirs_only));
                let i = choose|i: int|
                    0 <= i < rest.len() && may_complete(#[trigger] rest[i], arg, s, dirs_only)
                        && stands_for(before[j], rest[i], arg, s);
                assert(entries[i] == rest[i]);
            }
        }
        assert forall|i: int|
            0 <= i < entries.len() && may_complete(
                #[trigger] entries[i],
                arg,
                s,
                dirs_only,
            ) implies one_stands_for(cs, entries[i], arg, s) by {
            if i < rest.len() {
                assert(rest[i] == entries[i]);
                assert(one_stands_for(before, rest[i], arg, s));
                let j = choose|j: int|
                    0 <= j < before.len() && stands_for(#[trigger] before[j], rest[i], arg, s);
                assert(cs[j] == before[j]);
            } else {
                assert(cs[cs.len() - 1] == entry_cand(e, dir_part(arg, s)));
            }
        }
    }
}

proof fn lemma_entry_cand(e: DirEntry, arg: Seq<char>, s: Separators, dirs_only: bool)
    ensures
        entry_fits(e, name_part(arg, s), dirs_only) == may_complete(e, arg, s, dirs_only),
        stands_for(entry_cand(e, dir_part(arg, s)), e, arg, s),
{
    reveal_strlit("/");
    let prefix = name_part(arg, s);
    assert(prefix.is_prefix_of(e.name@) <==> e.name@.len() >= prefix.len() && e.name@.take(
        prefix.len() as int,
    ) =~= prefix);
    if prefix.is_prefix_of(e.name@) && prefix.len() > 0 {
        assert(e.name@.take(prefix.len() as int)[0] == prefix[0]);
    }
    assert("/"@ =~= seq!['/']);
    assert(e.name@ + "/"@ =~= e.name@.push('/'));
}

proof fn lemma_same_elements(a: Seq<Cand>, b: Seq<Cand>)
    requires
        a.to_multiset() == b.to_multiset(),
    ensures
        forall|i: int| 0 <= i < a.len() ==> b.contains(#[trigger] a[i]),
        forall|i: int| 0 <= i < b.len() ==> a.contains(#[trigger] b[i]),
{
    broadcast use vstd::seq_lib::group_to_multiset_ensures;

    assert forall|i: int| 0 <= i < a.len() implies b.contains(#[trigger] a[i]) by {
        assert(a.contains(a[i]));
        assert(a.to_multiset().count(a[i]) > 0);
    }
    assert forall|i: int| 0 <= i < b.len() implies a.contains(#[trigger] b[i]) by {
        assert(b.contains(b[i]));
        assert(b.to_multiset().count(b[i]) > 0);
    }
}

proof fn lemma_goes_on_from_argument(
    c: Cand,
    e: DirEntry,
    arg: Seq<char>,
    s: Separators,
    dirs_only: bool,
)
    requires
        may_complete(e, arg, s, dirs_only),
        stands_for(c, e, arg, s),
    ensures
        arg.is_prefix_of(c.replacement),
{
    lemma_last_in(s, arg);
    let at = s.last_in(arg) + 1;
    let prefix = arg.skip(at);
    let r = c.replacement;
    assert forall|q: int| 0 <= q < arg.len() implies arg[q] == r[q] by {
        if q >= at {
            assert(prefix[q - at] == e.name@.take(prefix.len() as int)[q - at]);
        }
    }
    assert(arg =~= r.take(arg.len() as int));
}

/// Every candidate for a path goes on from the whole argument, and stands for an entry that may
/// complete it; every such entry has a candidate; and there are no more candidates than entries.
/// That holds whether or not only directories are asked for.
pub proof fn law_path_candidates_go_on(
    entries: Seq<DirEntry>,
    arg: Seq<char>,
    s: Separators,
    dirs_only: bool,
)
    ensures
        ({
            let cs = in_display_order(
                entry_cands(entries, dir_part(arg, s), name_part(arg, s), dirs_only),
            );
            &&& cs.len() <= entries.len()
            &&& forall|j: int|
                0 <= j < cs.len() ==> arg.is_prefix_of((#[trigger] cs[j]).replacement)
            &&& forall|j: int|
                0 <= j < cs.len() ==> stands_for_one(#[trigger] cs[j], entries, arg, s, dirs_only)
            &&& forall|i: int|
                0 <= i < entries.len() && may_complete(#[trigger] entries[i], arg, s, dirs_only)
                    ==> one_stands_for(cs, entries[i], arg, s)
        }),
{
    let raw = entry_cands(entries, dir_part(arg, s), name_part(arg, s), dirs_only);
    let cs = in_display_order(raw);
    law_display_order(raw);
    lemma_entry_cands(entries, arg, s, dirs_only);
    lemma_same_elements(cs, raw);
    assert forall|j: int| 0 <= j < cs.len() implies stands_for_one(
        #[trigger] cs[j],
        entries,
        arg,
        s,
        dirs_only,
    ) && arg.is_prefix_of(cs[j].replacement) by {
        assert(raw.contains(cs[j]));
        let q = choose|q: int| 0 <= q < raw.len() && raw[q] == cs[j];
        assert(stands_for_one(raw[q], entries, arg, s, dirs_only));
        let i = choose|i: int|
            0 <= i < entries.len() && may_complete(#[trigger] entries[i], arg, s, dirs_only)
                && stands_for(cs[j], entries[i], arg, s);
        lemma_goes_on_from_argument(cs[j], entries[i], arg, s, dirs_only);
    }
    assert forall|i: int|
        0 <= i < entries.len() && may_complete(
            #[trigger] entries[i],
            arg,
            s,
            dirs_only,
        ) implies one_stands_for(cs, entries[i], arg, s) by {
        assert(one_stands_for(raw, entries[i], arg, s));
        let q = choose|q: int|
            0 <= q < raw.len() && stands_for(#[trigger] raw[q], entries[i], arg, s);
        assert(cs.contains(raw[q]));
        let j = choose|j: int| 0 <= j < cs.len() && cs[j] == raw[q];
        assert(stands_for(cs[j], entries[i], arg, s));
    }
}

/// The buffers under one name are counted one by one.
pub proof fn law_buffers_of_one_name(
    buffers: Map<u64, Buffer>,
    ids: Seq<u64>,
    base: Seq<char>,
)
    ensures
        named_so(buffers, ids, base) <= ids.len(),
        (named_so(buffers, ids, base) >= 2) == (exists|i: int, j: int|
            0 <= i < j < ids.len() && buffers[#[trigger] ids[i]].spec_display_name() == base
                && buffers[#[trigger] ids[j]].spec_display_name() == base),
        (named_so(buffers, ids, base) >= 1) == (exists|i: int|
            0 <= i < ids.len() && buffers[#[trigger] ids[i]].spec_display_name() == base),
    decreases ids.len(),
{
    if ids.len() > 0 {
        let rest = ids.drop_last();
        let n = ids.len() - 1;
        law_buffers_of_one_name(buffers, rest, base);
        let here = buffers[ids[n]].spec_display_name() == base;
        if named_so(buffers, rest, base) >= 1 {
            let i = choose|i: int|
                0 <= i < rest.len() && buffers[#[trigger] rest[i]].spec_display_name() == base;
            assert(ids[i] == rest[i]);
            if here {
                assert(0 <= i < n < ids.len());
            }
        }
        if named_so(buffers, rest, base) >= 2 {
            let (i, j) = choose|i: int, j: int|
                0 <= i < j < rest.len() && buffers[#[trigger] rest[i]].spec_display_name() == base
                    && buffers[#[trigger] rest[j]].spec_display_name() == base;
            assert(ids[i] == rest[i] && ids[j] == rest[j]);
        }
        if exists|i: int, j: int|
            0 <= i < j < ids.len() && buffers[#[trigger] ids[i]].spec_display_name() == base
                && buffers[#[trigger] ids[j]].spec_display_name() == base {
            let (i, j) = choose|i: int, j: int|
                0 <= i < j < ids.len() && buffers[#[trigger] ids[i]].spec_display_name() == base
                    && buffers[#[trigger] ids[j]].spec_display_name() == base;
            assert(rest[i] == ids[i]);
            if j < n {
                assert(rest[j] == ids[j]);
            }
        }
        if exists|i: int|
            0 <= i < ids.len() && buffers[#[trigger] ids[i]].spec_display_name() == base {
            let i = choose|i: int|
                0 <= i < ids.len() && buffers[#[trigger] ids[i]].spec_display_name() == base;
            if i < n {
                assert(rest[i] == ids[i]);
            }
        }
    }
}

/// What is known of a candidate for a buffer: the name of the buffer starts with the argument,
/// the candidate puts in the whole path, or the name where there is none, and what is shown
/// starts with the name. It is the name alone unless another open buffer has the same name.
pub open spec fn completes_to(
    c: Cand,
    b: Buffer,
    prefix: Seq<char>,
    buffers: Map<u64, Buffer>,
    opened: Seq<u64>,
) -> bool {
    let base = b.spec_display_name();
    &&& prefix.is_prefix_of(base)
    &&& c.replacement == (if b.spec_path() is Some {
        b.spec_path()->0@
    } else {
        base
    })
    &&& base.is_prefix_of(c.display)
    &&& c.display != base ==> exists|i: int, j: int|
        0 <= i < j < opened.len() && buffers[#[trigger] opened[i]].spec_display_name() == base
            && buffers[#[trigger] opened[j]].spec_display_name() == base
}

/// The candidate stands for one of the buffers `ids`.
pub open spec fn completes_to_one(
    c: Cand,
    ids: Seq<u64>,
    prefix: Seq<char>,
    buffers: Map<u64, Buffer>,
    opened: Seq<u64>,
) -> bool {
    exists|i: int|
        0 <= i < ids.len() && completes_to(
            c,
            buffers[#[trigger] ids[i]],
            prefix,
            buffers,
            opened,
        )
}

/// One of the candidates stands for the buffer.
pub open spec fn one_completes_to(
    cs: Seq<Cand>,
    b: Buffer,
    prefix: Seq<char>,
    buffers: Map<u64, Buffer>,
    opened: Seq<u64>,
) -> bool {
    exists|j: int| 0 <= j < cs.len() && completes_to(#[trigger] cs[j], b, prefix, buffers, opened)
}

proof fn lemma_buffer_cand(
    b: Buffer,
    prefix: Seq<char>,
    buffers: Map<u64, Buffer>,
    opened: Seq<u64>,
    home: Option<Seq<char>>,
)
    requires
        prefix.is_prefix_of(b.spec_display_name()),
    ensures
        completes_to(
            buffer_cand(b, named_so(buffers, opened, b.spec_display_name()) >= 2, home),
            b,
            prefix,
            buffers,
            opened,
        ),
{
    let base = b.spec_display_name();
    law_buffers_of_one_name(buffers, opened, base);
    let c = buffer_cand(b, named_so(buffers, opened, base) >= 2, home);
    assert(c.display.take(base.len() as int) =~= base);
}

proof fn lemma_buffer_cands(
    buffers: Map<u64, Buffer>,
    opened: Seq<u64>,
    ids: Seq<u64>,
    prefix: Seq<char>,
    home: Option<Seq<char>>,
)
    ensures
        ({
            let cs = buffer_cands(buffers, opened, ids, prefix, home);
            &&& cs.len() <= ids.len()
            &&& forall|j: int|
                0 <= j < cs.len() ==> completes_to_one(
                    #[trigger] cs[j],
                    ids,
                    prefix,
                    buffers,
                    opened,
                )
            &&& forall|i: int|
                0 <= i < ids.len() && prefix.is_prefix_of(
                    buffers[#[trigger] ids[i]].spec_display_name(),
                ) ==> one_completes_to(cs, buffers[ids[i]], prefix, buffers, opened)
        }),
    decreases ids.len(),
{
    let cs = buffer_cands(buffers, opened, ids, prefix, home);
    if ids.len() > 0 {
        let rest = ids.drop_last();
        let before = buffer_cands(buffers, opened, rest, prefix, home);
        let b = buffers[ids.last()];
        let base = b.spec_display_name();
        lemma_buffer_cands(buffers, opened, rest, prefix, home);
        if prefix.is_prefix_of(base) {
            lemma_buffer_cand(b, prefix, buffers, opened, home);
        }
        assert(ids[ids.len() - 1] == ids.last());
        assert forall|j: int| 0 <= j < cs.len() implies completes_to_one(
            #[trigger] cs[j],
            ids,
            prefix,
            buffers,
            opened,
        ) by {
            if j < before.len() {
                assert(cs[j] == before[j]);
                assert(completes_to_one(before[j], rest, prefix, buffers, opened));
                let i = choose|i: int|
                    0 <= i < rest.len() && completes_to(
                        before[j],
                        buffers[#[trigger] rest[i]],
                        prefix,
                        buffers,
                        opened,
                    );
                assert(ids[i] == rest[i]);
            }
        }
        assert forall|i: int|
            0 <= i < ids.len() && prefix.is_prefix_of(
                buffers[#[trigger] ids[i]].spec_display_name(),
            ) implies one_completes_to(cs, buffers[ids[i]], prefix, buffers, opened) by {
            if i < rest.len() {
                assert(rest[i] == ids[i]);
                assert(one_completes_to(before, buffers[rest[i]], prefix, buffers, opened));
                let j = choose|j: int|
                    0 <= j < before.len() && completes_to(
                        #[trigger] before[j],
                        buffers[rest[i]],
                        prefix,
                        buffers,
                        opened,
                    );
                assert(cs[j] == before[j]);
            } else {
                let c = cs[cs.len() - 1];
                assert(completes_to(c, b, prefix, buffers, opened));
            }
        }
    }
}

/// Every candidate for the name of a buffer stands for an open buffer whose name starts with the
/// argument, every such buffer has a candidate, and there are no more candidates than buffers.
pub proof fn law_buffer_candidates(
    buffers: Map<u64, Buffer>,
    opened: Seq<u64>,
    prefix: Seq<char>,
    home: Option<Seq<char>>,
)
    ensures
        ({
            let cs = in_display_order(buffer_cands(buffers, opened, opened, prefix, home));
            &&& cs.len() <= opened.len()
            &&& forall|j: int|
                0 <= j < cs.len() ==> completes_to_one(
                    #[trigger] cs[j],
                    opened,
                    prefix,
                    buffers,
                    opened,
                )
            &&& forall|i: int|
                0 <= i < opened.len() && prefix.is_prefix_of(
                    buffers[#[trigger] opened[i]].spec_display_name(),
                ) ==> one_completes_to(cs, buffers[opened[i]], prefix, buffers, opened)
        }),
{
    let raw = buffer_cands(buffers, opened, opened, prefix, home);
    let cs = in_display_order(raw);
    law_display_order(raw);
    lemma_buffer_cands(buffers, opened, opened, prefix, home);
    lemma_same_elements(cs, raw);
    assert forall|j: int| 0 <= j < cs.len() implies completes_to_one(
        #[trigger] cs[j],
        opened,
        prefix,
        buffers,
        opened,
    ) by {
        assert(raw.contains(cs[j]));
        let q = choose|q: int| 0 <= q < raw.len() && raw[q] == cs[j];
        assert(completes_to_one(raw[q], opened, prefix, buffers, opened));
    }
    assert forall|i: int|
        0 <= i < opened.len() && prefix.is_prefix_of(
            buffers[#[trigger] opened[i]].spec_display_name(),
        ) implies one_completes_to(cs, buffers[opened[i]], prefix, buffers, opened) by {
        assert(one_completes_to(raw, buffers[opened[i]], prefix, buffers, opened));
        let q = choose|q: int|
            0 <= q < raw.len() && completes_to(
                #[trigger] raw[q],
                buffers[opened[i]],
                prefix,
                buffers,
                opened,
            );
        assert(cs.contains(raw[q]));
        let j = choose|j: int| 0 <= j < cs.len() && cs[j] == raw[q];
        assert(completes_to(cs[j], buffers[opened[i]], prefix, buffers, opened));
    }
}

/// Where two open buffers have the same name, the directory of a file tells them apart: it is
/// shown behind the name.
pub proof fn law_shared_names_show_the_directory(b: Buffer, home: Option<Seq<char>>)
    requires
        b.spec_path() is Some,
        parent_dir(b.spec_path()->0@, b.spec_path()->0.separators) is Some,
    ensures
        ({
            let p = b.spec_path()->0;
            let d = parent_dir(p@, p.separators)->0;
            let shown = buffer_cand(b, true, home).display;
            let base = b.spec_display_name();
            &&& shown == base + seq![' ', ' ', '('] + short_path(d, home, p.separators) + seq!['/', ')']
            &&& buffer_cand(b, false, home).display == base
        }),
{
    reveal_strlit("  (");
    reveal_strlit("/)");
    assert("  ("@ =~= seq![' ', ' ', '(']);
    assert("/)"@ =~= seq!['/', ')']);
}

/// The user's own directory, and what lies in it, is written with `~`; any other path, also one
/// whose text only happens to begin alike, is written out.
pub proof fn law_home_is_shortened(
    home: Seq<char>,
    rest: Seq<char>,
    p: Seq<char>,
    s: Separators,
)
    requires
        home.len() > 0,
    ensures
        short_path(home, Some(home), s) == seq!['~'],
        short_path(home.push('/') + rest, Some(home), s) == seq!['~', '/'] + rest,
        short_path(p, None, s) == p,
        !home.is_prefix_of(p) ==> short_path(p, Some(home), s) == p,
        p.len() > home.len() && !s.separates(p[home.len() as int]) ==> short_path(
            p,
            Some(home),
            s,
        ) == p,
{
    let q = home.push('/') + rest;
    assert(q.len() > home.len());
    assert(q != home);
    assert(home.is_prefix_of(q)) by {
        assert(q.take(home.len() as int) =~= home);
    }
    assert(seq!['~'] + q.skip(home.len() as int) =~= seq!['~', '/'] + rest);
    assert(home.is_prefix_of(home));
}

/// The directory that holds `name` inside `dir` is `dir`, where neither names a drive and the
/// name holds no separator.
pub proof fn law_parent_of_a_name(dir: Seq<char>, name: Seq<char>, s: Separators)
    requires
        dir.len() > 0,
        name.len() > 0,
        s.drive_len(dir.push('/') + name) == 0,
        forall|i: int| 0 <= i < name.len() ==> !s.separates(#[trigger] name[i]),
    ensures
        parent_dir(dir.push('/') + name, s) == Some(dir),
        s.drive_len(name) == 0 ==> parent_dir(name, s) == Some(Seq::<char>::empty()),
{
    let p = dir.push('/') + name;
    assert(p.skip(0) =~= p);
    lemma_last_in(s, p);
    let i = s.last_in(p);
    let n = dir.len() as int;
    assert(s.separates(p[n]));
    if i > n {
        assert(p[i] == name[i - n - 1]);
    }
    assert(i == n);
    assert(p.take(n) =~= dir);
    lemma_last_in(s, name);
    assert(name.skip(0) =~= name);
    if s.last_in(name) >= 0 {
        assert(s.separates(name[s.last_in(name)]));
    }
    assert(name.take(0) =~= Seq::<char>::empty());
}

/// A relative directory is looked for in the working directory, an absolute one is taken as it
/// is, and no directory at all means the working directory.
pub proof fn law_directories_are_seen_from_the_working_directory(
    dir: Seq<char>,
    cwd: Seq<char>,
)
    requires
        cwd.len() > 0,
        cwd.last() != '/',
        dir.len() > 0,
    ensures
        directory_for(Seq::empty(), cwd, Separators::Slash) == cwd,
        dir[0] == '/' ==> directory_for(dir, cwd, Separators::Slash) == dir,
        dir[0] != '/' ==> directory_for(dir, cwd, Separators::Slash) == cwd + seq!['/'] + dir,
{
    if dir[0] != '/' {
        assert(cwd.push('/') + dir =~= cwd + seq!['/'] + dir);
    }
}

} // verus!

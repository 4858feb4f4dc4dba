//! The one-line input at the bottom of the screen, for commands and search patterns.

use crate::keys::{KeyCode, KeyEvent};
use crate::paths::Separators;
use crate::strings::{
    byte_len, char_len_utf8, chars_of, is_whitespace, lemma_byte_len_bounds, lemma_byte_len_concat,
    string_of_range, whitespace,
};
use unicode_segmentation::UnicodeSegmentation;
use unicode_width::{UnicodeWidthChar, UnicodeWidthStr};
use vstd::prelude::*;
use vstd::string::*;

verus! {

/// The extended grapheme clusters of a text, as `UnicodeSegmentation::graphemes` gives
/// them.
pub uninterp spec fn grapheme_clusters(s: Seq<char>) -> Seq<Seq<char>>;

/// All parts in a row.
pub open spec fn joined(parts: Seq<Seq<char>>) -> Seq<char>
    decreases parts.len(),
{
    if parts.len() == 0 {
        Seq::empty()
    } else {
        joined(parts.drop_last()) + parts.last()
    }
}

/// Clusters in a row, from `a` up to `b`, are again the clusters of what they make up.
pub open spec fn cut_alike(parts: Seq<Seq<char>>) -> bool {
    forall|a: int, b: int|
        0 <= a <= b <= parts.len() ==> grapheme_clusters(
            joined(#[trigger] parts.subrange(a, b)),
        ) == parts.subrange(a, b)
}

/// `UnicodeSegmentation::graphemes` cuts a text into its extended grapheme clusters. None
/// of them is empty, and in a row they are the text. A part of the text that begins and
/// ends between clusters is cut in the same places: whether there is a boundary depends on
/// the character behind it and on the cluster before it, and for regional indicators on how
/// many of them, two to a cluster, come before.
#[verifier::external_body]
pub(crate) fn graphemes(s: &str) -> (r: Vec<String>)
    ensures
        r@.map_values(|g: String| g@) == grapheme_clusters(s@),
        joined(r@.map_values(|g: String| g@)) == s@,
        forall|i: int| 0 <= i < r@.len() ==> (#[trigger] r@[i])@.len() > 0,
        cut_alike(r@.map_values(|g: String| g@)),
{
    s.graphemes(true).map(|g| g.to_string()).collect()
}

/// The columns that a text takes on the screen, as `UnicodeWidthStr::width` counts them.
pub uninterp spec fn display_width(s: Seq<char>) -> nat;

/// `UnicodeWidthStr::width`, under the name [`display_width`].
#[verifier::external_body]
fn str_width(s: &str) -> (r: usize)
    ensures
        r == display_width(s@),
{
    UnicodeWidthStr::width(s)
}

/// The columns that a character takes, as `UnicodeWidthChar::width` counts them; `None`
/// for a control character.
pub uninterp spec fn char_display_width(c: char) -> Option<usize>;

/// `UnicodeWidthChar::width`, under the name [`char_display_width`].
#[verifier::external_body]
fn char_width(c: char) -> (r: Option<usize>)
    ensures
        r == char_display_width(c),
{
    UnicodeWidthChar::width(c)
}

/// Byte offset `b` lies between two characters of `s`, of which `k` come before it.
pub open spec fn splits_at(s: Seq<char>, b: nat, k: int) -> bool {
    0 <= k <= s.len() && byte_len(s.take(k)) == b
}

/// Byte offset `b` does not fall inside a character of `s`.
pub open spec fn on_boundary(s: Seq<char>, b: nat) -> bool {
    exists|k: int| splits_at(s, b, k)
}

/// How many characters of `s` come before byte offset `b`.
pub open spec fn chars_before(s: Seq<char>, b: nat) -> int {
    choose|k: int| splits_at(s, b, k)
}

/// More characters take more bytes.
pub proof fn lemma_byte_len_monotonic(s: Seq<char>, j: int, k: int)
    requires
        0 <= j <= k <= s.len(),
    ensures
        byte_len(s.take(j)) <= byte_len(s.take(k)),
        j < k ==> byte_len(s.take(j)) < byte_len(s.take(k)),
{
    let mid = s.subrange(j, k);
    assert(s.take(j) + mid =~= s.take(k));
    lemma_byte_len_concat(s.take(j), mid);
    lemma_byte_len_bounds(mid);
}

/// At most one number of characters comes before a byte offset.
pub proof fn lemma_split_unique(s: Seq<char>, b: nat, k: int)
    requires
        splits_at(s, b, k),
    ensures
        on_boundary(s, b),
        chars_before(s, b) == k,
{
    let m = chars_before(s, b);
    assert(splits_at(s, b, m));
    if m < k {
        lemma_byte_len_monotonic(s, m, k);
    } else if k < m {
        lemma_byte_len_monotonic(s, k, m);
    }
}

/// How many of `chars` come before byte offset `b`.
fn split_point(chars: &Vec<char>, b: usize) -> (k: usize)
    requires
        on_boundary(chars@, b as nat),
    ensures
        k == chars_before(chars@, b as nat),
        splits_at(chars@, b as nat, k as int),
{
    let mut bytes: usize = 0;
    let mut k: usize = 0;
    let n = chars.len();
    let ghost goal = chars_before(chars@, b as nat);
    assert(splits_at(chars@, b as nat, goal));
    assert(chars@.take(0) =~= Seq::<char>::empty());
    while bytes < b
        invariant
            splits_at(chars@, b as nat, goal),
            k <= goal <= chars@.len(),
            n == chars@.len(),
            bytes == byte_len(chars@.take(k as int)),
            bytes <= b,
        decreases b - bytes,
    {
        proof {
            if k == goal {
                assert(false);
            }
            assert(chars@.take(k + 1).drop_last() =~= chars@.take(k as int));
            lemma_byte_len_monotonic(chars@, k + 1, goal);
        }
        bytes = bytes + char_len_utf8(chars[k]);
        k = k + 1;
    }
    proof {
        lemma_split_unique(chars@, b as nat, k as int);
    }
    k
}

/// The number of bytes of `chars[..to]`.
pub(crate) fn bytes_of(chars: &Vec<char>, to: usize) -> (b: usize)
    requires
        to <= chars@.len(),
        byte_len(chars@.take(to as int)) <= usize::MAX,
    ensures
        b == byte_len(chars@.take(to as int)),
{
    let mut bytes: usize = 0;
    let mut k: usize = 0;
    assert(chars@.take(0) =~= Seq::<char>::empty());
    while k < to
        invariant
            k <= to <= chars@.len(),
            bytes == byte_len(chars@.take(k as int)),
            byte_len(chars@.take(to as int)) <= usize::MAX,
        decreases to - k,
    {
        proof {
            assert(chars@.take(k + 1).drop_last() =~= chars@.take(k as int));
            lemma_byte_len_monotonic(chars@, k + 1, to as int);
        }
        bytes = bytes + char_len_utf8(chars[k]);
        k = k + 1;
    }
    bytes
}

/// `p` without its last grapheme cluster.
pub open spec fn without_last_cluster(p: Seq<char>) -> Seq<char> {
    p.take(p.len() - grapheme_clusters(p).last().len())
}

/// The number of characters of `chars[..k]` without their last grapheme cluster.
fn cluster_start(chars: &Vec<char>, k: usize) -> (r: usize)
    requires
        k <= chars@.len(),
    ensures
        k == 0 ==> r == 0,
        k > 0 ==> {
            let p = chars@.take(k as int);
            &&& r < k
            &&& chars@.take(r as int) == without_last_cluster(p)
            &&& chars@.subrange(r as int, k as int) == grapheme_clusters(p).last()
            &&& 0 < grapheme_clusters(p).last().len() <= p.len()
        },
{
    if k == 0 {
        return 0;
    }
    let prefix = string_of_range(chars, 0, k);
    let ghost p = chars@.take(k as int);
    assert(prefix@ =~= p);
    let clusters = graphemes(prefix.as_str());
    let ghost cv = clusters@.map_values(|g: String| g@);
    proof {
        if cv.len() == 0 {
            assert(joined(cv) =~= Seq::<char>::empty());
            assert(p.len() == 0);
        }
    }
    let last = chars_of(clusters[clusters.len() - 1].as_str());
    assert(last@ == cv.last());
    assert(p == joined(cv.drop_last()) + cv.last());
    let r = k - last.len();
    assert(chars@.take(r as int) =~= without_last_cluster(p));
    assert(chars@.subrange(r as int, k as int) =~= p.skip(r as int));
    assert(p.skip(r as int) =~= cv.last());
    r
}

/// The byte offset at which the cluster before byte offset `b` begins.
pub open spec fn step_back(s: Seq<char>, b: nat) -> nat {
    let p = s.take(chars_before(s, b));
    if p.len() == 0 {
        0
    } else {
        byte_len(without_last_cluster(p))
    }
}

/// The byte offset behind the cluster that begins at byte offset `b`.
pub open spec fn step_on(s: Seq<char>, b: nat) -> nat {
    let rest = s.skip(chars_before(s, b));
    if b >= byte_len(s) || rest.len() == 0 {
        byte_len(s)
    } else {
        b + byte_len(grapheme_clusters(rest)[0])
    }
}

/// The first `m` clusters of `s` take `b` bytes.
pub open spec fn clusters_end_at(s: Seq<char>, m: int, b: nat) -> bool {
    &&& 0 <= m <= grapheme_clusters(s).len()
    &&& byte_len(joined(grapheme_clusters(s).take(m))) == b
}

/// Byte offset `b` lies between two clusters of `s`, or at one of its ends.
pub open spec fn between_clusters(s: Seq<char>, b: nat) -> bool {
    exists|m: int| clusters_end_at(s, m, b)
}

/// The byte offset at which the grapheme cluster before `cursor` begins; 0 at the start.
pub fn prev_grapheme(s: &str, cursor: usize) -> (r: usize)
    requires
        on_boundary(s@, cursor as nat),
    ensures
        r == step_back(s@, cursor as nat),
        r <= cursor,
        cursor > 0 ==> r < cursor,
        on_boundary(s@, r as nat),
{
    let chars = chars_of(s);
    let k = split_point(&chars, cursor);
    let j = cluster_start(&chars, k);
    proof {
        lemma_byte_len_monotonic(s@, j as int, k as int);
        assert(s@.take(0) =~= Seq::<char>::empty());
        if cursor > 0 && k == 0 {
            assert(byte_len(s@.take(0)) == 0);
        }
    }
    let b = bytes_of(&chars, j);
    assert(splits_at(s@, b as nat, j as int));
    b
}

/// The number of characters up to the end of the grapheme cluster that begins behind
/// `chars[..k]`.
fn cluster_end(chars: &Vec<char>, k: usize) -> (r: usize)
    requires
        k < chars@.len(),
    ensures
        k < r <= chars@.len(),
        chars@.subrange(k as int, r as int) == grapheme_clusters(chars@.skip(k as int))[0],
{
    let n = chars.len();
    let suffix = string_of_range(chars, k, n);
    let ghost rest = chars@.skip(k as int);
    assert(suffix@ =~= rest);
    let clusters = graphemes(suffix.as_str());
    let ghost cv = clusters@.map_values(|g: String| g@);
    proof {
        if cv.len() == 0 {
            assert(joined(cv) =~= Seq::<char>::empty());
        }
        lemma_joined_first(cv);
    }
    let first = chars_of(clusters[0].as_str());
    assert(first@ == cv[0]);
    assert(clusters@[0]@.len() > 0);
    let r = k + first.len();
    assert(chars@.subrange(k as int, r as int) =~= rest.take(cv[0].len() as int));
    r
}

/// What a row of parts makes up falls in two behind any of them.
pub proof fn lemma_joined_split(parts: Seq<Seq<char>>, m: int)
    requires
        0 <= m <= parts.len(),
    ensures
        joined(parts) == joined(parts.take(m)) + joined(parts.skip(m)),
    decreases parts.len(),
{
    if m == parts.len() {
        assert(parts.take(m) =~= parts);
        assert(joined(parts.skip(m)) =~= Seq::<char>::empty());
        assert(joined(parts) =~= joined(parts.take(m)) + joined(parts.skip(m)));
    } else {
        let d = parts.drop_last();
        lemma_joined_split(d, m);
        assert(d.take(m) =~= parts.take(m));
        assert(d.skip(m) =~= parts.skip(m).drop_last());
        assert(joined(parts) =~= joined(parts.take(m)) + joined(parts.skip(m)));
    }
}

/// One part more.
pub proof fn lemma_joined_step(parts: Seq<Seq<char>>, m: int)
    requires
        0 <= m < parts.len(),
    ensures
        joined(parts.take(m + 1)) == joined(parts.take(m)) + parts[m],
{
    assert(parts.take(m + 1).drop_last() =~= parts.take(m));
}

/// Which of `parts` begins behind `k` characters, where one does.
fn part_at(parts: &Vec<String>, k: usize) -> (r: Option<usize>)
    requires
        joined(parts@.map_values(|g: String| g@)).len() <= usize::MAX,
    ensures
        ({
            let v = parts@.map_values(|g: String| g@);
            match r {
                Some(m) => m < v.len() && joined(v.take(m as int)).len() == k,
                None => forall|m: int|
                    0 <= m < v.len() ==> (#[trigger] joined(v.take(m))).len() != k,
            }
        }),
{
    let ghost v = parts@.map_values(|g: String| g@);
    let n = parts.len();
    let mut at: usize = 0;
    let mut m: usize = 0;
    while m < n
        invariant
            m <= n == parts@.len(),
            v == parts@.map_values(|g: String| g@),
            joined(v).len() <= usize::MAX,
            at == joined(v.take(m as int)).len(),
            forall|i: int| 0 <= i < m ==> (#[trigger] joined(v.take(i))).len() != k,
        decreases n - m,
    {
        if at == k {
            return Some(m);
        }
        let part = chars_of(parts[m].as_str());
        proof {
            assert(part@ == v[m as int]);
            lemma_joined_step(v, m as int);
            lemma_joined_split(v, m + 1);
        }
        at = at + part.len();
        m = m + 1;
    }
    None
}

/// The cluster behind the first `m` clusters of `s` is the first of what follows them, and
/// the last of what ends with it.
proof fn lemma_cluster_between(s: Seq<char>, m: int)
    requires
        joined(grapheme_clusters(s)) == s,
        cut_alike(grapheme_clusters(s)),
        0 <= m < grapheme_clusters(s).len(),
    ensures
        ({
            let v = grapheme_clusters(s);
            let k = joined(v.take(m)).len() as int;
            let j = k + v[m].len();
            &&& j <= s.len()
            &&& s.take(k) == joined(v.take(m))
            &&& s.take(j) == joined(v.take(m + 1))
            &&& grapheme_clusters(s.skip(k))[0] == v[m]
            &&& without_last_cluster(s.take(j)) == s.take(k)
        }),
{
    let v = grapheme_clusters(s);
    let k = joined(v.take(m)).len() as int;
    let j = k + v[m].len();
    let n = v.len() as int;
    lemma_joined_split(v, m);
    lemma_joined_split(v, m + 1);
    lemma_joined_step(v, m);
    assert(s.take(k) =~= joined(v.take(m)));
    assert(s.skip(k) =~= joined(v.skip(m)));
    assert(s.take(j) =~= joined(v.take(m + 1)));
    assert(v.subrange(m, n) =~= v.skip(m));
    assert(v.subrange(0, m + 1) =~= v.take(m + 1));
    assert(without_last_cluster(s.take(j)) =~= s.take(k));
}

/// The byte offset behind the grapheme cluster at `cursor`; the length where there is none,
/// and for a cursor past the end. Where the cursor stands between clusters, so does the
/// offset, and the step back from it leads to the cursor.
pub fn next_grapheme(s: &str, cursor: usize) -> (r: usize)
    requires
        cursor >= byte_len(s@) || on_boundary(s@, cursor as nat),
        byte_len(s@) <= usize::MAX,
    ensures
        r == step_on(s@, cursor as nat),
        cursor >= byte_len(s@) ==> r == byte_len(s@),
        cursor < byte_len(s@) ==> cursor < r <= byte_len(s@),
        on_boundary(s@, r as nat),
        cursor < byte_len(s@) && between_clusters(s@, cursor as nat) ==> between_clusters(
            s@,
            r as nat,
        ) && step_back(s@, r as nat) == cursor,
{
    let chars = chars_of(s);
    let n = chars.len();
    assert(s@.take(n as int) =~= s@);
    let total = bytes_of(&chars, n);
    if cursor >= total {
        assert(splits_at(s@, total as nat, n as int));
        return total;
    }
    let k = split_point(&chars, cursor);
    let clusters = graphemes(s);
    let ghost v = clusters@.map_values(|g: String| g@);
    proof {
        lemma_byte_len_bounds(s@);
        if between_clusters(s@, cursor as nat) {
            let m = choose|m: int| clusters_end_at(s@, m, cursor as nat);
            lemma_joined_split(v, m);
            assert(s@.take(joined(v.take(m)).len() as int) =~= joined(v.take(m)));
            lemma_split_unique(s@, cursor as nat, joined(v.take(m)).len() as int);
            if m == v.len() {
                assert(v.take(m) =~= v);
            }
            assert(joined(v.take(m)).len() == k);
        }
    }
    let j = match part_at(&clusters, k) {
        Some(m) => {
            let part = chars_of(clusters[m].as_str());
            proof {
                assert(part@ == v[m as int]);
                assert(clusters@[m as int]@.len() > 0);
                lemma_cluster_between(s@, m as int);
                let j = k + part@.len();
                lemma_split_unique(s@, byte_len(s@.take(j)), j);
                assert(clusters_end_at(s@, m + 1, byte_len(s@.take(j))));
            }
            k + part.len()
        },
        None => cluster_end(&chars, k),
    };
    let ghost first = grapheme_clusters(s@.skip(k as int))[0];
    proof {
        assert(s@.take(j as int) =~= s@.take(k as int) + first);
        lemma_byte_len_concat(s@.take(k as int), first);
        lemma_byte_len_monotonic(s@, j as int, n as int);
        lemma_byte_len_monotonic(s@, k as int, j as int);
    }
    let b = bytes_of(&chars, j);
    assert(splits_at(s@, b as nat, j as int));
    b
}

proof fn lemma_joined_first(parts: Seq<Seq<char>>)
    requires
        parts.len() > 0,
    ensures
        parts[0].len() <= joined(parts).len(),
        joined(parts).take(parts[0].len() as int) == parts[0],
    decreases parts.len(),
{
    if parts.len() == 1 {
        assert(parts.drop_last() =~= Seq::<Seq<char>>::empty());
        assert(joined(parts) =~= parts[0]);
        assert(joined(parts).take(parts[0].len() as int) =~= parts[0]);
    } else {
        lemma_joined_first(parts.drop_last());
        assert(joined(parts).take(parts[0].len() as int) =~= joined(parts.drop_last()).take(
            parts[0].len() as int,
        ));
    }
}

/// `c` separates words and path components.
pub open spec fn separator(c: char, s: Separators) -> bool {
    whitespace(c) || s.separates(c)
}

/// All of `c` separates.
pub open spec fn all_separators(c: Seq<char>, s: Separators) -> bool {
    forall|i: int| 0 <= i < c.len() ==> separator(#[trigger] c[i], s)
}

/// `p` without the clusters at its end that are separators, or without those that are
/// not.
pub open spec fn trimmed_clusters(p: Seq<char>, separating: bool, s: Separators) -> Seq<char>
    decreases p.len(),
{
    let c = grapheme_clusters(p).last();
    if p.len() > 0 && 0 < c.len() <= p.len() && all_separators(c, s) == separating {
        trimmed_clusters(without_last_cluster(p), separating, s)
    } else {
        p
    }
}

/// `p` without the word at its end and the separators behind it.
pub open spec fn without_last_word(p: Seq<char>, s: Separators) -> Seq<char> {
    trimmed_clusters(trimmed_clusters(p, true, s), false, s)
}

fn all_sep(chars: &Vec<char>, from: usize, to: usize, separators: Separators) -> (r: bool)
    requires
        from <= to <= chars@.len(),
    ensures
        r == all_separators(chars@.subrange(from as int, to as int), separators),
{
    let ghost part = chars@.subrange(from as int, to as int);
    let mut i: usize = from;
    while i < to
        invariant
            from <= i <= to <= chars@.len(),
            part == chars@.subrange(from as int, to as int),
            forall|j: int| 0 <= j < i - from ==> separator(#[trigger] part[j], separators),
        decreases to - i,
    {
        let c = chars[i];
        assert(part[i - from] == c);
        if !(is_whitespace(c) || separators.is_separator(c)) {
            assert(!separator(part[i - from], separators));
            return false;
        }
        i = i + 1;
    }
    true
}

fn trim_clusters(chars: &Vec<char>, k: usize, separating: bool, separators: Separators) -> (r:
    usize)
    requires
        k <= chars@.len(),
    ensures
        r <= k,
        chars@.take(r as int) == trimmed_clusters(chars@.take(k as int), separating, separators),
{
    let mut i: usize = k;
    while i > 0
        invariant
            i <= k <= chars@.len(),
            trimmed_clusters(chars@.take(i as int), separating, separators) == trimmed_clusters(
                chars@.take(k as int),
                separating,
                separators,
            ),
        ensures
            i <= k,
            chars@.take(i as int) == trimmed_clusters(chars@.take(k as int), separating, separators),
        decreases i,
    {
        let j = cluster_start(chars, i);
        if all_sep(chars, j, i, separators) == separating {
            i = j;
        } else {
            break;
        }
    }
    i
}

/// Where deleting a word backwards from `cursor` begins: separators before the cursor go
/// first, then one run of anything else. A path loses one component at a time.
pub fn word_boundary_back(s: &str, cursor: usize, separators: Separators) -> (r: usize)
    requires
        on_boundary(s@, cursor as nat),
    ensures
        r == byte_len(without_last_word(s@.take(chars_before(s@, cursor as nat)), separators)),
        r <= cursor,
        on_boundary(s@, r as nat),
{
    let chars = chars_of(s);
    let k = split_point(&chars, cursor);
    let i = trim_clusters(&chars, k, true, separators);
    let j = trim_clusters(&chars, i, false, separators);
    proof {
        lemma_byte_len_monotonic(s@, j as int, k as int);
    }
    let b = bytes_of(&chars, j);
    assert(splits_at(s@, b as nat, j as int));
    b
}

/// What one key did to the input.
#[derive(Debug)]
pub enum MiniBufferEvent {
    /// The input is to be closed.
    Cancel,
    /// The input was confirmed; it is not empty.
    Confirm(String),
    /// An empty input was confirmed.
    ConfirmEmpty,
    /// The text changed, and is not empty.
    Edited,
    /// Deleting a word left the input empty.
    EmptiedByWord,
    /// Backspace left the input empty, or found nothing to delete before the cursor.
    EmptiedByBackspace,
    /// Backspace on an input that was already empty.
    BackspaceOnEmpty,
    CursorMoved,
    CompleteRequested { reverse: bool },
    HistoryPrev,
    HistoryNext,
    Ignored,
}

/// The input line.
#[derive(Debug)]
pub struct MiniBuffer {
    /// Shown before the input, and tells what it is for.
    pub prompt: char,
    pub input: String,
    /// The byte offset of the cursor.
    pub cursor: usize,
}

/// An input line as a value: what stands before the cursor and what behind it.
#[verifier::ext_equal]
pub struct Line {
    pub prompt: char,
    pub before: Seq<char>,
    pub after: Seq<char>,
}

impl View for MiniBuffer {
    type V = Line;

    open spec fn view(&self) -> Line {
        let k = chars_before(self.input@, self.cursor as nat);
        Line { prompt: self.prompt, before: self.input@.take(k), after: self.input@.skip(k) }
    }
}

/// What a key does to a line.
pub enum LineEvent {
    Cancel,
    Confirm(Seq<char>),
    ConfirmEmpty,
    Edited,
    EmptiedByWord,
    EmptiedByBackspace,
    BackspaceOnEmpty,
    CursorMoved,
    CompleteRequested(bool),
    HistoryPrev,
    HistoryNext,
    Ignored,
}

impl View for MiniBufferEvent {
    type V = LineEvent;

    open spec fn view(&self) -> LineEvent {
        match self {
            MiniBufferEvent::Cancel => LineEvent::Cancel,
            MiniBufferEvent::Confirm(s) => LineEvent::Confirm(s@),
            MiniBufferEvent::ConfirmEmpty => LineEvent::ConfirmEmpty,
            MiniBufferEvent::Edited => LineEvent::Edited,
            MiniBufferEvent::EmptiedByWord => LineEvent::EmptiedByWord,
            MiniBufferEvent::EmptiedByBackspace => LineEvent::EmptiedByBackspace,
            MiniBufferEvent::BackspaceOnEmpty => LineEvent::BackspaceOnEmpty,
            MiniBufferEvent::CursorMoved => LineEvent::CursorMoved,
            MiniBufferEvent::CompleteRequested { reverse } => LineEvent::CompleteRequested(
                *reverse,
            ),
            MiniBufferEvent::HistoryPrev => LineEvent::HistoryPrev,
            MiniBufferEvent::HistoryNext => LineEvent::HistoryNext,
            MiniBufferEvent::Ignored => LineEvent::Ignored,
        }
    }
}

impl Line {
    pub open spec fn text(self) -> Seq<char> {
        self.before + self.after
    }

    /// The line with the cursor before the cluster that was before it.
    pub open spec fn moved_left(self) -> Line {
        let b = if self.before.len() == 0 {
            self.before
        } else {
            without_last_cluster(self.before)
        };
        Line { before: b, after: self.text().skip(b.len() as int), ..self }
    }

    /// The line with the cursor behind the cluster that was behind it.
    pub open spec fn moved_right(self) -> Line {
        let n = if self.after.len() == 0 {
            0
        } else {
            grapheme_clusters(self.after)[0].len()
        };
        Line {
            before: self.before + self.after.take(n as int),
            after: self.after.skip(n as int),
            ..self
        }
    }

    /// The line after `key`, and what the key did.
    pub open spec fn pressed(self, key: KeyEvent, separators: Separators) -> (Line, LineEvent) {
        match key.code {
            KeyCode::Esc => (self, LineEvent::Cancel),
            KeyCode::Enter => (
                self,
                if self.text().len() == 0 {
                    LineEvent::ConfirmEmpty
                } else {
                    LineEvent::Confirm(self.text())
                },
            ),
            KeyCode::Backspace => {
                if self.text().len() == 0 {
                    (self, LineEvent::BackspaceOnEmpty)
                } else if self.before.len() == 0 {
                    (self, LineEvent::EmptiedByBackspace)
                } else {
                    let l = Line { before: without_last_cluster(self.before), ..self };
                    (
                        l,
                        if l.text().len() == 0 {
                            LineEvent::EmptiedByBackspace
                        } else {
                            LineEvent::Edited
                        },
                    )
                }
            },
            KeyCode::Char(c) => {
                if !key.modifiers.control {
                    (Line { before: self.before.push(c), ..self }, LineEvent::Edited)
                } else if c == 'c' {
                    (self, LineEvent::Cancel)
                } else if c == 'w' {
                    let b = without_last_word(self.before, separators);
                    if b == self.before {
                        (self, LineEvent::Ignored)
                    } else {
                        let l = Line { before: b, ..self };
                        (
                            l,
                            if l.text().len() == 0 {
                                LineEvent::EmptiedByWord
                            } else {
                                LineEvent::Edited
                            },
                        )
                    }
                } else {
                    (self, LineEvent::Ignored)
                }
            },
            KeyCode::Left => (self.moved_left(), LineEvent::CursorMoved),
            KeyCode::Right => (self.moved_right(), LineEvent::CursorMoved),
            KeyCode::Tab => (self, LineEvent::CompleteRequested(false)),
            KeyCode::BackTab => (self, LineEvent::CompleteRequested(true)),
            KeyCode::Up => (self, LineEvent::HistoryPrev),
            KeyCode::Down => (self, LineEvent::HistoryNext),
            _ => (self, LineEvent::Ignored),
        }
    }
}

impl MiniBuffer {
    /// The cursor stands between two characters.
    pub open spec fn wf(&self) -> bool {
        on_boundary(self.input@, self.cursor as nat)
    }

    /// An empty input.
    pub fn new(prompt: char) -> (r: MiniBuffer)
        ensures
            r.wf(),
            r.prompt == prompt,
            r.input@ == Seq::<char>::empty(),
            r.cursor == 0,
            r@ == (Line { prompt, before: Seq::empty(), after: Seq::empty() }),
    {
        let r = MiniBuffer { prompt, input: String::new(), cursor: 0 };
        proof {
            assert(r.input@.take(0) =~= Seq::<char>::empty());
            lemma_split_unique(r.input@, 0, 0);
            assert(r@.before =~= Seq::<char>::empty());
            assert(r@.after =~= Seq::<char>::empty());
        }
        r
    }

    /// Replaces the input and puts the cursor at its end.
    pub fn set_input(&mut self, input: String)
        requires
            byte_len(input@) <= usize::MAX,
        ensures
            final(self).wf(),
            final(self).prompt == old(self).prompt,
            final(self).input@ == input@,
            final(self)@ == (Line {
                prompt: old(self).prompt,
                before: input@,
                after: Seq::empty(),
            }),
    {
        let chars = chars_of(input.as_str());
        assert(chars@.take(chars@.len() as int) =~= chars@);
        let b = bytes_of(&chars, chars.len());
        self.input = input;
        self.cursor = b;
        proof {
            lemma_split_unique(input@, b as nat, input@.len() as int);
            assert(self@.before =~= input@);
            assert(self@.after =~= Seq::<char>::empty());
        }
    }

    /// The screen column of the cursor: one column of padding, the prompt, and what
    /// stands before the cursor.
    pub fn statusline_cursor_col(&self) -> (r: u16)
        requires
            self.wf(),
            self.col() <= u16::MAX,
        ensures
            r == self.col(),
    {
        let chars = chars_of(self.input.as_str());
        let k = split_point(&chars, self.cursor);
        let before = string_of_range(&chars, 0, k);
        assert(before@ =~= self@.before);
        let prompt_w: usize = match char_width(self.prompt) {
            Some(w) => w,
            None => 1,
        };
        let input_w = str_width(before.as_str());
        (1 + prompt_w + input_w) as u16
    }

    /// The column of the cursor, of any size.
    pub open spec fn col(&self) -> nat {
        1 + (match char_display_width(self.prompt) {
            Some(w) => w as nat,
            None => 1nat,
        }) + display_width(self@.before)
    }

    /// The screen column of the cursor, where it fits.
    pub fn checked_cursor_col(&self) -> (r: Option<u16>)
        requires
            self.wf(),
        ensures
            match r {
                Some(c) => c == self.col(),
                None => self.col() > u16::MAX,
            },
    {
        let chars = chars_of(self.input.as_str());
        let k = split_point(&chars, self.cursor);
        let before = string_of_range(&chars, 0, k);
        assert(before@ =~= self@.before);
        let prompt_w: usize = match char_width(self.prompt) {
            Some(w) => w,
            None => 1,
        };
        let input_w = str_width(before.as_str());
        let limit: usize = u16::MAX as usize;
        if prompt_w >= limit || input_w > limit - 1 - prompt_w {
            return None;
        }
        Some(self.statusline_cursor_col())
    }

    /// Takes the characters from `j` up to `k` out, where `k` are before the cursor.
    fn delete_back(&mut self, chars: &Vec<char>, j: usize, k: usize)
        requires
            chars@ == old(self).input@,
            j <= k <= chars@.len(),
            splits_at(chars@, old(self).cursor as nat, k as int),
        ensures
            final(self).wf(),
            final(self).prompt == old(self).prompt,
            final(self).input@ == chars@.take(j as int) + chars@.skip(k as int),
            final(self)@ == (Line {
                before: chars@.take(j as int),
                after: chars@.skip(k as int),
                prompt: old(self).prompt,
            }),
    {
        proof {
            lemma_byte_len_monotonic(chars@, j as int, k as int);
        }
        let b = bytes_of(chars, j);
        let mut text = string_of_range(chars, 0, j);
        let tail = string_of_range(chars, k, chars.len());
        text.append(tail.as_str());
        self.input = text;
        self.cursor = b;
        proof {
            let s = self.input@;
            assert(s =~= chars@.take(j as int) + chars@.skip(k as int));
            assert(s.take(j as int) =~= chars@.take(j as int));
            assert(splits_at(s, b as nat, j as int));
            lemma_split_unique(s, b as nat, j as int);
            assert(self@.after =~= chars@.skip(k as int));
        }
    }

    /// Puts the cursor behind the first `j` characters.
    fn move_to(&mut self, chars: &Vec<char>, j: usize)
        requires
            chars@ == old(self).input@,
            j <= chars@.len(),
            byte_len(chars@) <= usize::MAX,
        ensures
            final(self).wf(),
            final(self).prompt == old(self).prompt,
            final(self).input == old(self).input,
            final(self)@ == (Line {
                before: chars@.take(j as int),
                after: chars@.skip(j as int),
                prompt: old(self).prompt,
            }),
    {
        proof {
            lemma_byte_len_monotonic(chars@, j as int, chars@.len() as int);
            assert(chars@.take(chars@.len() as int) =~= chars@);
        }
        self.cursor = bytes_of(chars, j);
        proof {
            lemma_split_unique(chars@, self.cursor as nat, j as int);
        }
    }

    /// Puts `ch` in at the cursor.
    fn insert_char(&mut self, chars: &Vec<char>, k: usize, ch: char)
        requires
            chars@ == old(self).input@,
            splits_at(chars@, old(self).cursor as nat, k as int),
            byte_len(chars@) + 4 <= usize::MAX,
        ensures
            final(self).wf(),
            final(self).prompt == old(self).prompt,
            final(self).input@ == chars@.take(k as int).push(ch) + chars@.skip(k as int),
            final(self)@ == (Line {
                before: chars@.take(k as int).push(ch),
                after: chars@.skip(k as int),
                prompt: old(self).prompt,
            }),
    {
        let ghost s = chars@;
        let mut text = string_of_range(chars, 0, k);
        text.push(ch);
        let tail = string_of_range(chars, k, chars.len());
        text.append(tail.as_str());
        self.input = text;
        proof {
            lemma_byte_len_monotonic(s, k as int, s.len() as int);
            assert(s.take(s.len() as int) =~= s);
        }
        self.cursor = self.cursor + char_len_utf8(ch);
        proof {
            let t = self.input@;
            assert(t =~= s.take(k as int).push(ch) + s.skip(k as int));
            assert(t.take(k + 1) =~= s.take(k as int).push(ch));
            assert(t.take(k + 1).drop_last() =~= s.take(k as int));
            assert(splits_at(t, self.cursor as nat, k + 1));
            lemma_split_unique(t, self.cursor as nat, k + 1);
            assert(self@.after =~= s.skip(k as int));
        }
    }

    fn press_enter(
        &self,
        Ghost(key): Ghost<KeyEvent>,
        Ghost(separators): Ghost<Separators>,
    ) -> (r: MiniBufferEvent)
        requires
            self.wf(),
            key.code is Enter,
        ensures
            self@ == self@.pressed(key, separators).0,
            r@ == self@.pressed(key, separators).1,
            self.input@ == self@.text(),
    {
        assert(self@.text() =~= self.input@);
        if self.input.as_str().is_empty() {
            MiniBufferEvent::ConfirmEmpty
        } else {
            MiniBufferEvent::Confirm(self.input.clone())
        }
    }

    fn press_backspace(
        &mut self,
        Ghost(key): Ghost<KeyEvent>,
        Ghost(separators): Ghost<Separators>,
    ) -> (r: MiniBufferEvent)
        requires
            old(self).wf(),
            byte_len(old(self).input@) + 4 <= usize::MAX,
            key.code is Backspace,
        ensures
            final(self).wf(),
            final(self).prompt == old(self).prompt,
            final(self)@ == old(self)@.pressed(key, separators).0,
            r@ == old(self)@.pressed(key, separators).1,
            final(self).input@ == final(self)@.text(),
    {
        let ghost line = self@;
        let ghost s = self.input@;
        let chars = chars_of(self.input.as_str());
        let k = split_point(&chars, self.cursor);
        assert(line.text() =~= s);
        if chars.len() == 0 {
            MiniBufferEvent::BackspaceOnEmpty
        } else if k == 0 {
            MiniBufferEvent::EmptiedByBackspace
        } else {
            let j = cluster_start(&chars, k);
            self.delete_back(&chars, j, k);
            if self.input.as_str().is_empty() {
                MiniBufferEvent::EmptiedByBackspace
            } else {
                MiniBufferEvent::Edited
            }
        }
    }

    fn press_char(&mut self, key: KeyEvent, ch: char, separators: Separators) -> (r: MiniBufferEvent)
        requires
            old(self).wf(),
            byte_len(old(self).input@) + 4 <= usize::MAX,
            key.code == KeyCode::Char(ch),
        ensures
            final(self).wf(),
            final(self).prompt == old(self).prompt,
            final(self)@ == old(self)@.pressed(key, separators).0,
            r@ == old(self)@.pressed(key, separators).1,
            final(self).input@ == final(self)@.text(),
    {
        let ghost line = self@;
        let ghost s = self.input@;
        let chars = chars_of(self.input.as_str());
        let k = split_point(&chars, self.cursor);
        assert(line.text() =~= s);
        if !key.modifiers.control {
            self.insert_char(&chars, k, ch);
            MiniBufferEvent::Edited
        } else if ch == 'c' {
            MiniBufferEvent::Cancel
        } else if ch == 'w' {
            let i = trim_clusters(&chars, k, true, separators);
            let j = trim_clusters(&chars, i, false, separators);
            assert(s.take(j as int) == without_last_word(line.before, separators));
            if j == k {
                MiniBufferEvent::Ignored
            } else {
                assert(s.take(j as int).len() != line.before.len());
                self.delete_back(&chars, j, k);
                if self.input.as_str().is_empty() {
                    MiniBufferEvent::EmptiedByWord
                } else {
                    MiniBufferEvent::Edited
                }
            }
        } else {
            MiniBufferEvent::Ignored
        }
    }

    fn press_left(
        &mut self,
        Ghost(key): Ghost<KeyEvent>,
        Ghost(separators): Ghost<Separators>,
    ) -> (r: MiniBufferEvent)
        requires
            old(self).wf(),
            byte_len(old(self).input@) + 4 <= usize::MAX,
            key.code is Left,
        ensures
            final(self).wf(),
            final(self).prompt == old(self).prompt,
            final(self)@ == old(self)@.pressed(key, separators).0,
            r@ == old(self)@.pressed(key, separators).1,
            final(self).input@ == final(self)@.text(),
    {
        let ghost line = self@;
        let ghost s = self.input@;
        let chars = chars_of(self.input.as_str());
        let k = split_point(&chars, self.cursor);
        assert(line.text() =~= s);
        let j = cluster_start(&chars, k);
        self.move_to(&chars, j);
        proof {
            assert(self@.text() =~= s);
            assert(self@.before =~= line.moved_left().before);
            assert(self@.after =~= line.moved_left().after);
        }
        MiniBufferEvent::CursorMoved
    }

    fn press_right(
        &mut self,
        Ghost(key): Ghost<KeyEvent>,
        Ghost(separators): Ghost<Separators>,
    ) -> (r: MiniBufferEvent)
        requires
            old(self).wf(),
            byte_len(old(self).input@) + 4 <= usize::MAX,
            key.code is Right,
        ensures
            final(self).wf(),
            final(self).prompt == old(self).prompt,
            final(self)@ == old(self)@.pressed(key, separators).0,
            r@ == old(self)@.pressed(key, separators).1,
            final(self).input@ == final(self)@.text(),
    {
        let ghost line = self@;
        let ghost s = self.input@;
        let chars = chars_of(self.input.as_str());
        let k = split_point(&chars, self.cursor);
        assert(line.text() =~= s);
        let n = chars.len();
        let j = if k < n {
            cluster_end(&chars, k)
        } else {
            n
        };
        self.move_to(&chars, j);
        proof {
            assert(self@.text() =~= s);
            assert(self@.before =~= line.moved_right().before);
            assert(self@.after =~= line.moved_right().after);
        }
        MiniBufferEvent::CursorMoved
    }

    /// Feeds one key to the input. `separators` are those of paths: a word ends at them.
    pub fn handle_key(&mut self, key: KeyEvent, separators: Separators) -> (r: MiniBufferEvent)
        requires
            old(self).wf(),
            byte_len(old(self).input@) + 4 <= usize::MAX,
        ensures
            final(self).wf(),
            final(self).prompt == old(self).prompt,
            final(self)@ == old(self)@.pressed(key, separators).0,
            r@ == old(self)@.pressed(key, separators).1,
            final(self).input@ == final(self)@.text(),
            r@ is Edited ==> final(self)@.text().len() > 0,
    {
        assert(self@.text() =~= self.input@);
        match key.code {
            KeyCode::Esc => MiniBufferEvent::Cancel,
            KeyCode::Enter => self.press_enter(Ghost(key), Ghost(separators)),
            KeyCode::Backspace => self.press_backspace(Ghost(key), Ghost(separators)),
            KeyCode::Char(ch) => self.press_char(key, ch, separators),
            KeyCode::Left => self.press_left(Ghost(key), Ghost(separators)),
            KeyCode::Right => self.press_right(Ghost(key), Ghost(separators)),
            KeyCode::Tab => MiniBufferEvent::CompleteRequested { reverse: false },
            KeyCode::BackTab => MiniBufferEvent::CompleteRequested { reverse: true },
            KeyCode::Up => MiniBufferEvent::HistoryPrev,
            KeyCode::Down => MiniBufferEvent::HistoryNext,
            _ => MiniBufferEvent::Ignored,
        }
    }
}

/// A character that is typed goes in before the cursor, and the cursor stands behind it.
pub proof fn law_typed_char_goes_in(l: Line, key: KeyEvent, c: char, s: Separators)
    requires
        key.code == KeyCode::Char(c),
        !key.modifiers.control,
    ensures
        ({
            let (after, event) = l.pressed(key, s);
            &&& after.before == l.before + seq![c]
            &&& after.after == l.after
            &&& after.prompt == l.prompt
            &&& event == LineEvent::Edited
        }),
{
    assert(l.before.push(c) =~= l.before + seq![c]);
}

/// The clusters of `p` make it up, one after the other, and the last of them is not empty.
pub open spec fn cut_whole(p: Seq<char>) -> bool {
    p.len() > 0 ==> grapheme_clusters(p).len() > 0 && joined(grapheme_clusters(p)) == p && 0
        < grapheme_clusters(p).last().len()
}

/// Backspace deletes the cluster before the cursor and nothing else. What is left behind the cursor
/// stays. An input that it empties, or in which nothing stands before the cursor, says so, and an
/// input that was empty says that.
pub proof fn law_backspace_deletes_one_cluster(l: Line, key: KeyEvent, s: Separators)
    requires
        key.code == KeyCode::Backspace,
        cut_whole(l.before),
    ensures
        ({
            let (after, event) = l.pressed(key, s);
            &&& after.after == l.after
            &&& after.prompt == l.prompt
            &&& l.before.len() > 0 ==> {
                &&& l.before == after.before + grapheme_clusters(l.before).last()
                &&& after.before.len() < l.before.len()
                &&& event == (if after.before.len() + l.after.len() == 0 {
                    LineEvent::EmptiedByBackspace
                } else {
                    LineEvent::Edited
                })
            }
            &&& l.before.len() == 0 && l.after.len() > 0 ==> after == l && event
                == LineEvent::EmptiedByBackspace
            &&& l.before.len() == 0 && l.after.len() == 0 ==> after == l && event
                == LineEvent::BackspaceOnEmpty
        }),
{
    if l.before.len() > 0 {
        let g = grapheme_clusters(l.before);
        assert(joined(g) == joined(g.drop_last()) + g.last());
        assert(l.before =~= without_last_cluster(l.before) + g.last());
    }
}

/// Moving the cursor changes nothing of the text: a step to the left takes the cluster before the
/// cursor behind it, and a step to the right the one behind it before it. At its ends the cursor
/// stays.
pub proof fn law_cursor_moves_over_clusters(l: Line, s: Separators, left: KeyEvent, right: KeyEvent)
    requires
        left.code == KeyCode::Left,
        right.code == KeyCode::Right,
        cut_whole(l.before),
        l.after.len() > 0 ==> grapheme_clusters(l.after)[0].len() <= l.after.len(),
    ensures
        ({
            let (a, e) = l.pressed(left, s);
            &&& a.text() == l.text()
            &&& e == LineEvent::CursorMoved
            &&& l.before.len() == 0 ==> a == l
            &&& l.before.len() > 0 ==> a.before.len() == l.before.len() - grapheme_clusters(
                l.before,
            ).last().len()
        }),
        ({
            let (b, e) = l.pressed(right, s);
            &&& b.text() == l.text()
            &&& e == LineEvent::CursorMoved
            &&& l.after.len() == 0 ==> b == l
            &&& l.after.len() > 0 ==> b.before.len() == l.before.len() + grapheme_clusters(
                l.after,
            )[0].len()
        }),
{
    let (a, _) = l.pressed(left, s);
    if l.before.len() > 0 {
        let g = grapheme_clusters(l.before);
        assert(joined(g) == joined(g.drop_last()) + g.last());
    }
    assert(a.text() =~= l.text());
    if l.before.len() == 0 {
        assert(a.before =~= l.before);
        assert(a.after =~= l.after);
    }
    let (b, _) = l.pressed(right, s);
    assert(b.text() =~= l.text());
    if l.after.len() == 0 {
        assert(b.before =~= l.before);
        assert(b.after =~= l.after);
    }
}

/// Enter hands the whole text on, escape and Ctrl-C cancel, tab asks for a completion, and the
/// arrows up and down ask for the history. None of them changes the line.
pub proof fn law_keys_that_leave_the_line(l: Line, key: KeyEvent, s: Separators)
    ensures
        key.code == KeyCode::Enter && l.before.len() + l.after.len() > 0 ==> l.pressed(key, s) == (
            l,
            LineEvent::Confirm(l.before + l.after),
        ),
        key.code == KeyCode::Enter && l.before.len() + l.after.len() == 0 ==> l.pressed(key, s) == (
            l,
            LineEvent::ConfirmEmpty,
        ),
        key.code == KeyCode::Esc ==> l.pressed(key, s) == (l, LineEvent::Cancel),
        key.code == KeyCode::Char('c') && key.modifiers.control ==> l.pressed(key, s) == (
            l,
            LineEvent::Cancel,
        ),
        key.code == KeyCode::Tab ==> l.pressed(key, s) == (l, LineEvent::CompleteRequested(false)),
        key.code == KeyCode::BackTab ==> l.pressed(key, s) == (
            l,
            LineEvent::CompleteRequested(true),
        ),
        key.code == KeyCode::Up ==> l.pressed(key, s) == (l, LineEvent::HistoryPrev),
        key.code == KeyCode::Down ==> l.pressed(key, s) == (l, LineEvent::HistoryNext),
{
}

proof fn lemma_trimmed_clusters(p: Seq<char>, separating: bool, s: Separators)
    requires
        forall|q: Seq<char>| #[trigger] q.is_prefix_of(p) ==> cut_whole(q),
    ensures
        ({
            let r = trimmed_clusters(p, separating, s);
            let c = grapheme_clusters(r).last();
            &&& r.is_prefix_of(p)
            &&& r.len() > 0 ==> all_separators(c, s) != separating
            &&& separating ==> forall|i: int|
                r.len() <= i < p.len() ==> separator(#[trigger] p[i], s)
            &&& p.len() > 0 && all_separators(grapheme_clusters(p).last(), s) == separating
                ==> r.len() < p.len()
        }),
    decreases p.len(),
{
    let c = grapheme_clusters(p).last();
    assert(p.is_prefix_of(p));
    assert(cut_whole(p));
    if p.len() > 0 {
        let g = grapheme_clusters(p);
        assert(joined(g) == joined(g.drop_last()) + g.last());
        if all_separators(c, s) == separating {
            let q = without_last_cluster(p);
            assert(p =~= q + c);
            assert forall|x: Seq<char>| #[trigger] x.is_prefix_of(q) implies cut_whole(x) by {
                assert(x =~= p.take(x.len() as int));
                assert(x.is_prefix_of(p));
            }
            lemma_trimmed_clusters(q, separating, s);
            let r = trimmed_clusters(p, separating, s);
            assert(r =~= p.take(r.len() as int)) by {
                assert(r =~= q.take(r.len() as int));
            }
            if separating {
                assert forall|i: int| r.len() <= i < p.len() implies separator(
                    #[trigger] p[i],
                    s,
                ) by {
                    if i < q.len() {
                        assert(p[i] == q[i]);
                    } else {
                        assert(p[i] == c[i - q.len()]);
                    }
                }
            }
        }
    }
}

/// Ctrl-W deletes the separators before the cursor, whitespace and those of paths, and the word
/// before them: what goes first is nothing but separators, what goes then ends in something that
/// is none, and what stays is empty or ends in a separator.
pub proof fn law_word_goes_with_the_separators_behind_it(p: Seq<char>, s: Separators)
    requires
        p.len() > 0,
        forall|q: Seq<char>| #[trigger] q.is_prefix_of(p) ==> cut_whole(q),
    ensures
        ({
            let r = without_last_word(p, s);
            &&& r.is_prefix_of(p)
            &&& r.len() < p.len()
            &&& r.len() > 0 ==> all_separators(grapheme_clusters(r).last(), s)
            &&& exists|m: int|
                {
                    &&& r.len() <= m <= p.len()
                    &&& forall|i: int|
                        m <= i < p.len() ==> whitespace(#[trigger] p[i]) || s.separates(p[i])
                    &&& m > 0 ==> r.len() < m && !all_separators(
                        grapheme_clusters(#[trigger] p.take(m)).last(),
                        s,
                    )
                }
        }),
{
    let m = trimmed_clusters(p, true, s);
    let r = without_last_word(p, s);
    lemma_trimmed_clusters(p, true, s);
    let n = m.len() as int;
    assert(p.take(n) =~= m);
    assert forall|x: Seq<char>| #[trigger] x.is_prefix_of(m) implies cut_whole(x) by {
        assert(x =~= p.take(x.len() as int));
        assert(x.is_prefix_of(p));
    }
    lemma_trimmed_clusters(m, false, s);
    assert(r =~= p.take(r.len() as int)) by {
        assert(r =~= m.take(r.len() as int));
    }
    assert(p.is_prefix_of(p));
    assert forall|i: int| n <= i < p.len() implies whitespace(#[trigger] p[i]) || s.separates(
        p[i],
    ) by {
        assert(separator(p[i], s));
    }
}

/// A separator is whitespace or a separator of paths.
pub proof fn law_separators_of_words(c: char)
    ensures
        separator('/', Separators::Slash),
        separator('/', Separators::SlashAndBackslash),
        separator('\\', Separators::SlashAndBackslash),
        separator(c, Separators::Slash) == (whitespace(c) || c == '/'),
        all_separators(seq![c], Separators::Slash) == (whitespace(c) || c == '/'),
{
    let one = seq![c];
    assert(one[0] == c);
    if whitespace(c) || c == '/' {
        assert forall|i: int| 0 <= i < one.len() implies separator(
            #[trigger] one[i],
            Separators::Slash,
        ) by {}
    }
}

/// Ctrl-W deletes that word before the cursor, leaves what stands behind the cursor, and does
/// nothing where nothing stands before it.
pub proof fn law_control_w_deletes_a_word(l: Line, key: KeyEvent, s: Separators)
    requires
        key.code == KeyCode::Char('w'),
        key.modifiers.control,
        forall|q: Seq<char>| #[trigger] q.is_prefix_of(l.before) ==> cut_whole(q),
    ensures
        ({
            let (after, event) = l.pressed(key, s);
            &&& after.after == l.after
            &&& after.prompt == l.prompt
            &&& l.before.len() == 0 ==> after == l && event == LineEvent::Ignored
            &&& l.before.len() > 0 ==> {
                &&& after.before == without_last_word(l.before, s)
                &&& after.before.len() < l.before.len()
                &&& event == (if after.before.len() + l.after.len() == 0 {
                    LineEvent::EmptiedByWord
                } else {
                    LineEvent::Edited
                })
            }
        }),
{
    if l.before.len() > 0 {
        law_word_goes_with_the_separators_behind_it(l.before, s);
    } else {
        lemma_trimmed_clusters(l.before, true, s);
        assert(trimmed_clusters(l.before, true, s) =~= l.before);
        assert(without_last_word(l.before, s) =~= l.before);
    }
}

/// The cursor stands one column of padding, the prompt and what comes before it from the edge.
pub proof fn law_cursor_column(m: MiniBuffer)
    ensures
        char_display_width(m.prompt) is Some ==> m.col() == 1 + char_display_width(m.prompt)->0
            + display_width(m@.before),
        char_display_width(m.prompt) is None ==> m.col() == 2 + display_width(m@.before),
{
}

} // verus!

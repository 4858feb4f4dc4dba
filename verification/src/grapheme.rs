//! Grapheme clusters of a text. A cluster never reaches across a line feed.

use crate::minibuf::{
    grapheme_clusters, graphemes, joined, lemma_joined_split, lemma_joined_step,
};
use crate::selection::Selection;
use crate::strings::{chars_of, string_of};
use crate::text::{lemma_line_start, lemma_newlines_take, line_start, newlines, Text};
use vstd::prelude::*;

verus! {

/// Where the line of position `pos` begins.
pub open spec fn line_begin(s: Seq<char>, pos: int) -> int {
    line_start(s, newlines(s.take(pos))) as int
}

/// Where the line after that of position `pos` begins.
pub open spec fn line_after(s: Seq<char>, pos: int) -> int {
    line_start(s, newlines(s.take(pos)) + 1) as int
}

/// A position lies in its line.
pub proof fn lemma_line_around(s: Seq<char>, pos: int)
    requires
        0 <= pos <= s.len(),
    ensures
        0 <= line_begin(s, pos) <= pos,
        pos < s.len() ==> pos < line_after(s, pos) <= s.len(),
    decreases s.len(),
{
    lemma_line_start(s, newlines(s.take(pos)));
    lemma_line_start(s, newlines(s.take(pos)) + 1);
    if pos < s.len() {
        let t = s.drop_last();
        assert(t.take(pos) =~= s.take(pos));
        lemma_newlines_take(t, pos);
        lemma_line_around(t, pos);
        if pos == t.len() {
            assert(t.take(pos) =~= t);
        }
    }
}

/// A text has no more line feeds than characters.
pub proof fn lemma_newlines_bound(s: Seq<char>)
    ensures
        newlines(s) <= s.len(),
    decreases s.len(),
{
    if s.len() > 0 {
        lemma_newlines_bound(s.drop_last());
    }
}

/// A cluster of the row `parts` ends behind `k` characters.
pub open spec fn ends_part(parts: Seq<Seq<char>>, k: int) -> bool {
    exists|m: int| 0 <= m <= parts.len() && (#[trigger] joined(parts.take(m))).len() == k
}

/// The first end of a cluster of `line` at `k` or behind it.
pub open spec fn boundary_from(line: Seq<char>, k: int) -> int
    decreases line.len() - k,
{
    if k >= line.len() || ends_part(grapheme_clusters(line), k) {
        k
    } else {
        boundary_from(line, k + 1)
    }
}

/// The last end of a cluster of `line` at `k` or before it; zero where there is none.
pub open spec fn boundary_back(line: Seq<char>, k: int) -> int
    decreases k,
{
    if k <= 0 {
        0
    } else if ends_part(grapheme_clusters(line), k) {
        k
    } else {
        boundary_back(line, k - 1)
    }
}

/// The line of position `pos`, with its line feed.
pub open spec fn line_of(s: Seq<char>, pos: int) -> Seq<char> {
    s.subrange(line_begin(s, pos), line_after(s, pos))
}

/// The cluster boundary before `pos`; a line feed is a cluster of its own.
pub open spec fn prev_boundary(s: Seq<char>, pos: int) -> int {
    let from = line_begin(s, pos);
    if pos == 0 {
        0
    } else if from == pos {
        pos - 1
    } else {
        from + boundary_back(line_of(s, pos), pos - from - 1)
    }
}

/// The end of the cluster that the character at `pos` is in; the end of the text for a
/// position past it.
pub open spec fn next_boundary(s: Seq<char>, pos: int) -> int {
    if pos >= s.len() {
        s.len() as int
    } else {
        let from = line_begin(s, pos);
        from + boundary_from(line_of(s, pos), pos - from + 1)
    }
}

/// The characters of a line have the same line around them.
pub proof fn lemma_same_line(s: Seq<char>, p: int, q: int)
    requires
        0 <= p <= q < line_after(s, p),
        p < s.len(),
    ensures
        q < s.len(),
        line_begin(s, q) == line_begin(s, p),
        line_after(s, q) == line_after(s, p),
    decreases q - p,
{
    lemma_line_around(s, p);
    if p < q {
        lemma_same_line(s, p, q - 1);
        lemma_line_around(s, q);
        assert(s.take(q).drop_last() =~= s.take(q - 1));
        lemma_newlines_take(s, q);
        if s[q - 1] == '\n' {
            lemma_line_begins_behind(s, q);
        }
    }
}

/// A line begins behind a line feed.
proof fn lemma_line_begins_behind(s: Seq<char>, q: int)
    requires
        0 < q < s.len(),
        s[q - 1] == '\n',
    ensures
        line_start(s, newlines(s.take(q))) == q,
    decreases s.len(),
{
    let t = s.drop_last();
    assert(t.take(q) =~= s.take(q));
    lemma_newlines_take(t, q);
    if q < t.len() {
        lemma_line_begins_behind(t, q);
    } else {
        assert(t.take(q) =~= t);
        assert(t.last() == '\n');
        reveal_with_fuel(line_start, 2);
    }
    assert(s.take(q).last() == '\n');
}

/// A boundary is the boundary behind the character before it.
pub proof fn law_boundary_stays(s: Seq<char>, pos: int)
    requires
        0 <= pos < s.len(),
    ensures
        pos < next_boundary(s, pos) <= s.len(),
        next_boundary(s, next_boundary(s, pos) - 1) == next_boundary(s, pos),
{
    lemma_line_around(s, pos);
    let from = line_begin(s, pos);
    lemma_boundary_from(line_of(s, pos), pos - from + 1);
    lemma_same_line(s, pos, next_boundary(s, pos) - 1);
}

proof fn lemma_boundary_from(line: Seq<char>, k: int)
    requires
        k <= line.len(),
    ensures
        k <= boundary_from(line, k) <= line.len(),
        boundary_from(line, boundary_from(line, k)) == boundary_from(line, k),
    decreases line.len() - k,
{
    if !(k >= line.len() || ends_part(grapheme_clusters(line), k)) {
        lemma_boundary_from(line, k + 1);
    }
}

/// Position `pos` lies between two clusters of its line.
pub open spec fn between(s: Seq<char>, pos: int) -> bool {
    ends_part(grapheme_clusters(line_of(s, pos)), pos - line_begin(s, pos))
}

/// Behind the boundary before a boundary comes that boundary again, where it is not the start
/// of a line.
pub proof fn law_back_and_on(s: Seq<char>, pos: int)
    requires
        line_begin(s, pos) < pos < s.len(),
        between(s, pos),
    ensures
        line_begin(s, pos) <= prev_boundary(s, pos) < pos,
        next_boundary(s, prev_boundary(s, pos)) == pos,
{
    lemma_line_around(s, pos);
    let from = line_begin(s, pos);
    let line = line_of(s, pos);
    let k = pos - from;
    lemma_boundary_back(line, k - 1);
    let back = boundary_back(line, k - 1);
    lemma_begins_at(s, pos);
    lemma_same_line(s, from, pos);
    lemma_same_line(s, from, from + back);
    lemma_none_between(line, back + 1, k);
}

/// The start of a line is in it.
proof fn lemma_begins_at(s: Seq<char>, pos: int)
    requires
        0 <= pos < s.len(),
    ensures
        line_begin(s, line_begin(s, pos)) == line_begin(s, pos),
        line_after(s, line_begin(s, pos)) == line_after(s, pos),
    decreases pos,
{
    lemma_line_around(s, pos);
    let from = line_begin(s, pos);
    if from < pos {
        lemma_line_around(s, pos - 1);
        assert(s.take(pos).drop_last() =~= s.take(pos - 1));
        lemma_newlines_take(s, pos);
        if s[pos - 1] == '\n' {
            lemma_line_begins_behind(s, pos);
        }
        lemma_begins_at(s, pos - 1);
    }
}

proof fn lemma_boundary_back(line: Seq<char>, k: int)
    requires
        k >= 0,
    ensures
        0 <= boundary_back(line, k) <= k,
        forall|j: int|
            boundary_back(line, k) < j <= k ==> !#[trigger] ends_part(grapheme_clusters(line), j),
    decreases k,
{
    if k > 0 && !ends_part(grapheme_clusters(line), k) {
        lemma_boundary_back(line, k - 1);
    }
}

proof fn lemma_none_between(line: Seq<char>, k: int, to: int)
    requires
        k <= to < line.len(),
        ends_part(grapheme_clusters(line), to),
        forall|j: int| k <= j < to ==> !#[trigger] ends_part(grapheme_clusters(line), j),
    ensures
        boundary_from(line, k) == to,
    decreases to - k,
{
    if k < to {
        lemma_none_between(line, k + 1, to);
    }
}

/// Between two neighbouring ends of clusters the first is the last end before.
proof fn lemma_boundary_back_found(line: Seq<char>, k: int, m: int)
    requires
        0 <= m < grapheme_clusters(line).len(),
        joined(grapheme_clusters(line).take(m)).len() <= k,
        k < joined(grapheme_clusters(line).take(m + 1)).len(),
    ensures
        boundary_back(line, k) == joined(grapheme_clusters(line).take(m)).len(),
    decreases k,
{
    let v = grapheme_clusters(line);
    if k > joined(v.take(m)).len() {
        lemma_no_end_inside(v, k, m);
        lemma_boundary_back_found(line, k - 1, m);
    } else {
        assert(ends_part(v, k));
    }
}

proof fn lemma_no_end_inside(v: Seq<Seq<char>>, k: int, m: int)
    requires
        0 <= m < v.len(),
        joined(v.take(m)).len() < k < joined(v.take(m + 1)).len(),
    ensures
        !ends_part(v, k),
{
    if ends_part(v, k) {
        let i = choose|i: int| 0 <= i <= v.len() && (#[trigger] joined(v.take(i))).len() == k;
        if i <= m {
            lemma_joined_split(v.take(m), i);
            assert(v.take(m).take(i) =~= v.take(i));
        } else {
            lemma_joined_split(v.take(i), m + 1);
            assert(v.take(i).take(m + 1) =~= v.take(m + 1));
        }
    }
}

/// Between two neighbouring ends of clusters the second is the first end behind.
proof fn lemma_boundary_found(line: Seq<char>, k: int, m: int)
    requires
        joined(grapheme_clusters(line)) == line,
        0 <= m < grapheme_clusters(line).len(),
        joined(grapheme_clusters(line).take(m)).len() < k,
        k <= joined(grapheme_clusters(line).take(m + 1)).len(),
    ensures
        boundary_from(line, k) == joined(grapheme_clusters(line).take(m + 1)).len(),
    decreases line.len() - k,
{
    let v = grapheme_clusters(line);
    lemma_joined_split(v, m + 1);
    if k < joined(v.take(m + 1)).len() {
        lemma_no_end_inside(v, k, m);
        lemma_boundary_found(line, k + 1, m);
    }
}

/// The characters of a text from `from` up to `to`.
pub fn chars_between(text: &Text, from: usize, to: usize) -> (r: Vec<char>)
    requires
        from <= to <= text@.len(),
    ensures
        r@ == text@.subrange(from as int, to as int),
{
    let mut r: Vec<char> = Vec::new();
    let mut i: usize = from;
    while i < to
        invariant
            from <= i <= to <= text@.len(),
            r@ == text@.subrange(from as int, i as int),
        decreases to - i,
    {
        if let Some(c) = text.char_at(i) {
            r.push(c);
        }
        i = i + 1;
        assert(r@ =~= text@.subrange(from as int, i as int));
    }
    r
}

/// The boundary of the grapheme cluster before `pos`; zero at the start.
pub fn prev_grapheme_boundary(text: &Text, pos: usize) -> (r: usize)
    requires
        pos <= text@.len(),
    ensures
        r == prev_boundary(text@, pos as int),
        r <= pos,
        pos > 0 ==> r < pos,
{
    if pos == 0 {
        return 0;
    }
    proof {
        lemma_line_around(text@, pos as int);
    }
    let line = text.char_to_line(pos);
    let from = text.line_to_char(line);
    if from == pos {
        return pos - 1;
    }
    proof {
        lemma_newlines_take(text@, pos as int);
        lemma_newlines_bound(text@.take(pos - 1));
        lemma_line_start(text@, newlines(text@.take(pos as int)) + 1);
        assert(text@.take(pos as int).drop_last() =~= text@.take(pos - 1));
        if pos == text@.len() {
            assert(text@.take(pos as int) =~= text@);
        } else if text@[pos - 1] == '\n' {
            lemma_line_begins_behind(text@, pos as int);
        }
    }
    let to = text.line_to_char(line + 1);
    let chars = chars_between(text, from, to);
    let clusters = graphemes(string_of(&chars).as_str());
    let ghost v = clusters@.map_values(|g: String| g@);
    let ghost whole = text@.subrange(from as int, to as int);
    let mut start: usize = 0;
    let mut at: usize = 0;
    let mut m: usize = 0;
    while at < pos - from
        invariant
            from < pos <= to,
            whole.len() == to - from,
            v == clusters@.map_values(|g: String| g@),
            v == grapheme_clusters(whole),
            joined(v) == whole,
            m <= v.len(),
            at == joined(v.take(m as int)).len(),
            start < pos - from,
            m > 0 ==> start == joined(v.take(m - 1)).len(),
        decreases v.len() - m,
    {
        proof {
            if m == v.len() {
                assert(v.take(m as int) =~= v);
            }
            lemma_joined_step(v, m as int);
            lemma_joined_split(v, m + 1);
        }
        let part = chars_of(clusters[m].as_str());
        start = at;
        at = at + part.len();
        m = m + 1;
    }
    proof {
        assert(v.take(0) =~= Seq::<Seq<char>>::empty());
        lemma_boundary_back_found(whole, pos - from - 1, m - 1);
    }
    from + start
}

/// The end of the grapheme cluster that the character at `pos` is in; the end of the text for
/// a position past it.
pub fn next_grapheme_boundary(text: &Text, pos: usize) -> (r: usize)
    ensures
        r == next_boundary(text@, pos as int),
        r <= text@.len(),
        pos < text@.len() ==> pos < r,
{
    let len = text.len_chars();
    if pos >= len {
        return len;
    }
    proof {
        lemma_line_around(text@, pos as int);
        lemma_newlines_take(text@, pos as int);
        lemma_newlines_bound(text@.take(pos as int));
    }
    let line = text.char_to_line(pos);
    let from = text.line_to_char(line);
    let to = text.line_to_char(line + 1);
    let chars = chars_between(text, from, to);
    let clusters = graphemes(string_of(&chars).as_str());
    let ghost v = clusters@.map_values(|g: String| g@);
    let ghost whole = text@.subrange(from as int, to as int);
    let mut at: usize = 0;
    let mut m: usize = 0;
    while at <= pos - from
        invariant
            from <= pos < to,
            to <= usize::MAX,
            whole == text@.subrange(from as int, to as int),
            whole.len() == to - from,
            v == clusters@.map_values(|g: String| g@),
            v == grapheme_clusters(whole),
            joined(v) == whole,
            forall|i: int| 0 <= i < clusters@.len() ==> (#[trigger] clusters@[i])@.len() > 0,
            m <= v.len(),
            at == joined(v.take(m as int)).len(),
            m == 0 || joined(v.take(m - 1)).len() <= pos - from,
        decreases v.len() - m,
    {
        proof {
            if m == v.len() {
                assert(v.take(m as int) =~= v);
            }
            lemma_joined_step(v, m as int);
            lemma_joined_split(v, m + 1);
            assert(v[m as int] == clusters@[m as int]@);
        }
        let part = chars_of(clusters[m].as_str());
        at = at + part.len();
        m = m + 1;
    }
    proof {
        lemma_joined_split(v, m as int);
        assert(v.take(0) =~= Seq::<Seq<char>>::empty());
        lemma_boundary_found(whole, pos - from + 1, m - 1);
    }
    from + at
}

/// The last character of the cluster that the selection ends on.
pub open spec fn end_inclusive(sel: Selection, s: Seq<char>) -> int {
    let next = next_boundary(s, sel.spec_end() as int);
    if next > sel.spec_end() {
        next - 1
    } else {
        sel.spec_end() as int
    }
}

impl Selection {
    /// The last character of the cluster that the selection ends on.
    pub fn end_inclusive(&self, text: &Text) -> (r: usize)
        ensures
            r == end_inclusive(*self, text@),
            self.spec_end() < text@.len() ==> self.spec_end() <= r < text@.len(),
    {
        let end = self.end();
        let next = next_grapheme_boundary(text, end);
        if next > end {
            next - 1
        } else {
            end
        }
    }
}

proof fn lemma_boundary_from_nearest(line: Seq<char>, k: int)
    requires
        k <= line.len(),
    ensures
        boundary_from(line, k) == line.len() || ends_part(
            grapheme_clusters(line),
            boundary_from(line, k),
        ),
        forall|j: int|
            k <= j < boundary_from(line, k) ==> !#[trigger] ends_part(grapheme_clusters(line), j),
    decreases line.len() - k,
{
    if !(k >= line.len() || ends_part(grapheme_clusters(line), k)) {
        lemma_boundary_from_nearest(line, k + 1);
    }
}

/// The boundary behind a position is the nearest one: nothing between the two is a boundary, and
/// it is one itself, or the end of the line.
pub proof fn law_next_boundary_is_the_nearest(s: Seq<char>, pos: int, p: int)
    requires
        0 <= pos < s.len(),
    ensures
        pos < next_boundary(s, pos) <= line_after(s, pos),
        pos < p < next_boundary(s, pos) ==> !between(s, p),
        next_boundary(s, pos) < line_after(s, pos) ==> between(s, next_boundary(s, pos)),
{
    lemma_line_around(s, pos);
    let from = line_begin(s, pos);
    let line = line_of(s, pos);
    let k = pos - from + 1;
    lemma_boundary_from(line, k);
    lemma_boundary_from_nearest(line, k);
    if pos < p < next_boundary(s, pos) {
        lemma_same_line(s, pos, p);
        assert(!ends_part(grapheme_clusters(line), p - from));
    }
    if next_boundary(s, pos) < line_after(s, pos) {
        lemma_same_line(s, pos, next_boundary(s, pos));
    }
}

/// The boundary before a position is the nearest one: nothing between the two is a boundary. At
/// the start of a line it is before the line feed that ends the line above, and nothing comes
/// before the start of the text.
pub proof fn law_prev_boundary_is_the_nearest(s: Seq<char>, pos: int, p: int)
    requires
        0 < pos < s.len(),
    ensures
        prev_boundary(s, 0) == 0,
        0 <= prev_boundary(s, pos) < pos,
        line_begin(s, pos) < pos ==> line_begin(s, pos) <= prev_boundary(s, pos),
        line_begin(s, pos) == pos ==> prev_boundary(s, pos) == pos - 1,
        prev_boundary(s, pos) < p < pos ==> !between(s, p),
{
    lemma_line_around(s, pos);
    let from = line_begin(s, pos);
    let line = line_of(s, pos);
    if from < pos {
        lemma_boundary_back(line, pos - from - 1);
        if prev_boundary(s, pos) < p < pos {
            lemma_begins_at(s, pos);
            lemma_same_line(s, from, pos);
            lemma_same_line(s, from, p);
            assert(!ends_part(grapheme_clusters(line), p - from));
        }
    }
}

/// A selection ends with the whole cluster that its end is on.
pub proof fn law_selection_ends_with_a_cluster(sel: Selection, s: Seq<char>)
    requires
        sel.anchor < s.len(),
        sel.head < s.len(),
    ensures
        sel.anchor <= end_inclusive(sel, s) < s.len(),
        sel.head <= end_inclusive(sel, s),
        end_inclusive(sel, s) + 1 == next_boundary(
            s,
            if sel.anchor < sel.head {
                sel.head as int
            } else {
                sel.anchor as int
            },
        ),
{
    law_boundary_stays(s, sel.spec_end() as int);
}

/// The line of a position holds it, and holds no line feed but at its end.
pub proof fn law_line_of_a_position(above: Seq<char>, line: Seq<char>, below: Seq<char>, i: int)
    requires
        above.len() > 0 ==> above.last() == '\n',
        line.len() > 0 && line.last() == '\n',
        forall|j: int| 0 <= j < line.len() - 1 ==> #[trigger] line[j] != '\n',
        0 <= i < line.len(),
    ensures
        ({
            let s = above + line + below;
            let pos = above.len() + i;
            &&& line_begin(s, pos) == above.len()
            &&& line_after(s, pos) == above.len() + line.len()
            &&& line_of(s, pos) == line
        }),
{
    let s = above + line + below;
    let pos = above.len() + i;
    let front = line.take(i);
    assert(s.take(pos) =~= above + front);
    crate::text::law_newlines_add_up(above, front);
    assert forall|j: int| 0 <= j < front.len() implies #[trigger] front[j] != '\n' by {
        assert(line[j] != '\n');
    }
    crate::text::law_newlines_add_up(front, Seq::empty());
    crate::text::law_line_begins_behind_a_line_feed(above, line + below);
    assert(above + (line + below) =~= s);
    let upto = above + line;
    crate::text::law_newlines_add_up(above, line);
    let most = line.drop_last();
    assert forall|j: int| 0 <= j < most.len() implies #[trigger] most[j] != '\n' by {
        assert(line[j] != '\n');
    }
    crate::text::law_newlines_add_up(most, Seq::empty());
    crate::text::law_line_begins_behind_a_line_feed(upto, below);
    assert(upto + below =~= s);
    assert(s.subrange(above.len() as int, above.len() as int + line.len() as int) =~= line);
}

} // verus!

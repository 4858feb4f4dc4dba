//! Document text: a rope of characters, counted in lines that line feeds end.

use crate::strings::{byte_len, chars_of, string_of, utf8_len};
use vstd::prelude::*;
use vstd::string::*;

verus! {

/// `ropey::Rope`: a sequence of characters with cheap copies and edits.
#[verifier::external_type_specification]
#[verifier::external_body]
pub struct ExRope(ropey::Rope);

/// The characters that a rope holds.
pub uninterp spec fn rope_chars(r: ropey::Rope) -> Seq<char>;

/// The number of line feeds in `s`.
pub open spec fn newlines(s: Seq<char>) -> nat
    decreases s.len(),
{
    if s.len() == 0 {
        0
    } else {
        newlines(s.drop_last()) + if s.last() == '\n' {
            1nat
        } else {
            0nat
        }
    }
}

/// The position just behind the `l`-th line feed of `s`: where line `l`, counted from
/// zero, begins. The end of `s` where it has fewer line feeds.
pub open spec fn line_start(s: Seq<char>, l: nat) -> nat
    decreases s.len(),
{
    if l == 0 {
        0
    } else if s.len() > 0 && newlines(s.drop_last()) >= l {
        line_start(s.drop_last(), l)
    } else {
        s.len()
    }
}

/// `Rope::from_str` holds exactly the characters of its argument.
#[verifier::external_body]
fn rope_from_str(s: &str) -> (r: ropey::Rope)
    ensures
        rope_chars(r) == s@,
{
    ropey::Rope::from_str(s)
}

/// `<Rope as Clone>::clone` holds the same characters.
#[verifier::external_body]
fn rope_clone(r: &ropey::Rope) -> (c: ropey::Rope)
    ensures
        rope_chars(c) == rope_chars(*r),
{
    r.clone()
}

/// `Rope::len_chars` counts the characters.
#[verifier::external_body]
fn rope_len_chars(r: &ropey::Rope) -> (n: usize)
    ensures
        n == rope_chars(*r).len(),
{
    r.len_chars()
}

/// `Rope::len_bytes` counts the bytes of the text in UTF-8.
#[verifier::external_body]
fn rope_len_bytes(r: &ropey::Rope) -> (n: usize)
    ensures
        n == byte_len(rope_chars(*r)),
{
    r.len_bytes()
}

/// `Rope::len_lines` is one more than the number of line breaks, which are the line
/// feeds: the crate is built without its `cr_lines` and `unicode_lines` features.
#[verifier::external_body]
fn rope_len_lines(r: &ropey::Rope) -> (n: usize)
    ensures
        n == newlines(rope_chars(*r)) + 1,
{
    r.len_lines()
}

/// `Rope::line_to_char` gives the position at which a line begins, and the end of the
/// text for the line past the last one. It panics beyond that.
#[verifier::external_body]
fn rope_line_to_char(r: &ropey::Rope, line: usize) -> (pos: usize)
    requires
        line <= newlines(rope_chars(*r)) + 1,
    ensures
        pos == line_start(rope_chars(*r), line as nat),
{
    r.line_to_char(line)
}

/// `Rope::char_to_line` counts the line feeds before a position. It panics on a
/// position past the end.
#[verifier::external_body]
fn rope_char_to_line(r: &ropey::Rope, pos: usize) -> (line: usize)
    requires
        pos <= rope_chars(*r).len(),
    ensures
        line == newlines(rope_chars(*r).take(pos as int)),
{
    r.char_to_line(pos)
}

/// `Rope::char` reads one character. It panics on a position out of range.
#[verifier::external_body]
fn rope_char(r: &ropey::Rope, pos: usize) -> (c: char)
    requires
        pos < rope_chars(*r).len(),
    ensures
        c == rope_chars(*r)[pos as int],
{
    r.char(pos)
}

/// `<Rope as ToString>::to_string` writes out all the characters.
#[verifier::external_body]
fn rope_to_string(r: &ropey::Rope) -> (s: String)
    ensures
        s@ == rope_chars(*r),
{
    r.to_string()
}

/// How many whole characters end at or before byte offset `b`.
pub open spec fn byte_char_index(s: Seq<char>, b: nat) -> nat
    decreases s.len(),
{
    if s.len() == 0 || b < utf8_len(s[0]) {
        0
    } else {
        1 + byte_char_index(s.drop_first(), (b - utf8_len(s[0])) as nat)
    }
}

/// `Rope::byte_to_char` gives the character that a byte belongs to, or the end of the
/// text for the byte offset of its end. It panics on an offset past that.
#[verifier::external_body]
fn rope_byte_to_char(r: &ropey::Rope, b: usize) -> (pos: usize)
    requires
        b <= byte_len(rope_chars(*r)),
    ensures
        pos == byte_char_index(rope_chars(*r), b as nat),
{
    r.byte_to_char(b)
}

/// `Rope::insert` puts text in at a position. It panics on a position past the end.
#[verifier::external_body]
fn rope_insert(r: &mut ropey::Rope, pos: usize, s: &str)
    requires
        pos <= rope_chars(*old(r)).len(),
    ensures
        rope_chars(*final(r)) == rope_chars(*old(r)).take(pos as int) + s@ + rope_chars(
            *old(r),
        ).skip(pos as int),
{
    r.insert(pos, s)
}

/// `Rope::remove` takes the characters of a range out. It panics where the range is
/// reversed or reaches past the end.
#[verifier::external_body]
fn rope_remove(r: &mut ropey::Rope, from: usize, to: usize)
    requires
        from <= to <= rope_chars(*old(r)).len(),
    ensures
        rope_chars(*final(r)) == rope_chars(*old(r)).take(from as int) + rope_chars(*old(r)).skip(
            to as int,
        ),
{
    r.remove(from..to)
}

/// How a file ends its lines. Text in memory always uses line feeds.
#[derive(Debug, Clone, Copy, PartialEq, Eq, Structural)]
pub enum LineEnding {
    Lf,
    CrLf,
}

/// Whether a carriage return directly followed by a line feed occurs in `s`.
pub open spec fn has_crlf(s: Seq<char>) -> bool {
    exists|i: int| 0 <= i && i + 1 < s.len() && #[trigger] s[i] == '\r' && s[i + 1] == '\n'
}

/// The line ending of a text with the contents `s`.
pub open spec fn ending_of(s: Seq<char>) -> LineEnding {
    if has_crlf(s) {
        LineEnding::CrLf
    } else {
        LineEnding::Lf
    }
}

/// `s` without the carriage returns that directly precede a line feed.
pub open spec fn without_cr(s: Seq<char>) -> Seq<char>
    decreases s.len(),
{
    if s.len() == 0 {
        s
    } else if s.len() >= 2 && s[0] == '\r' && s[1] == '\n' {
        without_cr(s.drop_first())
    } else {
        seq![s[0]] + without_cr(s.drop_first())
    }
}

/// `s` with each line feed written as a carriage return and a line feed.
pub open spec fn with_cr(s: Seq<char>) -> Seq<char>
    decreases s.len(),
{
    if s.len() == 0 {
        s
    } else if s[0] == '\n' {
        seq!['\r', '\n'] + with_cr(s.drop_first())
    } else {
        seq![s[0]] + with_cr(s.drop_first())
    }
}

/// `s`, with a line feed put behind it where it does not end in one.
pub open spec fn closed_lines(s: Seq<char>) -> Seq<char> {
    if s.len() > 0 && s.last() == '\n' {
        s
    } else {
        s.push('\n')
    }
}

/// The same characters and the same line ending.
pub open spec fn same_text(a: Text, b: Text) -> bool {
    a@ == b@ && a.spec_line_ending() == b.spec_line_ending()
}

/// Document text.
pub struct Text {
    rope: ropey::Rope,
    line_ending: LineEnding,
}

impl View for Text {
    type V = Seq<char>;

    closed spec fn view(&self) -> Seq<char> {
        rope_chars(self.rope)
    }
}

impl Text {
    pub closed spec fn spec_line_ending(&self) -> LineEnding {
        self.line_ending
    }

    /// Text from the contents of a file: line endings become line feeds, and the last
    /// line is ended if it was not. The style of line ending found is kept for writing.
    pub fn from(content: &str) -> (r: Text)
        ensures
            r@ == closed_lines(without_cr(content@)),
            r.spec_line_ending() == ending_of(content@),
    {
        let chars = chars_of(content);
        let mut out: Vec<char> = Vec::new();
        let mut found = false;
        let n = chars.len();
        let mut i: usize = 0;
        assert(chars@.skip(0) =~= chars@);
        while i < n
            invariant
                i <= n == chars@.len(),
                out@ + without_cr(chars@.skip(i as int)) == without_cr(chars@),
                found <==> exists|j: int|
                    0 <= j < i && j + 1 < chars@.len() && #[trigger] chars@[j] == '\r' && chars@[j
                        + 1] == '\n',
            decreases n - i,
        {
            let ghost rest = chars@.skip(i as int);
            assert(rest.drop_first() =~= chars@.skip(i as int + 1));
            assert(rest[0] == chars@[i as int]);
            if i + 1 < n && chars[i] == '\r' && chars[i + 1] == '\n' {
                assert(rest[1] == chars@[i as int + 1]);
                found = true;
            } else {
                out.push(chars[i]);
                assert(out@ + without_cr(rest.drop_first()) =~= out@.drop_last() + (seq![rest[0]]
                    + without_cr(rest.drop_first())));
            }
            i = i + 1;
        }
        assert(chars@.skip(n as int) =~= Seq::<char>::empty());
        assert(out@ =~= without_cr(chars@));
        if out.len() == 0 || out[out.len() - 1] != '\n' {
            out.push('\n');
        }
        let line_ending = if found {
            LineEnding::CrLf
        } else {
            LineEnding::Lf
        };
        Text { rope: rope_from_str(string_of(&out).as_str()), line_ending }
    }

    /// The empty document: one line feed.
    pub fn empty() -> (r: Text)
        ensures
            r@ == seq!['\n'],
            r.spec_line_ending() == LineEnding::Lf,
    {
        let r = Text::from("");
        proof {
            reveal_strlit("");
            assert(without_cr(""@) =~= Seq::<char>::empty());
            assert(closed_lines(""@) =~= seq!['\n']);
        }
        r
    }

    pub fn clone(&self) -> (r: Text)
        ensures
            r@ == self@,
            r.spec_line_ending() == self.spec_line_ending(),
    {
        Text { rope: rope_clone(&self.rope), line_ending: self.line_ending }
    }

    pub fn line_ending(&self) -> (r: LineEnding)
        ensures
            r == self.spec_line_ending(),
    {
        self.line_ending
    }

    pub fn len_chars(&self) -> (r: usize)
        ensures
            r == self@.len(),
    {
        rope_len_chars(&self.rope)
    }

    /// The number of bytes in UTF-8.
    pub fn len_bytes(&self) -> (r: usize)
        ensures
            r == byte_len(self@),
    {
        rope_len_bytes(&self.rope)
    }

    /// The number of lines, counting the empty one behind a final line feed.
    pub fn len_lines(&self) -> (r: usize)
        ensures
            r == newlines(self@) + 1,
    {
        rope_len_lines(&self.rope)
    }

    pub fn line_to_char(&self, line: usize) -> (r: usize)
        requires
            line <= newlines(self@) + 1,
        ensures
            r == line_start(self@, line as nat),
            r <= self@.len(),
    {
        proof {
            lemma_line_start(self@, line as nat);
        }
        rope_line_to_char(&self.rope, line)
    }

    pub fn char_to_line(&self, pos: usize) -> (r: usize)
        requires
            pos <= self@.len(),
        ensures
            r == newlines(self@.take(pos as int)),
            r <= newlines(self@),
    {
        proof {
            lemma_newlines_take(self@, pos as int);
        }
        rope_char_to_line(&self.rope, pos)
    }

    /// The character at `pos`, or `None` at and past the end.
    pub fn char_at(&self, pos: usize) -> (r: Option<char>)
        ensures
            r == (if pos < self@.len() {
                Some(self@[pos as int])
            } else {
                None
            }),
    {
        if pos < rope_len_chars(&self.rope) {
            Some(rope_char(&self.rope, pos))
        } else {
            None
        }
    }

    pub fn to_string(&self) -> (r: String)
        ensures
            r@ == self@,
    {
        rope_to_string(&self.rope)
    }

    /// The character that byte offset `b` belongs to.
    pub fn byte_to_char(&self, b: usize) -> (r: usize)
        requires
            b <= byte_len(self@),
        ensures
            r == byte_char_index(self@, b as nat),
    {
        rope_byte_to_char(&self.rope, b)
    }

    /// The characters as a rope.
    pub(crate) fn as_rope(&self) -> (r: &ropey::Rope)
        ensures
            rope_chars(*r) == self@,
    {
        &self.rope
    }

    /// Puts `s` in at `pos`.
    pub fn insert(&mut self, pos: usize, s: &str)
        requires
            pos <= old(self)@.len(),
        ensures
            final(self)@ == old(self)@.take(pos as int) + s@ + old(self)@.skip(pos as int),
            final(self).spec_line_ending() == old(self).spec_line_ending(),
    {
        rope_insert(&mut self.rope, pos, s);
    }

    /// Takes the characters from `from` up to `to` out.
    pub fn remove(&mut self, from: usize, to: usize)
        requires
            from <= to <= old(self)@.len(),
        ensures
            final(self)@ == old(self)@.take(from as int) + old(self)@.skip(to as int),
            final(self).spec_line_ending() == old(self).spec_line_ending(),
    {
        rope_remove(&mut self.rope, from, to);
    }

    /// What is written to disk: the text with the file's own line endings.
    pub fn file_content(&self) -> (r: String)
        ensures
            r@ == (match self.spec_line_ending() {
                LineEnding::Lf => self@,
                LineEnding::CrLf => with_cr(self@),
            }),
    {
        let content = self.to_string();
        match self.line_ending {
            LineEnding::Lf => content,
            LineEnding::CrLf => {
                let chars = chars_of(content.as_str());
                let mut out = String::new();
                let n = chars.len();
                let mut i: usize = 0;
                assert(chars@.skip(0) =~= chars@);
                while i < n
                    invariant
                        i <= n == chars@.len(),
                        out@ + with_cr(chars@.skip(i as int)) == with_cr(chars@),
                    decreases n - i,
                {
                    let ghost rest = chars@.skip(i as int);
                    let ghost before = out@;
                    assert(rest.drop_first() =~= chars@.skip(i as int + 1));
                    if chars[i] == '\n' {
                        out.push('\r');
                        out.push('\n');
                        assert(out@ =~= before + seq!['\r', '\n']);
                        assert(out@ + with_cr(rest.drop_first()) =~= before + (seq!['\r', '\n']
                            + with_cr(rest.drop_first())));
                    } else {
                        out.push(chars[i]);
                        assert(out@ + with_cr(rest.drop_first()) =~= before + (seq![rest[0]]
                            + with_cr(rest.drop_first())));
                    }
                    i = i + 1;
                }
                assert(chars@.skip(n as int) =~= Seq::<char>::empty());
                assert(out@ =~= with_cr(chars@));
                out
            },
        }
    }
}

pub proof fn lemma_newlines_take(s: Seq<char>, i: int)
    requires
        0 <= i <= s.len(),
    ensures
        newlines(s.take(i)) <= newlines(s),
    decreases s.len() - i,
{
    if i < s.len() {
        lemma_newlines_take(s, i + 1);
        assert(s.take(i + 1).drop_last() =~= s.take(i));
    } else {
        assert(s.take(i) =~= s);
    }
}

/// A line that exists begins behind exactly as many line feeds as its number, within
/// the text; and the line of its first position is itself.
pub proof fn lemma_line_start(s: Seq<char>, l: nat)
    ensures
        line_start(s, l) <= s.len(),
        l <= newlines(s) ==> newlines(s.take(line_start(s, l) as int)) == l,
        0 < l <= newlines(s) ==> line_start(s, l) > 0 && s[line_start(s, l) - 1] == '\n',
    decreases s.len(),
{
    if l == 0 {
        assert(s.take(0) =~= Seq::<char>::empty());
    } else if s.len() > 0 {
        lemma_line_start(s.drop_last(), l);
        if newlines(s.drop_last()) >= l {
            let p = line_start(s.drop_last(), l) as int;
            assert(s.drop_last().take(p) =~= s.take(p));
        } else {
            assert(s.take(s.len() as int) =~= s);
        }
    }
}

/// Later lines begin no earlier.
pub proof fn lemma_line_start_monotonic(s: Seq<char>, a: nat, b: nat)
    requires
        a <= b,
    ensures
        line_start(s, a) <= line_start(s, b),
    decreases s.len(),
{
    lemma_line_start(s, a);
    lemma_line_start(s, b);
    if a != 0 && s.len() > 0 && newlines(s.drop_last()) >= b {
        lemma_line_start_monotonic(s.drop_last(), a, b);
    }
}

/// If the character at `i` is a line feed, a carriage return stands before it.
pub open spec fn follows_cr(s: Seq<char>, i: int) -> bool {
    s[i] == '\n' ==> i > 0 && s[i - 1] == '\r'
}

/// Reading and then writing a file whose line feeds all follow a carriage return, and
/// whose last line is ended, gives the same content back.
pub proof fn law_crlf_round_trip(s: Seq<char>)
    requires
        forall|i: int| 0 <= i < s.len() ==> #[trigger] follows_cr(s, i),
        s.len() > 0 && s.last() == '\n',
    ensures
        with_cr(closed_lines(without_cr(s))) == s,
{
    lemma_without_cr_last(s);
    lemma_crlf_round_trip(s);
}

proof fn lemma_with_cr_first(s: Seq<char>)
    ensures
        with_cr(s).len() > 0 ==> with_cr(s)[0] != '\n',
{
}

proof fn lemma_without_with_cr(s: Seq<char>)
    ensures
        without_cr(with_cr(s)) == s,
    decreases s.len(),
{
    if s.len() > 0 {
        let t = s.drop_first();
        lemma_without_with_cr(t);
        lemma_with_cr_first(t);
        let w = with_cr(s);
        if s[0] == '\n' {
            let u = w.drop_first();
            assert(u =~= seq!['\n'] + with_cr(t));
            assert(u.drop_first() =~= with_cr(t));
            assert(without_cr(u) =~= seq!['\n'] + without_cr(with_cr(t)));
        } else {
            assert(w.drop_first() =~= with_cr(t));
        }
        assert(seq![s[0]] + t =~= s);
    }
}

proof fn lemma_without_cr_same(s: Seq<char>)
    requires
        !has_crlf(s),
    ensures
        without_cr(s) == s,
    decreases s.len(),
{
    if s.len() > 0 {
        let t = s.drop_first();
        if s.len() >= 2 {
            assert(!(s[0] == '\r' && s[1] == '\n'));
        }
        assert(!has_crlf(t)) by {
            if has_crlf(t) {
                let i = choose|i: int|
                    0 <= i && i + 1 < t.len() && #[trigger] t[i] == '\r' && t[i + 1] == '\n';
                assert(s[i + 1] == '\r' && s[i + 1 + 1] == '\n');
            }
        }
        lemma_without_cr_same(t);
        assert(seq![s[0]] + t =~= s);
    }
}

/// Writing a text and reading it again gives the same text back: whatever it holds, where
/// lines end in carriage return and line feed; where they end in line feeds alone, as long
/// as no carriage return directly precedes one.
pub proof fn law_write_then_read(s: Seq<char>)
    requires
        s.len() > 0 && s.last() == '\n',
    ensures
        closed_lines(without_cr(with_cr(s))) == s,
        !has_crlf(s) ==> closed_lines(without_cr(s)) == s,
{
    lemma_without_with_cr(s);
    if !has_crlf(s) {
        lemma_without_cr_same(s);
    }
}

proof fn lemma_without_cr_last(s: Seq<char>)
    requires
        s.len() > 0,
    ensures
        without_cr(s).len() > 0,
        without_cr(s).last() == s.last(),
    decreases s.len(),
{
    if s.len() >= 2 {
        lemma_without_cr_last(s.drop_first());
        assert(s.drop_first().last() == s.last());
    } else {
        assert(s.drop_first() =~= Seq::<char>::empty());
        assert(without_cr(s) == seq![s[0]] + without_cr(Seq::<char>::empty()));
    }
}

proof fn lemma_crlf_round_trip(s: Seq<char>)
    requires
        forall|i: int| 0 <= i < s.len() ==> #[trigger] follows_cr(s, i),
    ensures
        with_cr(without_cr(s)) == s,
    decreases s.len(),
{
    if s.len() == 0 {
    } else if s.len() >= 2 && s[0] == '\r' && s[1] == '\n' {
        let t = s.skip(2);
        assert(s.drop_first().drop_first() =~= t);
        assert forall|i: int| 0 <= i < t.len() implies #[trigger] follows_cr(t, i) by {
            assert(follows_cr(s, i + 2));
        }
        lemma_crlf_round_trip(t);
        let w = without_cr(s);
        assert(s.drop_first()[0] == '\n');
        assert(w == without_cr(s.drop_first()));
        assert(w =~= seq!['\n'] + without_cr(t));
        assert(w.drop_first() =~= without_cr(t));
        assert(with_cr(w) =~= seq!['\r', '\n'] + t);
        assert(seq!['\r', '\n'] + t =~= s);
    } else {
        let t = s.drop_first();
        assert(follows_cr(s, 0));
        assert forall|i: int| 0 <= i < t.len() implies #[trigger] follows_cr(t, i) by {
            assert(follows_cr(s, i + 1));
        }
        lemma_crlf_round_trip(t);
        let w = without_cr(s);
        assert(w.drop_first() =~= without_cr(t));
        assert(seq![s[0]] + t =~= s);
    }
}

/// Byte offsets and positions agree: behind the characters `before`, which take so many bytes,
/// comes the position of so many characters.
pub proof fn law_bytes_and_positions(before: Seq<char>, behind: Seq<char>)
    ensures
        byte_char_index(before + behind, byte_len(before)) == before.len(),
    decreases before.len(),
{
    if before.len() == 0 {
        assert(before + behind =~= behind);
        if behind.len() > 0 {
            assert(utf8_len(behind[0]) > 0);
        }
    } else {
        let rest = before.drop_first();
        law_bytes_and_positions(rest, behind);
        assert((before + behind).drop_first() =~= rest + behind);
        assert(before =~= seq![before[0]] + rest);
        crate::strings::lemma_byte_len_concat(seq![before[0]], rest);
        assert(seq![before[0]].drop_last() =~= Seq::<char>::empty());
        assert(byte_len(Seq::<char>::empty()) == 0);
        assert(byte_len(seq![before[0]]) == utf8_len(before[0]));
    }
}

/// Line feeds are counted one by one.
pub proof fn law_newlines_add_up(a: Seq<char>, b: Seq<char>)
    ensures
        newlines(a + b) == newlines(a) + newlines(b),
        newlines(seq!['\n']) == 1,
        (forall|i: int| 0 <= i < a.len() ==> #[trigger] a[i] != '\n') ==> newlines(a) == 0,
        newlines(a) == 0 ==> forall|i: int| 0 <= i < a.len() ==> #[trigger] a[i] != '\n',
    decreases b.len(), a.len(),
{
    assert(seq!['\n'].drop_last() =~= Seq::<char>::empty());
    assert(newlines(seq!['\n'].drop_last()) == 0);
    if b.len() == 0 {
        assert(a + b =~= a);
    } else {
        law_newlines_add_up(a, b.drop_last());
        assert((a + b).drop_last() =~= a + b.drop_last());
    }
    if a.len() > 0 {
        let t = a.drop_last();
        if b.len() == 0 {
            law_newlines_add_up(t, b);
        } else {
            law_newlines_add_up(t, Seq::empty());
        }
        if forall|i: int| 0 <= i < a.len() ==> #[trigger] a[i] != '\n' {
            assert forall|i: int| 0 <= i < t.len() implies #[trigger] t[i] != '\n' by {
                assert(a[i] != '\n');
            }
            assert(a[a.len() - 1] != '\n');
        }
        if newlines(a) == 0 {
            assert forall|i: int| 0 <= i < a.len() implies #[trigger] a[i] != '\n' by {
                if i < t.len() {
                    assert(t[i] != '\n');
                }
            }
        }
    }
}

/// A line begins behind the line feed that ends the line before it. The first line begins at
/// the front.
pub proof fn law_line_begins_behind_a_line_feed(above: Seq<char>, rest: Seq<char>)
    requires
        above.len() > 0 ==> above.last() == '\n',
    ensures
        line_start(above + rest, newlines(above)) == above.len(),
{
    let s = above + rest;
    let l = newlines(above);
    law_newlines_add_up(above, rest);
    lemma_line_start(s, l);
    let p = line_start(s, l) as int;
    assert(s.take(above.len() as int) =~= above);
    if above.len() > 0 {
        assert(newlines(above.drop_last()) == l - 1);
        if p < above.len() {
            assert(s.take(p) =~= above.drop_last().take(p));
            lemma_newlines_take(above.drop_last(), p);
        } else if p > above.len() {
            let q = p - 1;
            assert(s.take(p).drop_last() =~= s.take(q));
            assert(s.take(p).last() == s[q]);
            lemma_newlines_take(s.take(q), above.len() as int);
            assert(s.take(q).take(above.len() as int) =~= above);
        }
    }
}

/// A file that ends its lines with carriage return and line feed is told by one such line end.
pub proof fn law_line_ending_is_told(s: Seq<char>, i: int)
    requires
        0 <= i < s.len() - 1,
        s[i] == '\r',
        s[i + 1] == '\n',
    ensures
        ending_of(s) == LineEnding::CrLf,
{
    assert(has_crlf(s));
}

/// A text without a carriage return is read as it is, with a line feed behind it where it lacks
/// one, and its lines end in line feeds.
pub proof fn law_plain_text_is_read_as_it_is(s: Seq<char>)
    requires
        forall|i: int| 0 <= i < s.len() ==> #[trigger] s[i] != '\r',
    ensures
        ending_of(s) == LineEnding::Lf,
        s.len() > 0 && s.last() == '\n' ==> closed_lines(without_cr(s)) == s,
        s.len() == 0 || s.last() != '\n' ==> closed_lines(without_cr(s)) == s + seq!['\n'],
{
    assert(!has_crlf(s));
    lemma_without_cr_same(s);
    assert(s.push('\n') =~= s + seq!['\n']);
}

/// A carriage return that no line feed follows is part of the text.
pub proof fn law_lone_carriage_returns_stay(c: char, s: Seq<char>)
    requires
        c != '\n',
    ensures
        without_cr(seq!['\r', c] + s) == seq!['\r'] + without_cr(seq![c] + s),
        without_cr(seq!['\r', '\n'] + s) == without_cr(seq!['\n'] + s),
        c != '\r' ==> without_cr(seq![c] + s) == seq![c] + without_cr(s),
{
    let a = seq!['\r', c] + s;
    assert(a.drop_first() =~= seq![c] + s);
    let b = seq!['\r', '\n'] + s;
    assert(b.drop_first() =~= seq!['\n'] + s);
    assert((seq![c] + s).drop_first() =~= s);
}

} // verus!

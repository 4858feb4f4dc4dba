//! String helpers: building, comparing and slicing text by character.

use vstd::prelude::*;
use vstd::string::*;

verus! {

/// `String::push` appends one character.
pub assume_specification[ String::push ](s: &mut String, c: char)
    ensures
        final(s)@ == old(s)@.push(c),
;

/// `<str as PartialEq>::eq`: two string slices are equal exactly when they hold the
/// same characters.
#[verifier::external_body]
pub(crate) fn str_eq(a: &str, b: &str) -> (r: bool)
    ensures
        r == (a@ == b@),
{
    a == b
}

/// Whether `char::is_whitespace` accepts a character (the Unicode `White_Space`
/// property).
pub uninterp spec fn whitespace(c: char) -> bool;

/// `char::is_whitespace`, under the name [`whitespace`]. Of the ASCII characters, the space
/// and U+0009 to U+000D have the property.
#[verifier::external_body]
pub(crate) fn is_whitespace(c: char) -> (r: bool)
    ensures
        r == whitespace(c),
        (c as u32) < 128 ==> r == (c == ' ' || 9 <= (c as u32) <= 13),
{
    c.is_whitespace()
}

/// Whether `char::is_alphabetic` accepts a character (the Unicode `Alphabetic`
/// property).
pub uninterp spec fn alphabetic(c: char) -> bool;

/// `char::is_alphabetic`, under the name [`alphabetic`].
#[verifier::external_body]
pub(crate) fn is_alphabetic(c: char) -> (r: bool)
    ensures
        r == alphabetic(c),
{
    c.is_alphabetic()
}

/// The characters of a string, in order.
pub fn chars_of(s: &str) -> (r: Vec<char>)
    ensures
        r@ == s@,
{
    let mut out: Vec<char> = Vec::new();
    for c in it: s.chars()
        invariant
            it.seq() == s@,
            out@ == s@.take(it.index() as int),
    {
        out.push(c);
        assert(out@ =~= s@.take(it.index() as int + 1));
    }
    assert(out@ =~= s@);
    out
}

/// The string of `chars[from..to]`.
pub fn string_of_range(chars: &Vec<char>, from: usize, to: usize) -> (r: String)
    requires
        from <= to <= chars@.len(),
    ensures
        r@ == chars@.subrange(from as int, to as int),
{
    let mut out = String::new();
    let mut i: usize = from;
    while i < to
        invariant
            from <= i <= to <= chars@.len(),
            out@ == chars@.subrange(from as int, i as int),
        decreases to - i,
    {
        out.push(chars[i]);
        i = i + 1;
        assert(out@ =~= chars@.subrange(from as int, i as int));
    }
    out
}

/// The string of `chars`.
pub fn string_of(chars: &Vec<char>) -> (r: String)
    ensures
        r@ == chars@,
{
    let r = string_of_range(chars, 0, chars.len());
    assert(chars@.subrange(0, chars@.len() as int) =~= chars@);
    r
}

/// The decimal digit of value `d`.
pub open spec fn digit(d: nat) -> char
    recommends
        d < 10,
{
    (48 + d) as char
}

/// The decimal numeral of `n`, without leading zeros.
pub open spec fn decimal(n: nat) -> Seq<char>
    decreases n,
{
    if n < 10 {
        seq![digit(n)]
    } else {
        decimal(n / 10).push(digit(n % 10))
    }
}

fn digit_char(d: usize) -> (c: char)
    requires
        d < 10,
    ensures
        c == digit(d as nat),
{
    match d {
        0 => '0',
        1 => '1',
        2 => '2',
        3 => '3',
        4 => '4',
        5 => '5',
        6 => '6',
        7 => '7',
        8 => '8',
        _ => '9',
    }
}

/// The decimal numeral of `n`.
pub fn decimal_string(n: usize) -> (r: String)
    ensures
        r@ == decimal(n as nat),
    decreases n,
{
    if n < 10 {
        let mut s = String::new();
        s.push(digit_char(n));
        assert(s@ =~= decimal(n as nat));
        s
    } else {
        let mut s = decimal_string(n / 10);
        s.push(digit_char(n % 10));
        s
    }
}

/// The position of the last `c` in `s`, or -1.
pub open spec fn last_index(s: Seq<char>, c: char) -> int
    decreases s.len(),
{
    if s.len() == 0 {
        -1
    } else if s.last() == c {
        s.len() - 1
    } else {
        last_index(s.drop_last(), c)
    }
}

/// The position of the first `c` in `s`, or -1.
pub open spec fn first_index(s: Seq<char>, c: char) -> int
    decreases s.len(),
{
    if s.len() == 0 {
        -1
    } else if first_index(s.drop_last(), c) >= 0 {
        first_index(s.drop_last(), c)
    } else if s.last() == c {
        s.len() - 1
    } else {
        -1
    }
}

/// What [`last_index`] finds: an occurrence with none behind it, or that there is none.
pub proof fn lemma_last_index(s: Seq<char>, c: char)
    ensures
        -1 <= last_index(s, c) < s.len(),
        last_index(s, c) >= 0 ==> s[last_index(s, c)] == c,
        forall|i: int| last_index(s, c) < i < s.len() ==> s[i] != c,
    decreases s.len(),
{
    if s.len() > 0 && s.last() != c {
        lemma_last_index(s.drop_last(), c);
        assert forall|i: int| last_index(s, c) < i < s.len() implies s[i] != c by {
            if i < s.len() - 1 {
                assert(s.drop_last()[i] != c);
            }
        }
    }
}

/// What [`first_index`] finds: an occurrence with none before it, or that there is none.
pub proof fn lemma_first_index(s: Seq<char>, c: char)
    ensures
        -1 <= first_index(s, c) < s.len(),
        first_index(s, c) >= 0 ==> s[first_index(s, c)] == c,
        forall|i: int|
            0 <= i < s.len() && (first_index(s, c) < 0 || i < first_index(s, c)) ==> s[i] != c,
    decreases s.len(),
{
    if s.len() > 0 {
        lemma_first_index(s.drop_last(), c);
        assert forall|i: int|
            0 <= i < s.len() && (first_index(s, c) < 0 || i < first_index(s, c)) implies s[i]
            != c by {
            if i < s.len() - 1 {
                assert(s.drop_last()[i] != c);
            }
        }
    }
}

/// The position of the first `c` in `chars`.
pub fn find_char(chars: &Vec<char>, c: char) -> (r: Option<usize>)
    ensures
        match r {
            Some(i) => i == first_index(chars@, c),
            None => first_index(chars@, c) == -1,
        },
{
    let n = chars.len();
    let mut i: usize = 0;
    while i < n
        invariant
            i <= n == chars@.len(),
            first_index(chars@.take(i as int), c) == -1,
        decreases n - i,
    {
        assert(chars@.take(i + 1).drop_last() =~= chars@.take(i as int));
        if chars[i] == c {
            proof {
                lemma_first_index_extend(chars@, i + 1, c);
            }
            return Some(i);
        }
        i = i + 1;
    }
    assert(chars@.take(n as int) =~= chars@);
    None
}

/// The position of the last `c` in `chars[..to]`.
pub fn rfind_char(chars: &Vec<char>, to: usize, c: char) -> (r: Option<usize>)
    requires
        to <= chars@.len(),
    ensures
        match r {
            Some(i) => i == last_index(chars@.take(to as int), c),
            None => last_index(chars@.take(to as int), c) == -1,
        },
{
    let mut i: usize = to;
    while i > 0
        invariant
            i <= to <= chars@.len(),
            last_index(chars@.take(to as int), c) == last_index(chars@.take(i as int), c),
        decreases i,
    {
        assert(chars@.take(i as int).drop_last() =~= chars@.take(i - 1));
        if chars[i - 1] == c {
            return Some(i - 1);
        }
        i = i - 1;
    }
    None
}

/// The first occurrence in a beginning of `s` is the first one in `s`.
pub proof fn lemma_first_index_extend(s: Seq<char>, k: int, c: char)
    requires
        0 <= k <= s.len(),
        first_index(s.take(k), c) >= 0,
    ensures
        first_index(s, c) == first_index(s.take(k), c),
    decreases s.len(),
{
    if k < s.len() {
        assert(s.drop_last().take(k) =~= s.take(k));
        lemma_first_index_extend(s.drop_last(), k, c);
    } else {
        assert(s.take(k) =~= s);
    }
}

/// How many bytes a character takes in UTF-8.
pub open spec fn utf8_len(c: char) -> nat {
    if (c as u32) < 0x80 {
        1
    } else if (c as u32) < 0x800 {
        2
    } else if (c as u32) < 0x10000 {
        3
    } else {
        4
    }
}

/// How many bytes a text takes in UTF-8.
pub open spec fn byte_len(s: Seq<char>) -> nat
    decreases s.len(),
{
    if s.len() == 0 {
        0
    } else {
        byte_len(s.drop_last()) + utf8_len(s.last())
    }
}

/// How many bytes `c` takes in UTF-8.
pub fn char_len_utf8(c: char) -> (r: usize)
    ensures
        r == utf8_len(c),
        1 <= r <= 4,
{
    let v: u32 = c as u32;
    if v < 0x80 {
        1
    } else if v < 0x800 {
        2
    } else if v < 0x10000 {
        3
    } else {
        4
    }
}

/// Two texts in a row take as many bytes as both together.
pub proof fn lemma_byte_len_concat(a: Seq<char>, b: Seq<char>)
    ensures
        byte_len(a + b) == byte_len(a) + byte_len(b),
    decreases b.len(),
{
    if b.len() == 0 {
        assert(a + b =~= a);
    } else {
        assert((a + b).drop_last() =~= a + b.drop_last());
        lemma_byte_len_concat(a, b.drop_last());
    }
}

/// A text takes at least one byte for each character.
pub proof fn lemma_byte_len_bounds(s: Seq<char>)
    ensures
        s.len() <= byte_len(s) <= 4 * s.len(),
    decreases s.len(),
{
    if s.len() > 0 {
        lemma_byte_len_bounds(s.drop_last());
    }
}

/// `a` followed by `b`.
pub fn concat2(a: &str, b: &str) -> (r: String)
    ensures
        r@ == a@ + b@,
{
    let mut out = a.to_owned();
    out.append(b);
    out
}

/// `a`, `b` and `c` in a row.
pub fn concat3(a: &str, b: &str, c: &str) -> (r: String)
    ensures
        r@ == a@ + b@ + c@,
{
    let mut out = concat2(a, b);
    out.append(c);
    out
}

/// All parts in a row, with `sep` between two.
pub open spec fn joined_with(parts: Seq<Seq<char>>, sep: Seq<char>) -> Seq<char>
    decreases parts.len(),
{
    if parts.len() == 0 {
        Seq::empty()
    } else if parts.len() == 1 {
        parts[0]
    } else {
        joined_with(parts.drop_last(), sep) + sep + parts.last()
    }
}

/// All parts in a row, with `sep` between two.
pub fn join_strings(parts: &Vec<String>, sep: &str) -> (r: String)
    ensures
        r@ == joined_with(parts@.map_values(|s: String| s@), sep@),
{
    let mut out = String::new();
    let n = parts.len();
    let mut i: usize = 0;
    let ghost t = parts@.map_values(|s: String| s@);
    assert(t.take(0) =~= Seq::empty());
    while i < n
        invariant
            i <= n == parts@.len(),
            t == parts@.map_values(|s: String| s@),
            out@ == joined_with(t.take(i as int), sep@),
        decreases n - i,
    {
        proof {
            assert(t.take(i + 1).drop_last() =~= t.take(i as int));
            assert(t.take(i + 1).last() == parts@[i as int]@);
            if i == 0 {
                assert(t.take(1)[0] == parts@[0]@);
            }
        }
        if i > 0 {
            out.append(sep);
        } else {
            assert(out@ =~= Seq::<char>::empty());
        }
        out.append(parts[i].as_str());
        if i == 0 {
            assert(out@ =~= parts@[0]@);
        }
        i = i + 1;
    }
    assert(t.take(n as int) =~= t);
    out
}

/// The number that a text is in decimal, with a plus sign before it or not; `None` for any
/// other text.
pub open spec fn number_of(s: Seq<char>) -> Option<nat> {
    let digits = if s.len() > 0 && s[0] == '+' {
        s.drop_first()
    } else {
        s
    };
    if digits.len() == 0 {
        None
    } else {
        value_of(digits)
    }
}

/// The value of a row of digits.
pub open spec fn value_of(digits: Seq<char>) -> Option<nat>
    decreases digits.len(),
{
    if digits.len() == 0 {
        Some(0)
    } else {
        let c = digits.last();
        match value_of(digits.drop_last()) {
            Some(v) => if '0' <= c && c <= '9' {
                Some(v * 10 + (c as nat - '0' as nat) as nat)
            } else {
                None
            },
            None => None,
        }
    }
}

proof fn lemma_value_monotonic(digits: Seq<char>, k: int)
    requires
        0 <= k <= digits.len(),
        value_of(digits) is Some,
    ensures
        value_of(digits.take(k)) is Some,
        value_of(digits.take(k))->0 <= value_of(digits)->0,
    decreases digits.len() - k,
{
    if k < digits.len() {
        lemma_value_monotonic(digits, k + 1);
        assert(digits.take(k + 1).drop_last() =~= digits.take(k));
    } else {
        assert(digits.take(k) =~= digits);
    }
}

/// Reads a number that fits in `usize`; see [`number_of`].
pub fn parse_usize(s: &str) -> (r: Option<usize>)
    ensures
        match number_of(s@) {
            Some(v) => if v <= usize::MAX {
                r == Some(v as usize)
            } else {
                r is None
            },
            None => r is None,
        },
{
    let chars = chars_of(s);
    let n = chars.len();
    let start: usize = if n > 0 && chars[0] == '+' {
        1
    } else {
        0
    };
    let ghost digits = chars@.skip(start as int);
    proof {
        if start == 1 {
            assert(digits =~= s@.drop_first());
        } else {
            assert(digits =~= s@);
        }
    }
    if start == n {
        return None;
    }
    let mut v: usize = 0;
    let mut i: usize = start;
    assert(digits.take(0) =~= Seq::empty());
    while i < n
        invariant
            start <= i <= n == chars@.len(),
            digits == chars@.skip(start as int),
            number_of(s@) == value_of(digits),
            value_of(digits.take(i - start)) == Some(v as nat),
        decreases n - i,
    {
        let c = chars[i];
        let ghost k = i - start;
        assert(digits.take(k + 1).drop_last() =~= digits.take(k));
        assert(digits.take(k + 1).last() == c);
        proof {
            if value_of(digits) is Some {
                lemma_value_monotonic(digits, k + 1);
            }
        }
        if c < '0' || '9' < c {
            return None;
        }
        let d: usize = c as usize - '0' as usize;
        assert(value_of(digits.take(k + 1)) == Some((v * 10 + d) as nat));
        if v > usize::MAX / 10 {
            assert(v * 10 + d > usize::MAX) by (nonlinear_arith)
                requires
                    v > usize::MAX / 10,
                    d >= 0,
            ;
            return None;
        }
        let w: usize = v * 10;
        if d > usize::MAX - w {
            return None;
        }
        v = w + d;
        i = i + 1;
    }
    assert(digits.take(n - start) =~= digits);
    Some(v)
}

/// `s` without whitespace before it.
pub open spec fn trimmed_start(s: Seq<char>) -> Seq<char>
    decreases s.len(),
{
    if s.len() > 0 && whitespace(s[0]) {
        trimmed_start(s.drop_first())
    } else {
        s
    }
}

/// `s` without whitespace behind it.
pub open spec fn trimmed_end(s: Seq<char>) -> Seq<char>
    decreases s.len(),
{
    if s.len() > 0 && whitespace(s.last()) {
        trimmed_end(s.drop_last())
    } else {
        s
    }
}

/// `s` without whitespace around it.
pub open spec fn trimmed(s: Seq<char>) -> Seq<char> {
    trimmed_end(trimmed_start(s))
}

/// The characters from `from` up to `to`, without whitespace around them.
pub fn trim_range(chars: &Vec<char>, from: usize, to: usize) -> (r: (usize, usize))
    requires
        from <= to <= chars@.len(),
    ensures
        from <= r.0 <= r.1 <= to,
        chars@.subrange(r.0 as int, r.1 as int) == trimmed(
            chars@.subrange(from as int, to as int),
        ),
{
    let ghost s = chars@.subrange(from as int, to as int);
    let mut a: usize = from;
    while a < to && is_whitespace(chars[a])
        invariant
            from <= a <= to <= chars@.len(),
            s == chars@.subrange(from as int, to as int),
            trimmed_start(s) == trimmed_start(chars@.subrange(a as int, to as int)),
        decreases to - a,
    {
        assert(chars@.subrange(a as int, to as int).drop_first() =~= chars@.subrange(
            a + 1,
            to as int,
        ));
        a = a + 1;
    }
    let ghost t = chars@.subrange(a as int, to as int);
    assert(trimmed_start(s) == t);
    let mut b: usize = to;
    while a < b && is_whitespace(chars[b - 1])
        invariant
            from <= a <= b <= to <= chars@.len(),
            trimmed_end(t) == trimmed_end(chars@.subrange(a as int, b as int)),
        decreases b,
    {
        assert(chars@.subrange(a as int, b as int).drop_last() =~= chars@.subrange(
            a as int,
            b - 1,
        ));
        b = b - 1;
    }
    (a, b)
}

/// An argument without whitespace around it; `None` where nothing is left.
pub fn trimmed_arg(arg: Option<&str>) -> (r: Option<String>)
    ensures
        match arg {
            Some(a) => if trimmed(a@).len() > 0 {
                r is Some && r->0@ == trimmed(a@)
            } else {
                r is None
            },
            None => r is None,
        },
{
    match arg {
        Some(a) => {
            let chars = chars_of(a);
            let n = chars.len();
            assert(chars@.subrange(0, n as int) =~= chars@);
            let (from, to) = trim_range(&chars, 0, n);
            if from < to {
                Some(string_of_range(&chars, from, to))
            } else {
                None
            }
        },
        None => None,
    }
}

/// Whether `s` starts with `p`.
pub fn starts_with(s: &str, p: &str) -> (r: bool)
    ensures
        r == p@.is_prefix_of(s@),
{
    let a = chars_of(s);
    let b = chars_of(p);
    if b.len() > a.len() {
        return false;
    }
    let n = b.len();
    let mut i: usize = 0;
    while i < n
        invariant
            i <= n == b@.len(),
            n <= a@.len(),
            a@ == s@,
            b@ == p@,
            forall|j: int| 0 <= j < i ==> a@[j] == b@[j],
        decreases n - i,
    {
        if a[i] != b[i] {
            proof {
                if p@.is_prefix_of(s@) {
                    assert(s@.subrange(0, p@.len() as int)[i as int] == p@[i as int]);
                }
            }
            return false;
        }
        i = i + 1;
    }
    assert(b@ =~= a@.subrange(0, n as int));
    true
}

/// Parts are put in a row with the separator between two of them.
pub proof fn law_parts_are_joined(parts: Seq<Seq<char>>, x: Seq<char>, sep: Seq<char>)
    ensures
        joined_with(Seq::empty(), sep) == Seq::<char>::empty(),
        joined_with(seq![x], sep) == x,
        parts.len() > 0 ==> joined_with(parts.push(x), sep) == joined_with(parts, sep) + sep + x,
{
    assert(parts.push(x).drop_last() =~= parts);
}

/// The numeral of a number is read as that number, and has no zero in front.
pub proof fn law_numerals_are_read_back(n: nat)
    ensures
        value_of(decimal(n)) == Some(n),
        number_of(decimal(n)) == Some(n),
        number_of(seq!['+'] + decimal(n)) == Some(n),
        decimal(n).len() > 0,
        n > 0 ==> decimal(n)[0] != '0',
        '0' <= decimal(n)[0] <= '9',
    decreases n,
{
    let d = decimal(n);
    let c = digit(n % 10);
    assert(c as nat == 48 + n % 10);
    if n < 10 {
        assert(d =~= seq![c]);
        assert(d.drop_last() =~= Seq::<char>::empty());
        assert(value_of(Seq::<char>::empty()) == Some(0nat));
    } else {
        law_numerals_are_read_back(n / 10);
        assert(d.drop_last() =~= decimal(n / 10));
    }
    assert((seq!['+'] + d).drop_first() =~= d);
}

/// A text that holds anything but digits is no number.
pub proof fn law_only_digits_are_numbers(s: Seq<char>, i: int)
    requires
        0 <= i < s.len(),
        !('0' <= s[i] && s[i] <= '9'),
    ensures
        value_of(s) is None,
        i > 0 || s[0] != '+' ==> number_of(s) is None,
    decreases s.len(),
{
    if i < s.len() - 1 {
        assert(s.drop_last()[i] == s[i]);
        lemma_only_digits(s.drop_last(), i);
    }
    if i > 0 && s[0] == '+' {
        assert(s.drop_first()[i - 1] == s[i]);
        lemma_only_digits(s.drop_first(), i - 1);
    }
}

proof fn lemma_only_digits(s: Seq<char>, i: int)
    requires
        0 <= i < s.len(),
        !('0' <= s[i] && s[i] <= '9'),
    ensures
        value_of(s) is None,
    decreases s.len(),
{
    if i < s.len() - 1 {
        assert(s.drop_last()[i] == s[i]);
        lemma_only_digits(s.drop_last(), i);
    }
}

/// All of `s` is whitespace.
pub open spec fn blank(s: Seq<char>) -> bool {
    forall|i: int| 0 <= i < s.len() ==> whitespace(#[trigger] s[i])
}

proof fn lemma_trimmed_start(a: Seq<char>, s: Seq<char>)
    requires
        blank(a),
        s.len() > 0 ==> !whitespace(s[0]),
    ensures
        trimmed_start(a + s) == s,
    decreases a.len(),
{
    if a.len() == 0 {
        assert(a + s =~= s);
    } else {
        assert(whitespace(a[0]));
        let b = a.drop_first();
        assert((a + s).drop_first() =~= b + s);
        assert forall|i: int| 0 <= i < b.len() implies whitespace(#[trigger] b[i]) by {
            assert(whitespace(a[i + 1]));
        }
        lemma_trimmed_start(b, s);
    }
}

proof fn lemma_trimmed_end(s: Seq<char>, b: Seq<char>)
    requires
        blank(b),
        s.len() > 0 ==> !whitespace(s.last()),
    ensures
        trimmed_end(s + b) == s,
    decreases b.len(),
{
    if b.len() == 0 {
        assert(s + b =~= s);
    } else {
        assert(whitespace(b[b.len() - 1]));
        let c = b.drop_last();
        assert((s + b).drop_last() =~= s + c);
        assert forall|i: int| 0 <= i < c.len() implies whitespace(#[trigger] c[i]) by {
            assert(whitespace(b[i]));
        }
        lemma_trimmed_end(s, c);
    }
}

/// Trimming takes the whitespace before and behind a text away, and nothing inside it. Of
/// whitespace alone nothing is left.
pub proof fn law_trimmed(before: Seq<char>, s: Seq<char>, behind: Seq<char>)
    requires
        blank(before),
        blank(behind),
        s.len() > 0,
        !whitespace(s[0]),
        !whitespace(s.last()),
    ensures
        trimmed(before + s + behind) == s,
        trimmed(before).len() == 0,
{
    assert(before + s + behind =~= before + (s + behind));
    lemma_trimmed_start(before, s + behind);
    lemma_trimmed_end(s, behind);
    let none = Seq::<char>::empty();
    assert(before + none =~= before);
    lemma_trimmed_start(before, none);
}

/// The first and the last place of a character are its own where it stands only once.
pub proof fn law_places_of_a_char(a: Seq<char>, c: char, b: Seq<char>)
    requires
        forall|i: int| 0 <= i < a.len() ==> #[trigger] a[i] != c,
        forall|i: int| 0 <= i < b.len() ==> #[trigger] b[i] != c,
    ensures
        first_index(a.push(c) + b, c) == a.len(),
        last_index(a.push(c) + b, c) == a.len(),
        first_index(a, c) == -1,
        last_index(a, c) == -1,
{
    let s = a.push(c) + b;
    let n = a.len() as int;
    assert(s[n] == c);
    lemma_first_index(s, c);
    lemma_last_index(s, c);
    let f = first_index(s, c);
    let l = last_index(s, c);
    if 0 <= f < n {
        assert(s[f] == a[f]);
    }
    if l > n {
        assert(s[l] == b[l - n - 1]);
    }
    lemma_first_index(a, c);
    lemma_last_index(a, c);
    if first_index(a, c) >= 0 {
        assert(a[first_index(a, c)] == c);
    }
    if last_index(a, c) >= 0 {
        assert(a[last_index(a, c)] == c);
    }
}

/// Characters of the ASCII range take one byte each.
pub proof fn law_ascii_takes_one_byte(s: Seq<char>)
    requires
        forall|i: int| 0 <= i < s.len() ==> (#[trigger] s[i] as u32) < 128,
    ensures
        byte_len(s) == s.len(),
    decreases s.len(),
{
    if s.len() > 0 {
        let t = s.drop_last();
        assert forall|i: int| 0 <= i < t.len() implies (#[trigger] t[i] as u32) < 128 by {
            assert((s[i] as u32) < 128);
        }
        assert((s[s.len() - 1] as u32) < 128);
        law_ascii_takes_one_byte(t);
    }
}

} // verus!

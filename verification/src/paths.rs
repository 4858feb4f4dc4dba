//! Paths as text: what separates their components, and what can be told from that.

use crate::strings::{
    chars_of, concat2, last_index, lemma_last_index, rfind_char, string_of_range,
};
use vstd::prelude::*;
use vstd::string::*;

verus! {

/// Which characters separate the components of a path. It depends on the system.
#[derive(Debug, Clone, Copy, PartialEq, Eq, Structural)]
pub enum Separators {
    /// `/` alone.
    Slash,
    /// `/` and `\`, and `\` is put between components. A path may begin with a drive, a
    /// letter with a colon behind it. The names of a server and of what it shares count as
    /// components.
    SlashAndBackslash,
}

/// A path, and what separates its components.
#[derive(Debug)]
pub struct FilePath {
    pub text: String,
    pub separators: Separators,
}

impl View for FilePath {
    type V = Seq<char>;

    open spec fn view(&self) -> Seq<char> {
        self.text@
    }
}

impl Separators {
    pub open spec fn separates(self, c: char) -> bool {
        c == '/' || (self == Separators::SlashAndBackslash && c == '\\')
    }

    /// The separator that is put between two components.
    pub open spec fn put_between(self) -> char {
        match self {
            Separators::Slash => '/',
            Separators::SlashAndBackslash => '\\',
        }
    }

    /// The position of the last separator of `p`, or -1.
    pub open spec fn last_in(self, p: Seq<char>) -> int {
        let slash = last_index(p, '/');
        let backslash = last_index(p, '\\');
        if self == Separators::SlashAndBackslash && backslash > slash {
            backslash
        } else {
            slash
        }
    }

    /// How many characters of `p` name a drive.
    pub open spec fn drive_len(self, p: Seq<char>) -> int {
        if self == Separators::SlashAndBackslash && p.len() >= 2 && letter(p[0]) && p[1] == ':' {
            2
        } else {
            0
        }
    }

    /// The path does not depend on the working directory. Where there are drives, it names
    /// one and begins at its root, or it begins with two separators, and names a server.
    pub open spec fn absolute(self, p: Seq<char>) -> bool {
        match self {
            Separators::Slash => p.len() > 0 && p[0] == '/',
            Separators::SlashAndBackslash => {
                ||| self.drive_len(p) == 2 && p.len() >= 3 && self.separates(p[2])
                ||| p.len() >= 2 && self.separates(p[0]) && self.separates(p[1])
            },
        }
    }

    pub fn is_separator(self, c: char) -> (r: bool)
        ensures
            r == self.separates(c),
    {
        c == '/' || (self == Separators::SlashAndBackslash && c == '\\')
    }

    /// The position of the last separator of `chars[..to]`.
    pub fn rfind(self, chars: &Vec<char>, to: usize) -> (r: Option<usize>)
        requires
            to <= chars@.len(),
        ensures
            match r {
                Some(i) => i == self.last_in(chars@.take(to as int)) && i < to,
                None => self.last_in(chars@.take(to as int)) == -1,
            },
    {
        proof {
            lemma_last_index(chars@.take(to as int), '/');
            lemma_last_index(chars@.take(to as int), '\\');
        }
        let slash = rfind_char(chars, to, '/');
        if self == Separators::Slash {
            return slash;
        }
        match (slash, rfind_char(chars, to, '\\')) {
            (Some(a), Some(b)) => Some(
                if b > a {
                    b
                } else {
                    a
                },
            ),
            (Some(a), None) => Some(a),
            (None, b) => b,
        }
    }

    /// The number of characters that name a drive.
    pub fn drive_chars(self, chars: &Vec<char>) -> (r: usize)
        ensures
            r == self.drive_len(chars@),
            r <= chars@.len(),
    {
        if self == Separators::SlashAndBackslash && chars.len() >= 2 && is_letter(chars[0])
            && chars[1] == ':' {
            2
        } else {
            0
        }
    }

    /// Whether the path does not depend on the working directory.
    pub fn is_absolute(self, path: &str) -> (r: bool)
        ensures
            r == self.absolute(path@),
    {
        let chars = chars_of(path);
        let n = chars.len();
        match self {
            Separators::Slash => n > 0 && chars[0] == '/',
            Separators::SlashAndBackslash => {
                (self.drive_chars(&chars) == 2 && n >= 3 && self.is_separator(chars[2])) || (n >= 2
                    && self.is_separator(chars[0]) && self.is_separator(chars[1]))
            },
        }
    }
}

/// A letter of the alphabet, as drives have them.
pub open spec fn letter(c: char) -> bool {
    'a' <= c <= 'z' || 'A' <= c <= 'Z'
}

fn is_letter(c: char) -> (r: bool)
    ensures
        r == letter(c),
{
    ('a' <= c && c <= 'z') || ('A' <= c && c <= 'Z')
}

/// What [`Separators::last_in`] finds lies in the path.
pub proof fn lemma_last_in(s: Separators, p: Seq<char>)
    ensures
        -1 <= s.last_in(p) < p.len(),
        s.last_in(p) >= 0 ==> s.separates(p[s.last_in(p)]),
        forall|i: int| s.last_in(p) < i < p.len() ==> !#[trigger] s.separates(p[i]),
{
    lemma_last_index(p, '/');
    lemma_last_index(p, '\\');
}

/// The last component of a path without a drive. Empty components and `.` do not count;
/// there is none where the path is empty, the root, or ends in `..`.
pub open spec fn last_component(p: Seq<char>, s: Separators) -> Option<Seq<char>>
    decreases p.len(),
    via last_component_decreases
{
    let at = s.last_in(p);
    let piece = p.skip(at + 1);
    if piece == Seq::<char>::empty() || piece == seq!['.'] {
        if at < 0 {
            None
        } else {
            last_component(p.take(at), s)
        }
    } else if piece == seq!['.', '.'] {
        None
    } else {
        Some(piece)
    }
}

#[via_fn]
proof fn last_component_decreases(p: Seq<char>, s: Separators) {
    lemma_last_in(s, p);
}

/// The last component of a path; a drive is none.
pub open spec fn basename(p: Seq<char>, s: Separators) -> Option<Seq<char>> {
    last_component(p.skip(s.drive_len(p)), s)
}

/// The last component of `path`.
pub fn file_name(path: &str, separators: Separators) -> (r: Option<String>)
    ensures
        match r {
            Some(n) => basename(path@, separators) == Some(n@),
            None => basename(path@, separators) is None,
        },
{
    let all = chars_of(path);
    let drive = separators.drive_chars(&all);
    let body = string_of_range(&all, drive, all.len());
    let chars = chars_of(body.as_str());
    assert(chars@ =~= path@.skip(separators.drive_len(path@)));
    let mut to: usize = chars.len();
    assert(chars@.take(to as int) =~= chars@);
    loop
        invariant
            to <= chars@.len(),
            last_component(chars@.take(to as int), separators) == basename(path@, separators),
        decreases to,
    {
        let ghost p = chars@.take(to as int);
        proof {
            lemma_last_in(separators, p);
        }
        let at = separators.rfind(&chars, to);
        let from: usize = match at {
            Some(i) => i + 1,
            None => 0,
        };
        let ghost piece = p.skip(from as int);
        assert(piece =~= chars@.subrange(from as int, to as int));
        let n: usize = to - from;
        if n == 0 || (n == 1 && chars[from] == '.') {
            assert(piece =~= Seq::<char>::empty() || piece =~= seq!['.']);
            match at {
                None => {
                    return None;
                },
                Some(i) => {
                    to = i;
                    assert(p.take(i as int) =~= chars@.take(i as int));
                },
            }
        } else if n == 2 && chars[from] == '.' && chars[from + 1] == '.' {
            assert(piece =~= seq!['.', '.']);
            assert(piece != seq!['.']) by {
                assert(seq!['.'].len() == 1);
            }
            return None;
        } else {
            proof {
                assert(piece != Seq::<char>::empty());
                if piece == seq!['.'] {
                    assert(piece[0] == '.' && piece.len() == 1);
                }
                if piece == seq!['.', '.'] {
                    assert(piece[0] == '.' && piece[1] == '.' && piece.len() == 2);
                }
            }
            return Some(string_of_range(&chars, from, to));
        }
    }
}

/// `name` inside the directory `dir`. A drive alone stands for the directory on it that is
/// worked in, and no separator is put behind it.
pub open spec fn inside_dir(dir: Seq<char>, name: Seq<char>, s: Separators) -> Seq<char> {
    if dir.len() == 0 || s.separates(dir.last()) || dir.len() == s.drive_len(dir) {
        dir + name
    } else {
        dir.push(s.put_between()) + name
    }
}

/// `name` inside the directory `dir`.
pub fn join_dir(dir: &str, name: &str, separators: Separators) -> (r: String)
    ensures
        r@ == inside_dir(dir@, name@, separators),
{
    let chars = chars_of(dir);
    let n = chars.len();
    if n == 0 || separators.is_separator(chars[n - 1]) || n == separators.drive_chars(&chars) {
        concat2(dir, name)
    } else {
        let mut r = dir.to_owned();
        r.push(
            match separators {
                Separators::Slash => '/',
                Separators::SlashAndBackslash => '\\',
            },
        );
        r.append(name);
        r
    }
}

impl FilePath {
    pub fn new(text: String, separators: Separators) -> (r: FilePath)
        ensures
            r == (FilePath { text, separators }),
    {
        FilePath { text, separators }
    }

    /// The last component.
    pub open spec fn base(&self) -> Option<Seq<char>> {
        basename(self.text@, self.separators)
    }

    /// The last component.
    pub fn file_name(&self) -> (r: Option<String>)
        ensures
            match r {
                Some(n) => self.base() == Some(n@),
                None => self.base() is None,
            },
    {
        file_name(self.text.as_str(), self.separators)
    }

    pub fn as_str(&self) -> (r: &str)
        ensures
            r@ == self@,
    {
        self.text.as_str()
    }
}

impl Clone for FilePath {
    fn clone(&self) -> (r: Self)
        ensures
            r == *self,
    {
        FilePath { text: self.text.clone(), separators: self.separators }
    }
}

/// The name of a file is what stands behind the last separator of its path. A separator behind it
/// does not change that, nor does a component that is a single dot.
pub proof fn law_name_is_behind_the_last_separator(dir: Seq<char>, name: Seq<char>, s: Separators)
    requires
        name.len() > 0,
        name != seq!['.'],
        name != seq!['.', '.'],
        forall|i: int| 0 <= i < name.len() ==> !s.separates(#[trigger] name[i]),
    ensures
        last_component(dir.push('/') + name, s) == Some(name),
        last_component(name, s) == Some(name),
        last_component((dir.push('/') + name).push('/'), s) == Some(name),
        s == Separators::Slash ==> basename(dir.push('/') + name, s) == Some(name),
{
    let p = dir.push('/') + name;
    let n = dir.len() as int;
    lemma_last_in(s, p);
    let i = s.last_in(p);
    assert(s.separates(p[n]));
    if i > n {
        assert(p[i] == name[i - n - 1]);
    }
    assert(p.skip(n + 1) =~= name);
    lemma_last_in(s, name);
    if s.last_in(name) >= 0 {
        assert(s.separates(name[s.last_in(name)]));
    }
    assert(name.skip(0) =~= name);
    let q = p.push('/');
    lemma_last_in(s, q);
    assert(s.separates(q[q.len() - 1]));
    assert(q.skip(q.len() as int) =~= Seq::<char>::empty());
    assert(q.take(q.len() - 1) =~= p);
    assert(p.skip(0) =~= p);
}

/// A path that is empty, is a root or ends in two dots names no file.
pub proof fn law_no_name(dir: Seq<char>, s: Separators)
    ensures
        last_component(Seq::empty(), s) is None,
        last_component(seq!['/'], s) is None,
        last_component(dir + seq!['/', '.', '.'], s) is None,
{
    let none = Seq::<char>::empty();
    lemma_last_in(s, none);
    assert(none.skip(0) =~= none);
    assert(last_component(none, s) is None);
    let root = seq!['/'];
    lemma_last_in(s, root);
    assert(s.separates(root[0]));
    assert(root.skip(1) =~= none);
    assert(root.take(0) =~= none);
    let p = dir + seq!['/', '.', '.'];
    lemma_last_in(s, p);
    let n = dir.len() as int;
    assert(s.separates(p[n]));
    assert(p[n + 1] == '.' && p[n + 2] == '.');
    assert(s.last_in(p) == n);
    assert(p.skip(n + 1) =~= seq!['.', '.']);
    assert(seq!['.', '.'].len() != seq!['.'].len());
}

/// Which characters separate, and that a name put into a directory is found in it.
pub proof fn law_separators(c: char)
    ensures
        Separators::Slash.separates(c) == (c == '/'),
        Separators::SlashAndBackslash.separates(c) == (c == '/' || c == '\\'),
        Separators::Slash.separates(Separators::Slash.put_between()),
        Separators::SlashAndBackslash.separates(Separators::SlashAndBackslash.put_between()),
{
}

/// A name that is put into a directory is the name of the path that comes of it, and the directory
/// stands in front, with one separator between the two.
pub proof fn law_joined_name_is_found(dir: Seq<char>, name: Seq<char>)
    requires
        dir.len() > 0,
        name.len() > 0,
        name != seq!['.'],
        name != seq!['.', '.'],
        forall|i: int| 0 <= i < name.len() ==> #[trigger] name[i] != '/',
    ensures
        basename(inside_dir(dir, name, Separators::Slash), Separators::Slash) == Some(name),
        dir.last() != '/' ==> inside_dir(dir, name, Separators::Slash) == dir + seq!['/'] + name,
        dir.last() == '/' ==> inside_dir(dir, name, Separators::Slash) == dir + name,
        inside_dir(Seq::empty(), name, Separators::Slash) == name,
{
    let s = Separators::Slash;
    assert(Seq::<char>::empty() + name =~= name);
    if dir.last() == '/' {
        law_name_is_behind_the_last_separator(dir.drop_last(), name, s);
        assert(dir.drop_last().push('/') =~= dir);
    } else {
        law_name_is_behind_the_last_separator(dir, name, s);
        assert(dir.push('/') + name =~= dir + seq!['/'] + name);
    }
}

/// Without drives, a path is absolute where it begins with a slash.
pub proof fn law_absolute_paths(p: Seq<char>)
    ensures
        Separators::Slash.absolute(seq!['/'] + p),
        !Separators::Slash.absolute(Seq::empty()),
        p.len() > 0 && p[0] != '/' ==> !Separators::Slash.absolute(p),
        Separators::SlashAndBackslash.absolute(seq!['C', ':', '\\'] + p),
        Separators::SlashAndBackslash.absolute(seq!['c', ':', '/'] + p),
        Separators::SlashAndBackslash.absolute(seq!['\\', '\\'] + p),
        p.len() > 0 && p[0] != '/' && p[0] != '\\' ==> !Separators::SlashAndBackslash.absolute(
            seq!['/'] + p,
        ) && !Separators::SlashAndBackslash.absolute(seq!['C', ':'] + p),
{
    let both = Separators::SlashAndBackslash;
    let a = seq!['C', ':', '\\'] + p;
    assert(a[0] == 'C' && a[1] == ':' && a[2] == '\\');
    let b = seq!['c', ':', '/'] + p;
    assert(b[0] == 'c' && b[1] == ':' && b[2] == '/');
    let c = seq!['\\', '\\'] + p;
    assert(c[0] == '\\' && c[1] == '\\');
    if p.len() > 0 && p[0] != '/' && p[0] != '\\' {
        let d = seq!['/'] + p;
        assert(d[0] == '/' && d[1] == p[0]);
        let e = seq!['C', ':'] + p;
        assert(e[0] == 'C' && e[1] == ':' && e[2] == p[0]);
    }
}

} // verus!

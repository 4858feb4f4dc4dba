//! Languages: how they are registered, and how the language of a file is found.

use crate::name_map::NameMap;
use crate::paths::{basename, file_name, Separators};
use crate::registers::{copy_texts, texts};
use crate::strings::{
    chars_of, concat2, is_whitespace, last_index, lemma_last_index, rfind_char, starts_with, str_eq,
    string_of_range, whitespace,
};
use vstd::prelude::*;
use vstd::string::*;

verus! {

// ---------------------------------------------------------------------------
// Globs
// ---------------------------------------------------------------------------

/// `globset::GlobSet`: globs that are matched together.
#[verifier::external_type_specification]
#[verifier::external_body]
pub struct ExGlobSet(globset::GlobSet);

/// `globset::GlobSetBuilder`: globs that are collected.
#[verifier::external_type_specification]
#[verifier::external_body]
pub struct ExGlobSetBuilder(globset::GlobSetBuilder);

/// The globs of a set, in the order they were added.
pub uninterp spec fn set_globs(s: globset::GlobSet) -> Seq<Seq<char>>;

/// The globs that were added to a builder, in order.
pub uninterp spec fn builder_globs(b: globset::GlobSetBuilder) -> Seq<Seq<char>>;

/// Whether `globset::Glob::new` accepts a pattern.
pub uninterp spec fn glob_valid(pattern: Seq<char>) -> bool;

/// What `globset::GlobSetBuilder::build` says is wrong with globs; `None` where it builds
/// them.
pub uninterp spec fn globs_error(globs: Seq<Seq<char>>) -> Option<Seq<char>>;

/// Whether a glob matches a file name, as `globset::GlobSet::matches` sees it.
pub uninterp spec fn glob_matches(pattern: Seq<char>, name: Seq<char>) -> bool;

/// `globset::GlobSet::empty` is a set without globs.
#[verifier::external_body]
fn no_globs() -> (r: globset::GlobSet)
    ensures
        set_globs(r) == Seq::<Seq<char>>::empty(),
{
    globset::GlobSet::empty()
}

/// `globset::GlobSetBuilder::new` has no globs yet.
#[verifier::external_body]
fn new_builder() -> (r: globset::GlobSetBuilder)
    ensures
        builder_globs(r) == Seq::<Seq<char>>::empty(),
{
    globset::GlobSetBuilder::new()
}

/// `globset::GlobSetBuilder::add` puts a glob behind those that it has. A pattern of which
/// `globset::Glob::new` makes no glob is not added.
#[verifier::external_body]
fn builder_add(b: &mut globset::GlobSetBuilder, pattern: &str) -> (r: bool)
    ensures
        r == glob_valid(pattern@),
        builder_globs(*final(b)) == (if glob_valid(pattern@) {
            builder_globs(*old(b)).push(pattern@)
        } else {
            builder_globs(*old(b))
        }),
{
    match globset::Glob::new(pattern) {
        Ok(glob) => {
            b.add(glob);
            true
        },
        Err(_) => false,
    }
}

/// `globset::GlobSetBuilder::build` makes a set of the globs that were added, or says what
/// is wrong with them.
#[verifier::external_body]
fn builder_build(b: &globset::GlobSetBuilder) -> (r: Result<globset::GlobSet, String>)
    ensures
        match r {
            Ok(s) => globs_error(builder_globs(*b)) is None && set_globs(s) == builder_globs(*b),
            Err(e) => globs_error(builder_globs(*b)) == Some(e@),
        },
{
    b.build().map_err(|e| e.to_string())
}

/// `globset::GlobSet::matches` gives the numbers of the globs that match, in ascending
/// order.
#[verifier::external_body]
fn set_matches(s: &globset::GlobSet, name: &str) -> (r: Vec<usize>)
    ensures
        forall|i: int, j: int| 0 <= i < j < r@.len() ==> r@[i] < r@[j],
        forall|k: int|
            0 <= k < set_globs(*s).len() && #[trigger] glob_matches(set_globs(*s)[k], name@)
                ==> exists|i: int| 0 <= i < r@.len() && r@[i] == k,
        forall|i: int|
            0 <= i < r@.len() ==> (#[trigger] r@[i]) < set_globs(*s).len() && glob_matches(
                set_globs(*s)[r@[i] as int],
                name@,
            ),
{
    s.matches(name)
}

/// A text in lower case, as `str::to_lowercase` has it.
pub uninterp spec fn lower_case(s: Seq<char>) -> Seq<char>;

/// `str::to_lowercase`, under the name [`lower_case`].
#[verifier::external_body]
fn to_lower_case(s: &str) -> (r: String)
    ensures
        r@ == lower_case(s@),
{
    s.to_lowercase()
}

// ---------------------------------------------------------------------------
// Languages
// ---------------------------------------------------------------------------

/// What identifies a language.
#[derive(Debug)]
pub struct LanguageConfig {
    pub name: String,
    /// The endings of its files, in lower case.
    pub extensions: Vec<String>,
    /// The names of its files.
    pub globs: Vec<String>,
    /// The interpreters that run its files.
    pub shebangs: Vec<String>,
    /// The grammar that is attached to it.
    pub grammar: Option<u64>,
}

/// A language as a value.
pub struct Lang {
    pub name: Seq<char>,
    pub extensions: Seq<Seq<char>>,
    pub globs: Seq<Seq<char>>,
    pub shebangs: Seq<Seq<char>>,
    pub grammar: Option<u64>,
}

impl View for LanguageConfig {
    type V = Lang;

    open spec fn view(&self) -> Lang {
        Lang {
            name: self.name@,
            extensions: texts(self.extensions@),
            globs: texts(self.globs@),
            shebangs: texts(self.shebangs@),
            grammar: self.grammar,
        }
    }
}

/// What is wrong with the globs of a language.
#[derive(Debug)]
pub enum RegisterError {
    GlobBuild { error: String },
}

impl RegisterError {
    /// The error as a sentence.
    pub fn message(&self) -> (r: String)
        ensures
            r@ == "glob set compilation failed: "@ + self->error@,
    {
        match self {
            RegisterError::GlobBuild { error } => concat2(
                "glob set compilation failed: ",
                error.as_str(),
            ),
        }
    }
}

/// All languages. A file is told by its name, its ending, or the interpreter in its first
/// line.
pub struct LanguageRegistry {
    pub by_name: NameMap<LanguageConfig>,
    /// The language of each ending.
    pub by_ext: NameMap<String>,
    pub compiled_globs: globset::GlobSet,
    /// The language of each glob.
    pub glob_lang_names: Vec<String>,
    /// The language of each interpreter.
    pub shebang_to_name: NameMap<String>,
    /// The languages in the order they were registered; a later one comes first where
    /// globs of both match.
    pub lang_order: Vec<String>,
}

/// What a map of names has for `k`.
pub open spec fn name_at(m: NameMap<String>, k: Seq<char>) -> Option<Seq<char>> {
    if m@.contains_key(k) {
        Some(m@[k]@)
    } else {
        None
    }
}

/// What a map of languages has for `k`.
pub open spec fn lang_at(m: NameMap<LanguageConfig>, k: Seq<char>) -> Option<Lang> {
    if m@.contains_key(k) {
        Some(m@[k]@)
    } else {
        None
    }
}

/// `s` without `x`.
pub open spec fn names_without(s: Seq<Seq<char>>, x: Seq<char>) -> Seq<Seq<char>>
    decreases s.len(),
{
    if s.len() == 0 {
        s
    } else if s.last() == x {
        names_without(s.drop_last(), x)
    } else {
        names_without(s.drop_last(), x).push(s.last())
    }
}

/// The globs of a language that are valid, each with the name of the language.
pub open spec fn valid_globs(globs: Seq<Seq<char>>, name: Seq<char>) -> Seq<(Seq<char>, Seq<char>)>
    decreases globs.len(),
{
    if globs.len() == 0 {
        Seq::empty()
    } else {
        let before = valid_globs(globs.drop_last(), name);
        if glob_valid(globs.last()) {
            before.push((globs.last(), name))
        } else {
            before
        }
    }
}

/// The valid globs of the languages `order`, each with the name of its language.
pub open spec fn globs_of(
    langs: spec_fn(Seq<char>) -> Option<Lang>,
    order: Seq<Seq<char>>,
) -> Seq<(Seq<char>, Seq<char>)>
    decreases order.len(),
{
    if order.len() == 0 {
        Seq::empty()
    } else {
        globs_of(langs, order.drop_last()) + (match langs(order.last()) {
            Some(l) => valid_globs(l.globs, l.name),
            None => Seq::empty(),
        })
    }
}

/// The patterns of a list of globs.
pub open spec fn patterns(g: Seq<(Seq<char>, Seq<char>)>) -> Seq<Seq<char>> {
    g.map_values(|p: (Seq<char>, Seq<char>)| p.0)
}

/// The languages of a list of globs.
pub open spec fn owners(g: Seq<(Seq<char>, Seq<char>)>) -> Seq<Seq<char>> {
    g.map_values(|p: (Seq<char>, Seq<char>)| p.1)
}

impl LanguageRegistry {
    pub open spec fn language(&self, n: Seq<char>) -> Option<Lang> {
        lang_at(self.by_name, n)
    }

    pub open spec fn extension(&self, e: Seq<char>) -> Option<Seq<char>> {
        name_at(self.by_ext, e)
    }

    pub open spec fn shebang(&self, t: Seq<char>) -> Option<Seq<char>> {
        name_at(self.shebang_to_name, t)
    }

    pub open spec fn order(&self) -> Seq<Seq<char>> {
        texts(self.lang_order@)
    }

    pub open spec fn globs(&self) -> Seq<Seq<char>> {
        set_globs(self.compiled_globs)
    }

    /// Every glob has its language, and what [`LanguageRegistry::linked`] says.
    pub open spec fn wf(&self) -> bool {
        self.globs().len() == self.glob_lang_names@.len() && self.linked()
    }

    /// Languages go by their own names, and every ending and every interpreter belongs to a
    /// language that is registered and has it.
    pub open spec fn linked(&self) -> bool {
        &&& forall|n: Seq<char>| #[trigger]
            self.language(n) is Some ==> self.language(n)->0.name == n
        &&& forall|e: Seq<char>| #[trigger]
            self.extension(e) is Some ==> self.language(self.extension(e)->0) is Some
                && self.language(self.extension(e)->0)->0.extensions.contains(e)
        &&& forall|t: Seq<char>| #[trigger]
            self.shebang(t) is Some ==> self.language(self.shebang(t)->0) is Some
                && self.language(self.shebang(t)->0)->0.shebangs.contains(t)
    }

    /// The globs are those of the languages, in their order.
    pub open spec fn globs_current(&self) -> bool {
        let g = globs_of(|n: Seq<char>| self.language(n), self.order());
        self.globs() == patterns(g) && texts(self.glob_lang_names@) == owners(g)
    }
}

/// The endings or interpreters after language `name` has changed from `old_keys` to
/// `new_keys`.
pub open spec fn reassigned(
    before: Option<Seq<char>>,
    old_keys: Seq<Seq<char>>,
    new_keys: Seq<Seq<char>>,
    name: Seq<char>,
    k: Seq<char>,
) -> Option<Seq<char>> {
    if new_keys.contains(k) {
        Some(name)
    } else if old_keys.contains(k) {
        None
    } else {
        before
    }
}

/// `b` is `a` with the language `l` in place of one of the same name. The globs are not
/// looked at.
pub open spec fn with_language(a: LanguageRegistry, b: LanguageRegistry, l: Lang) -> bool {
    let was = a.language(l.name);
    let old_exts = match was {
        Some(w) => w.extensions,
        None => Seq::empty(),
    };
    let old_shebangs = match was {
        Some(w) => w.shebangs,
        None => Seq::empty(),
    };
    &&& forall|n: Seq<char>| #[trigger]
        b.language(n) == (if n == l.name {
            Some(l)
        } else {
            a.language(n)
        })
    &&& forall|e: Seq<char>| #[trigger]
        b.extension(e) == reassigned(a.extension(e), old_exts, l.extensions, l.name, e)
    &&& forall|t: Seq<char>| #[trigger]
        b.shebang(t) == reassigned(a.shebang(t), old_shebangs, l.shebangs, l.name, t)
    &&& b.order() == names_without(a.order(), l.name).push(l.name)
}

/// `b` is `a` without the language `name`. The globs are not looked at.
pub open spec fn without_language(a: LanguageRegistry, b: LanguageRegistry, l: Lang) -> bool {
    &&& forall|n: Seq<char>| #[trigger]
        b.language(n) == (if n == l.name {
            None
        } else {
            a.language(n)
        })
    &&& forall|e: Seq<char>| #[trigger]
        b.extension(e) == reassigned(a.extension(e), l.extensions, Seq::empty(), l.name, e)
    &&& forall|t: Seq<char>| #[trigger]
        b.shebang(t) == reassigned(a.shebang(t), l.shebangs, Seq::empty(), l.name, t)
    &&& b.order() == names_without(a.order(), l.name)
}

/// The endings in lower case.
pub open spec fn lower_all(s: Seq<Seq<char>>) -> Seq<Seq<char>> {
    s.map_values(|e: Seq<char>| lower_case(e))
}

proof fn lemma_take_contains(s: Seq<Seq<char>>, i: int, x: Seq<char>)
    requires
        0 <= i < s.len(),
    ensures
        s.take(i + 1).contains(x) <==> s.take(i).contains(x) || x == s[i],
{
    let a = s.take(i);
    let b = s.take(i + 1);
    assert(b[i] == s[i]);
    if a.contains(x) {
        let k = choose|k: int| 0 <= k < a.len() && a[k] == x;
        assert(b[k] == x);
    }
    if b.contains(x) && x != s[i] {
        let k = choose|k: int| 0 <= k < b.len() && b[k] == x;
        assert(a[k] == x);
    }
}

fn remove_keys(m: &mut NameMap<String>, keys: &Vec<String>)
    ensures
        forall|k: Seq<char>| #[trigger]
            name_at(*final(m), k) == (if texts(keys@).contains(k) {
                None
            } else {
                name_at(*old(m), k)
            }),
{
    let n = keys.len();
    let mut i: usize = 0;
    let ghost s = texts(keys@);
    let ghost m0 = *m;
    assert(s.take(0) =~= Seq::empty());
    while i < n
        invariant
            i <= n == keys@.len(),
            s == texts(keys@),
            forall|k: Seq<char>| #[trigger]
                name_at(*m, k) == (if s.take(i as int).contains(k) {
                    None
                } else {
                    name_at(m0, k)
                }),
        decreases n - i,
    {
        let ghost m1 = *m;
        let _ = m.remove(keys[i].as_str());
        proof {
            assert forall|k: Seq<char>| #[trigger]
                name_at(*m, k) == (if s.take(i + 1).contains(k) {
                    None
                } else {
                    name_at(m0, k)
                }) by {
                lemma_take_contains(s, i as int, k);
                assert(s[i as int] == keys@[i as int]@);
                assert(name_at(m1, k) == (if s.take(i as int).contains(k) {
                    None
                } else {
                    name_at(m0, k)
                }));
            }
        }
        i = i + 1;
    }
    assert(s.take(n as int) =~= s);
}

fn insert_keys(m: &mut NameMap<String>, keys: &Vec<String>, name: &str)
    ensures
        forall|k: Seq<char>| #[trigger]
            name_at(*final(m), k) == (if texts(keys@).contains(k) {
                Some(name@)
            } else {
                name_at(*old(m), k)
            }),
{
    let n = keys.len();
    let mut i: usize = 0;
    let ghost s = texts(keys@);
    let ghost m0 = *m;
    assert(s.take(0) =~= Seq::empty());
    while i < n
        invariant
            i <= n == keys@.len(),
            s == texts(keys@),
            forall|k: Seq<char>| #[trigger]
                name_at(*m, k) == (if s.take(i as int).contains(k) {
                    Some(name@)
                } else {
                    name_at(m0, k)
                }),
        decreases n - i,
    {
        let ghost m1 = *m;
        m.insert(keys[i].clone(), name.to_owned());
        proof {
            assert forall|k: Seq<char>| #[trigger]
                name_at(*m, k) == (if s.take(i + 1).contains(k) {
                    Some(name@)
                } else {
                    name_at(m0, k)
                }) by {
                lemma_take_contains(s, i as int, k);
                assert(s[i as int] == keys@[i as int]@);
                assert(name_at(m1, k) == (if s.take(i as int).contains(k) {
                    Some(name@)
                } else {
                    name_at(m0, k)
                }));
            }
        }
        i = i + 1;
    }
    assert(s.take(n as int) =~= s);
}

fn order_without(order: &Vec<String>, name: &str) -> (r: Vec<String>)
    ensures
        texts(r@) == names_without(texts(order@), name@),
{
    let mut r: Vec<String> = Vec::new();
    let n = order.len();
    let mut i: usize = 0;
    let ghost s = texts(order@);
    assert(s.take(0) =~= Seq::empty());
    assert(texts(r@) =~= Seq::empty());
    while i < n
        invariant
            i <= n == order@.len(),
            s == texts(order@),
            texts(r@) == names_without(s.take(i as int), name@),
        decreases n - i,
    {
        assert(s.take(i + 1).drop_last() =~= s.take(i as int));
        assert(s.take(i + 1).last() == order@[i as int]@);
        if !str_eq(order[i].as_str(), name) {
            let ghost before = texts(r@);
            r.push(order[i].clone());
            assert(texts(r@) =~= before.push(order@[i as int]@));
        }
        i = i + 1;
    }
    assert(s.take(n as int) =~= s);
    r
}

fn lower_texts(v: &Vec<String>) -> (r: Vec<String>)
    ensures
        texts(r@) == lower_all(texts(v@)),
{
    let mut r: Vec<String> = Vec::new();
    let n = v.len();
    let mut i: usize = 0;
    while i < n
        invariant
            i <= n == v@.len(),
            r@.len() == i,
            forall|j: int| 0 <= j < i ==> (#[trigger] r@[j])@ == lower_case(v@[j]@),
        decreases n - i,
    {
        r.push(to_lower_case(v[i].as_str()));
        i = i + 1;
    }
    assert(texts(r@) =~= lower_all(texts(v@)));
    r
}

/// The language that is to stand in for one of the same name, and the others.
pub open spec fn overridden(
    langs: spec_fn(Seq<char>) -> Option<Lang>,
    over: Option<Lang>,
) -> spec_fn(Seq<char>) -> Option<Lang> {
    |n: Seq<char>|
        match over {
            Some(l) => if n == l.name {
                Some(l)
            } else {
                langs(n)
            },
            None => langs(n),
        }
}

fn add_globs(
    builder: &mut globset::GlobSetBuilder,
    names: &mut Vec<String>,
    config: &LanguageConfig,
)
    ensures
        ({
            let g = valid_globs(config@.globs, config@.name);
            &&& builder_globs(*final(builder)) == builder_globs(*old(builder)) + patterns(g)
            &&& texts(final(names)@) == texts(old(names)@) + owners(g)
        }),
{
    let n = config.globs.len();
    let mut i: usize = 0;
    let ghost s = texts(config.globs@);
    let ghost b0 = builder_globs(*builder);
    let ghost n0 = texts(names@);
    proof {
        assert(s.take(0) =~= Seq::empty());
        assert(patterns(valid_globs(s.take(0), config.name@)) =~= Seq::empty());
        assert(owners(valid_globs(s.take(0), config.name@)) =~= Seq::empty());
        assert(b0 =~= b0 + Seq::<Seq<char>>::empty());
        assert(n0 =~= n0 + Seq::<Seq<char>>::empty());
    }
    while i < n
        invariant
            i <= n == config.globs@.len(),
            s == texts(config.globs@),
            builder_globs(*builder) == b0 + patterns(
                valid_globs(s.take(i as int), config.name@),
            ),
            texts(names@) == n0 + owners(valid_globs(s.take(i as int), config.name@)),
        decreases n - i,
    {
        let ghost g0 = valid_globs(s.take(i as int), config.name@);
        let ghost names0 = texts(names@);
        proof {
            assert(s.take(i + 1).drop_last() =~= s.take(i as int));
            assert(s.take(i + 1).last() == config.globs@[i as int]@);
        }
        if builder_add(builder, config.globs[i].as_str()) {
            names.push(config.name.clone());
            proof {
                let p = s[i as int];
                let g1 = valid_globs(s.take(i + 1), config.name@);
                assert(g1 == g0.push((p, config.name@)));
                assert(patterns(g1) =~= patterns(g0).push(p));
                assert(owners(g1) =~= owners(g0).push(config.name@));
                assert(b0 + patterns(g0).push(p) =~= (b0 + patterns(g0)).push(p));
                assert(texts(names@) =~= names0.push(config.name@));
                assert(n0 + owners(g0).push(config.name@) =~= (n0 + owners(g0)).push(
                    config.name@,
                ));
            }
        }
        i = i + 1;
    }
    assert(s.take(n as int) =~= s);
}

fn build_globs(
    by_name: &NameMap<LanguageConfig>,
    lang_order: &Vec<String>,
    over: Option<&LanguageConfig>,
) -> (r: Result<(globset::GlobSet, Vec<String>), String>)
    ensures
        ({
            let over_view = match over {
                Some(c) => Some(c@),
                None => None,
            };
            let g = globs_of(
                overridden(|n: Seq<char>| lang_at(*by_name, n), over_view),
                texts(lang_order@),
            );
            match r {
                Ok(t) => {
                    &&& globs_error(patterns(g)) is None
                    &&& set_globs(t.0) == patterns(g)
                    &&& texts(t.1@) == owners(g)
                },
                Err(e) => globs_error(patterns(g)) == Some(e@),
            }
        }),
{
    let mut builder = new_builder();
    let mut names: Vec<String> = Vec::new();
    let n = lang_order.len();
    let mut i: usize = 0;
    let ghost over_view = match over {
        Some(c) => Some(c@),
        None => None,
    };
    let ghost langs = overridden(|n: Seq<char>| lang_at(*by_name, n), over_view);
    let ghost s = texts(lang_order@);
    proof {
        assert(s.take(0) =~= Seq::empty());
        assert(patterns(globs_of(langs, s.take(0))) =~= Seq::empty());
        assert(owners(globs_of(langs, s.take(0))) =~= Seq::empty());
        assert(texts(names@) =~= Seq::empty());
    }
    while i < n
        invariant
            i <= n == lang_order@.len(),
            s == texts(lang_order@),
            over_view == (match over {
                Some(c) => Some(c@),
                None => None,
            }),
            langs == overridden(|n: Seq<char>| lang_at(*by_name, n), over_view),
            builder_globs(builder) == patterns(globs_of(langs, s.take(i as int))),
            texts(names@) == owners(globs_of(langs, s.take(i as int))),
        decreases n - i,
    {
        let ghost g0 = globs_of(langs, s.take(i as int));
        let ghost x = lang_order@[i as int]@;
        proof {
            assert(s.take(i + 1).drop_last() =~= s.take(i as int));
            assert(s.take(i + 1).last() == x);
        }
        let config: Option<&LanguageConfig> = match over {
            Some(c) => if str_eq(c.name.as_str(), lang_order[i].as_str()) {
                Some(c)
            } else {
                by_name.get(lang_order[i].as_str())
            },
            None => by_name.get(lang_order[i].as_str()),
        };
        proof {
            assert(langs(x) == (match config {
                Some(c) => Some(c@),
                None => None,
            }));
        }
        match config {
            Some(c) => {
                add_globs(&mut builder, &mut names, c);
                proof {
                    let g = valid_globs(c@.globs, c@.name);
                    assert(globs_of(langs, s.take(i + 1)) == g0 + g);
                    assert(patterns(g0 + g) =~= patterns(g0) + patterns(g));
                    assert(owners(g0 + g) =~= owners(g0) + owners(g));
                }
            },
            None => {
                assert(globs_of(langs, s.take(i + 1)) =~= g0);
            },
        }
        i = i + 1;
    }
    assert(s.take(n as int) =~= s);
    match builder_build(&builder) {
        Ok(set) => Ok((set, names)),
        Err(e) => Err(e),
    }
}

proof fn lemma_with_language_linked(a: LanguageRegistry, b: LanguageRegistry, l: Lang)
    requires
        a.linked(),
        with_language(a, b, l),
    ensures
        b.linked(),
{
    assert forall|n: Seq<char>| #[trigger] b.language(n) is Some implies b.language(n)->0.name
        == n by {
        assert(a.language(n) is Some ==> a.language(n)->0.name == n);
    }
    assert forall|e: Seq<char>| #[trigger] b.extension(e) is Some implies b.language(
        b.extension(e)->0,
    ) is Some && b.language(b.extension(e)->0)->0.extensions.contains(e) by {
        if !l.extensions.contains(e) {
            assert(a.extension(e) is Some);
            assert(a.language(a.extension(e)->0) is Some);
        }
    }
    assert forall|t: Seq<char>| #[trigger] b.shebang(t) is Some implies b.language(
        b.shebang(t)->0,
    ) is Some && b.language(b.shebang(t)->0)->0.shebangs.contains(t) by {
        if !l.shebangs.contains(t) {
            assert(a.shebang(t) is Some);
            assert(a.language(a.shebang(t)->0) is Some);
        }
    }
}

proof fn lemma_without_language_linked(a: LanguageRegistry, b: LanguageRegistry, l: Lang)
    requires
        a.linked(),
        a.language(l.name) == Some(l),
        without_language(a, b, l),
    ensures
        b.linked(),
{
    let none = Seq::<Seq<char>>::empty();
    assert(forall|k: Seq<char>| !none.contains(k));
    assert forall|n: Seq<char>| #[trigger] b.language(n) is Some implies b.language(n)->0.name
        == n by {
        assert(a.language(n) is Some ==> a.language(n)->0.name == n);
    }
    assert forall|e: Seq<char>| #[trigger] b.extension(e) is Some implies b.language(
        b.extension(e)->0,
    ) is Some && b.language(b.extension(e)->0)->0.extensions.contains(e) by {
        assert(a.extension(e) is Some);
        assert(a.language(a.extension(e)->0) is Some);
    }
    assert forall|t: Seq<char>| #[trigger] b.shebang(t) is Some implies b.language(
        b.shebang(t)->0,
    ) is Some && b.language(b.shebang(t)->0)->0.shebangs.contains(t) by {
        assert(a.shebang(t) is Some);
        assert(a.language(a.shebang(t)->0) is Some);
    }
}

proof fn lemma_same_maps(a: LanguageRegistry, b: LanguageRegistry)
    requires
        a.by_name == b.by_name,
        a.by_ext == b.by_ext,
        a.shebang_to_name == b.shebang_to_name,
    ensures
        forall|n: Seq<char>| #[trigger] b.language(n) == a.language(n),
        forall|e: Seq<char>| #[trigger] b.extension(e) == a.extension(e),
        forall|t: Seq<char>| #[trigger] b.shebang(t) == a.shebang(t),
{
}

proof fn lemma_same_languages_linked(a: LanguageRegistry, b: LanguageRegistry)
    requires
        a.linked(),
        a.by_name == b.by_name,
        a.by_ext == b.by_ext,
        a.shebang_to_name == b.shebang_to_name,
    ensures
        b.linked(),
{
    assert forall|n: Seq<char>| #[trigger] b.language(n) is Some implies b.language(n)->0.name
        == n by {
        assert(a.language(n) is Some);
    }
    assert forall|e: Seq<char>| #[trigger] b.extension(e) is Some implies b.language(
        b.extension(e)->0,
    ) is Some && b.language(b.extension(e)->0)->0.extensions.contains(e) by {
        assert(a.extension(e) is Some);
    }
    assert forall|t: Seq<char>| #[trigger] b.shebang(t) is Some implies b.language(
        b.shebang(t)->0,
    ) is Some && b.language(b.shebang(t)->0)->0.shebangs.contains(t) by {
        assert(a.shebang(t) is Some);
    }
}

/// A language that was registered is found under its name, its endings and its
/// interpreters.
pub proof fn law_registered_is_found(a: LanguageRegistry, b: LanguageRegistry, l: Lang)
    requires
        with_language(a, b, l),
    ensures
        b.language(l.name) == Some(l),
        forall|e: Seq<char>| l.extensions.contains(e) ==> #[trigger] b.extension(e) == Some(l.name),
        forall|t: Seq<char>| l.shebangs.contains(t) ==> #[trigger] b.shebang(t) == Some(l.name),
        b.order().last() == l.name,
{
}

/// A language that was removed is found under no ending and no interpreter.
pub proof fn law_removed_is_gone(a: LanguageRegistry, b: LanguageRegistry, l: Lang)
    requires
        a.linked(),
        a.language(l.name) == Some(l),
        without_language(a, b, l),
    ensures
        b.language(l.name) is None,
        forall|e: Seq<char>| #[trigger] b.extension(e) != Some(l.name),
        forall|t: Seq<char>| #[trigger] b.shebang(t) != Some(l.name),
{
    assert forall|e: Seq<char>| #[trigger] b.extension(e) != Some(l.name) by {
        assert(!Seq::<Seq<char>>::empty().contains(e));
        if a.extension(e) is Some {
            assert(a.language(a.extension(e)->0) is Some);
        }
    }
    assert forall|t: Seq<char>| #[trigger] b.shebang(t) != Some(l.name) by {
        assert(!Seq::<Seq<char>>::empty().contains(t));
        if a.shebang(t) is Some {
            assert(a.language(a.shebang(t)->0) is Some);
        }
    }
}

/// A language without a grammar.
pub open spec fn identity(
    name: Seq<char>,
    extensions: Seq<Seq<char>>,
    globs: Seq<Seq<char>>,
    shebangs: Seq<Seq<char>>,
) -> Lang {
    Lang { name, extensions: lower_all(extensions), globs, shebangs, grammar: None }
}

fn make_config(
    name: &str,
    extensions: &Vec<String>,
    globs: &Vec<String>,
    shebangs: &Vec<String>,
) -> (r: LanguageConfig)
    ensures
        r@ == identity(name@, texts(extensions@), texts(globs@), texts(shebangs@)),
{
    LanguageConfig {
        name: name.to_owned(),
        extensions: lower_texts(extensions),
        globs: copy_texts(globs),
        shebangs: copy_texts(shebangs),
        grammar: None,
    }
}

impl LanguageRegistry {
    /// No languages.
    pub fn new() -> (r: LanguageRegistry)
        ensures
            r.wf(),
            r.globs_current(),
            forall|n: Seq<char>| #[trigger] r.language(n) is None,
            forall|e: Seq<char>| #[trigger] r.extension(e) is None,
            forall|t: Seq<char>| #[trigger] r.shebang(t) is None,
            r.order() == Seq::<Seq<char>>::empty(),
    {
        let r = LanguageRegistry {
            by_name: NameMap::new(),
            by_ext: NameMap::new(),
            compiled_globs: no_globs(),
            glob_lang_names: Vec::new(),
            shebang_to_name: NameMap::new(),
            lang_order: Vec::new(),
        };
        proof {
            assert(r.order() =~= Seq::empty());
            let g = globs_of(|n: Seq<char>| r.language(n), r.order());
            assert(patterns(g) =~= Seq::empty());
            assert(owners(g) =~= Seq::empty());
            assert(texts(r.glob_lang_names@) =~= Seq::empty());
        }
        r
    }

    fn put(&mut self, config: LanguageConfig)
        requires
            old(self).wf(),
        ensures
            with_language(*old(self), *final(self), config@),
            final(self).compiled_globs == old(self).compiled_globs,
            final(self).glob_lang_names == old(self).glob_lang_names,
            final(self).wf(),
    {
        let ghost o = *self;
        let ghost l = config@;
        let name = config.name.clone();
        let mut order = order_without(&self.lang_order, name.as_str());
        let ghost kept = texts(order@);
        order.push(name.clone());
        assert(texts(order@) =~= kept.push(name@));
        self.lang_order = order;
        match self.by_name.remove(name.as_str()) {
            Some(was) => {
                remove_keys(&mut self.by_ext, &was.extensions);
                remove_keys(&mut self.shebang_to_name, &was.shebangs);
            },
            None => {},
        }
        insert_keys(&mut self.by_ext, &config.extensions, name.as_str());
        insert_keys(&mut self.shebang_to_name, &config.shebangs, name.as_str());
        self.by_name.insert(name, config);
        proof {
            assert forall|n: Seq<char>| #[trigger]
                self.language(n) == (if n == l.name {
                    Some(l)
                } else {
                    o.language(n)
                }) by {}
            assert(with_language(o, *self, l));
            lemma_with_language_linked(o, *self, l);
        }
    }

    /// Registers a language, in place of one of the same name, and puts its globs to work.
    /// Where they cannot be, nothing is changed. Of the globs, those that are no patterns
    /// are left out.
    pub fn register_identity(
        &mut self,
        name: &str,
        extensions: &Vec<String>,
        globs: &Vec<String>,
        shebangs: &Vec<String>,
    ) -> (r: Result<(), RegisterError>)
        requires
            old(self).wf(),
        ensures
            final(self).wf(),
            ({
                let l = identity(name@, texts(extensions@), texts(globs@), texts(shebangs@));
                let g = globs_of(
                    overridden(|n: Seq<char>| old(self).language(n), Some(l)),
                    names_without(old(self).order(), name@).push(name@),
                );
                match globs_error(patterns(g)) {
                    None => {
                        &&& r is Ok
                        &&& with_language(*old(self), *final(self), l)
                        &&& final(self).globs() == patterns(g)
                        &&& texts(final(self).glob_lang_names@) == owners(g)
                        &&& final(self).globs_current()
                    },
                    Some(e) => {
                        &&& r is Err
                        &&& r->Err_0->error@ == e
                        &&& *final(self) == *old(self)
                    },
                }
            }),
    {
        let ghost o = *self;
        let config = make_config(name, extensions, globs, shebangs);
        let ghost l = config@;
        let mut order = order_without(&self.lang_order, name);
        let ghost kept = texts(order@);
        order.push(name.to_owned());
        assert(texts(order@) =~= kept.push(name@));
        proof {
            assert((|n: Seq<char>| lang_at(self.by_name, n)) =~= (|n: Seq<char>| self.language(n)));
        }
        match build_globs(&self.by_name, &order, Some(&config)) {
            Ok((set, names)) => {
                self.put(config);
                let ghost mid = *self;
                self.compiled_globs = set;
                self.glob_lang_names = names;
                proof {
                    lemma_same_maps(mid, *self);
                    assert(with_language(o, *self, l));
                    let f = overridden(|n: Seq<char>| o.language(n), Some(l));
                    assert(f =~= (|n: Seq<char>| self.language(n)));
                    let g = globs_of(f, self.order());
                    assert(patterns(g).len() == owners(g).len());
                    assert(texts(self.glob_lang_names@).len() == self.glob_lang_names@.len());
                    lemma_with_language_linked(o, *self, l);
                }
                Ok(())
            },
            Err(error) => Err(RegisterError::GlobBuild { error }),
        }
    }

    /// Registers a language, in place of one of the same name. Its globs are put to work by
    /// [`LanguageRegistry::rebuild_glob_set`].
    pub fn register_identity_no_rebuild(
        &mut self,
        name: &str,
        extensions: &Vec<String>,
        globs: &Vec<String>,
        shebangs: &Vec<String>,
    )
        requires
            old(self).wf(),
        ensures
            final(self).wf(),
            with_language(
                *old(self),
                *final(self),
                identity(name@, texts(extensions@), texts(globs@), texts(shebangs@)),
            ),
            final(self).compiled_globs == old(self).compiled_globs,
            final(self).glob_lang_names == old(self).glob_lang_names,
    {
        let config = make_config(name, extensions, globs, shebangs);
        self.put(config);
    }

    /// Puts the globs of all languages to work. Where they cannot be, nothing is changed.
    pub fn rebuild_glob_set(&mut self) -> (r: Result<(), RegisterError>)
        requires
            old(self).wf(),
        ensures
            final(self).wf(),
            *final(self) == (LanguageRegistry {
                compiled_globs: final(self).compiled_globs,
                glob_lang_names: final(self).glob_lang_names,
                ..*old(self)
            }),
            ({
                let g = globs_of(|n: Seq<char>| old(self).language(n), old(self).order());
                match globs_error(patterns(g)) {
                    None => r is Ok && final(self).globs_current(),
                    Some(e) => r is Err && r->Err_0->error@ == e && *final(self) == *old(self),
                }
            }),
    {
        let ghost o = *self;
        let built = build_globs(&self.by_name, &self.lang_order, None);
        proof {
            let f = overridden(|n: Seq<char>| lang_at(self.by_name, n), None);
            assert(f =~= (|n: Seq<char>| self.language(n)));
        }
        match built {
            Ok((set, names)) => {
                self.compiled_globs = set;
                self.glob_lang_names = names;
                proof {
                    let f = |n: Seq<char>| self.language(n);
                    assert(f =~= (|n: Seq<char>| o.language(n)));
                    let g = globs_of(f, self.order());
                    assert(patterns(g).len() == owners(g).len());
                    assert(texts(self.glob_lang_names@).len() == self.glob_lang_names@.len());
                    lemma_same_languages_linked(o, *self);
                }
                Ok(())
            },
            Err(error) => Err(RegisterError::GlobBuild { error }),
        }
    }

    /// Removes a language. The result tells whether there was one. Where the globs of the
    /// others cannot be put to work, none are.
    pub fn remove(&mut self, name: &str) -> (r: Option<LanguageConfig>)
        requires
            old(self).wf(),
        ensures
            final(self).wf(),
            match old(self).language(name@) {
                None => r is None && *final(self) == *old(self),
                Some(l) => {
                    let g = globs_of(
                        |n: Seq<char>| final(self).language(n),
                        final(self).order(),
                    );
                    &&& r is Some && r->0@ == l
                    &&& without_language(*old(self), *final(self), l)
                    &&& if globs_error(patterns(g)) is None {
                        final(self).globs_current()
                    } else {
                        final(self).globs().len() == 0 && final(self).glob_lang_names@.len() == 0
                    }
                },
            },
    {
        let ghost o = *self;
        if !self.by_name.contains(name) {
            return None;
        }
        assert(o.language(name@) is Some);
        let config = match self.by_name.remove(name) {
            Some(c) => c,
            None => {
                return None;
            },
        };
        remove_keys(&mut self.by_ext, &config.extensions);
        remove_keys(&mut self.shebang_to_name, &config.shebangs);
        self.lang_order = order_without(&self.lang_order, name);
        proof {
            assert forall|n: Seq<char>| #[trigger]
                self.language(n) == (if n == config@.name {
                    None
                } else {
                    o.language(n)
                }) by {}
        }
        let built = build_globs(&self.by_name, &self.lang_order, None);
        proof {
            let f = overridden(|n: Seq<char>| lang_at(self.by_name, n), None);
            assert(f =~= (|n: Seq<char>| self.language(n)));
        }
        let ghost mid = *self;
        match built {
            Ok((set, names)) => {
                self.compiled_globs = set;
                self.glob_lang_names = names;
            },
            Err(_) => {
                self.compiled_globs = no_globs();
                self.glob_lang_names = Vec::new();
            },
        }
        proof {
            let f = |n: Seq<char>| self.language(n);
            assert(f =~= (|n: Seq<char>| mid.language(n)));
            let g = globs_of(f, self.order());
            assert(patterns(g).len() == owners(g).len());
            assert(texts(self.glob_lang_names@).len() == self.glob_lang_names@.len());
            assert(without_language(o, *self, config@));
            lemma_without_language_linked(o, *self, config@);
        }
        Some(config)
    }

    /// The language whose files end in `ext`.
    pub fn by_extension(&self, ext: &str) -> (r: Option<&LanguageConfig>)
        requires
            self.wf(),
        ensures
            match r {
                Some(c) => self.extension(ext@) == Some(c@.name) && self.language(c@.name)
                    == Some(c@),
                None => self.extension(ext@) is None,
            },
    {
        match self.by_ext.get(ext) {
            Some(name) => {
                assert(self.extension(ext@) == Some(name@));
                assert(self.language(name@) is Some);
                self.by_name.get(name.as_str())
            },
            None => {
                assert(self.extension(ext@) is None);
                None
            },
        }
    }

    /// The language called `name`.
    pub fn by_name(&self, name: &str) -> (r: Option<&LanguageConfig>)
        ensures
            match r {
                Some(c) => self.language(name@) == Some(c@),
                None => self.language(name@) is None,
            },
    {
        self.by_name.get(name)
    }

    /// The language that the interpreter `token` runs.
    pub fn by_shebang(&self, token: &str) -> (r: Option<&LanguageConfig>)
        requires
            self.wf(),
        ensures
            match r {
                Some(c) => self.shebang(token@) == Some(c@.name) && self.language(c@.name)
                    == Some(c@),
                None => self.shebang(token@) is None,
            },
    {
        match self.shebang_to_name.get(token) {
            Some(name) => {
                assert(self.shebang(token@) == Some(name@));
                assert(self.language(name@) is Some);
                self.by_name.get(name.as_str())
            },
            None => {
                assert(self.shebang(token@) is None);
                None
            },
        }
    }

    /// The numbers of the globs that match a file name, in ascending order.
    pub fn matching_globs(&self, name: &str) -> (r: Vec<usize>)
        ensures
            forall|i: int, j: int| 0 <= i < j < r@.len() ==> r@[i] < r@[j],
            forall|k: int|
                0 <= k < self.globs().len() && #[trigger] glob_matches(self.globs()[k], name@)
                    ==> exists|i: int| 0 <= i < r@.len() && r@[i] == k,
            forall|i: int|
                0 <= i < r@.len() ==> (#[trigger] r@[i]) < self.globs().len() && glob_matches(
                    self.globs()[r@[i] as int],
                    name@,
                ),
    {
        set_matches(&self.compiled_globs, name)
    }

    /// The language of glob `i`.
    pub fn glob_lang_name(&self, i: usize) -> (r: Option<&str>)
        ensures
            match r {
                Some(n) => i < self.glob_lang_names@.len() && n@
                    == self.glob_lang_names@[i as int]@,
                None => i >= self.glob_lang_names@.len(),
            },
    {
        if i < self.glob_lang_names.len() {
            Some(self.glob_lang_names[i].as_str())
        } else {
            None
        }
    }

    /// Whether a grammar is attached to the language `name`.
    pub fn has_grammar(&self, name: &str) -> (r: bool)
        ensures
            r == (self.language(name@) matches Some(l) && l.grammar is Some),
    {
        match self.by_name.get(name) {
            Some(c) => c.grammar.is_some(),
            None => false,
        }
    }

    /// The grammar that is attached to the language `name`.
    pub fn grammar_of(&self, name: &str) -> (r: Option<u64>)
        ensures
            r == (match self.language(name@) {
                Some(l) => l.grammar,
                None => None,
            }),
    {
        match self.by_name.get(name) {
            Some(c) => c.grammar,
            None => None,
        }
    }
}

// ---------------------------------------------------------------------------
// Detection
// ---------------------------------------------------------------------------

/// The number of the last glob that matches `name`, or -1.
pub open spec fn last_match(globs: Seq<Seq<char>>, name: Seq<char>) -> int
    decreases globs.len(),
{
    if globs.len() == 0 {
        -1
    } else if glob_matches(globs.last(), name) {
        globs.len() - 1
    } else {
        last_match(globs.drop_last(), name)
    }
}

proof fn lemma_last_match(globs: Seq<Seq<char>>, name: Seq<char>, k: int)
    requires
        -1 <= k < globs.len(),
        k >= 0 ==> glob_matches(globs[k], name),
        forall|i: int| k < i < globs.len() ==> !#[trigger] glob_matches(globs[i], name),
    ensures
        last_match(globs, name) == k,
    decreases globs.len(),
{
    if globs.len() > 0 && k < globs.len() - 1 {
        assert(!glob_matches(globs[globs.len() - 1], name));
        let t = globs.drop_last();
        assert forall|i: int| k < i < t.len() implies !#[trigger] glob_matches(t[i], name) by {
            assert(!glob_matches(globs[i], name));
        }
        lemma_last_match(t, name, k);
    }
}

/// The ending of a file name: what comes behind its last dot, unless that is its first
/// character.
pub open spec fn file_extension(path: Seq<char>, s: Separators) -> Option<Seq<char>> {
    match basename(path, s) {
        Some(n) => {
            let dot = last_index(n, '.');
            if dot <= 0 {
                None
            } else {
                Some(n.skip(dot + 1))
            }
        },
        None => None,
    }
}

fn extension_of(name: &str) -> (r: Option<String>)
    ensures
        match r {
            Some(e) => last_index(name@, '.') > 0 && e@ == name@.skip(
                last_index(name@, '.') + 1,
            ),
            None => last_index(name@, '.') <= 0,
        },
{
    let chars = chars_of(name);
    let n = chars.len();
    assert(chars@.take(n as int) =~= chars@);
    proof {
        lemma_last_index(name@, '.');
    }
    match rfind_char(&chars, n, '.') {
        Some(i) => {
            if i == 0 {
                None
            } else {
                assert(chars@.subrange(i + 1, n as int) =~= name@.skip(i + 1));
                Some(string_of_range(&chars, i + 1, n))
            }
        },
        None => None,
    }
}

/// The number of characters before the first whitespace.
pub open spec fn word_len(s: Seq<char>) -> nat
    decreases s.len(),
{
    if s.len() == 0 || whitespace(s[0]) {
        0
    } else {
        1 + word_len(s.drop_first())
    }
}

proof fn lemma_word_len(s: Seq<char>)
    ensures
        word_len(s) <= s.len(),
    decreases s.len(),
{
    if s.len() > 0 && !whitespace(s[0]) {
        lemma_word_len(s.drop_first());
    }
}

proof fn lemma_trimmed_start_len(s: Seq<char>)
    ensures
        crate::strings::trimmed_start(s).len() <= s.len(),
        crate::strings::trimmed_start(s).len() > 0 ==> !whitespace(
            crate::strings::trimmed_start(s)[0],
        ),
    decreases s.len(),
{
    if s.len() > 0 && whitespace(s[0]) {
        lemma_trimmed_start_len(s.drop_first());
    }
}

/// The words of a text, with whitespace between them.
pub open spec fn words(s: Seq<char>) -> Seq<Seq<char>>
    decreases s.len(),
    via words_decreases
{
    let t = crate::strings::trimmed_start(s);
    if t.len() == 0 {
        Seq::empty()
    } else {
        seq![t.take(word_len(t) as int)] + words(t.skip(word_len(t) as int))
    }
}

#[via_fn]
proof fn words_decreases(s: Seq<char>) {
    let t = crate::strings::trimmed_start(s);
    lemma_trimmed_start_len(s);
    lemma_word_len(t);
    if t.len() > 0 {
        assert(word_len(t) > 0);
    }
}

/// The words of a text.
pub fn words_of(s: &str) -> (r: Vec<String>)
    ensures
        texts(r@) == words(s@),
{
    let chars = chars_of(s);
    let n = chars.len();
    let mut out: Vec<String> = Vec::new();
    let mut i: usize = 0;
    assert(chars@.skip(0) =~= s@);
    assert(texts(out@) + words(s@) =~= words(s@));
    while i < n
        invariant
            i <= n == chars@.len(),
            texts(out@) + words(chars@.skip(i as int)) == words(s@),
        decreases n - i,
    {
        let ghost rest = chars@.skip(i as int);
        let ghost t = crate::strings::trimmed_start(rest);
        let ghost done = texts(out@);
        let mut a: usize = i;
        while a < n && is_whitespace(chars[a])
            invariant
                i <= a <= n == chars@.len(),
                t == crate::strings::trimmed_start(chars@.skip(a as int)),
            decreases n - a,
        {
            assert(chars@.skip(a as int).drop_first() =~= chars@.skip(a + 1));
            a = a + 1;
        }
        let mut b: usize = a;
        while b < n && !is_whitespace(chars[b])
            invariant
                a <= b <= n == chars@.len(),
                word_len(chars@.skip(a as int)) == (b - a) + word_len(chars@.skip(b as int)),
            decreases n - b,
        {
            assert(chars@.skip(b as int).drop_first() =~= chars@.skip(b + 1));
            b = b + 1;
        }
        assert(t == chars@.skip(a as int));
        if a == n {
            assert(texts(out@) + Seq::<Seq<char>>::empty() =~= texts(out@));
            assert(words(rest) =~= Seq::<Seq<char>>::empty());
            return out;
        }
        let word = string_of_range(&chars, a, b);
        let ghost w = word@;
        out.push(word);
        proof {
            assert(t.take(b - a) =~= w);
            assert(t.skip(b - a) =~= chars@.skip(b as int));
            assert(words(rest) == seq![w] + words(chars@.skip(b as int)));
            assert(texts(out@) =~= done.push(w));
            assert(done.push(w) + words(chars@.skip(b as int)) =~= done + (seq![w] + words(
                chars@.skip(b as int),
            )));
        }
        i = b;
    }
    proof {
        assert(chars@.skip(n as int) =~= Seq::<char>::empty());
        assert(words(chars@.skip(n as int)) =~= Seq::<Seq<char>>::empty());
        assert(texts(out@) + Seq::<Seq<char>>::empty() =~= texts(out@));
    }
    out
}

/// The first of the words from `i` on that is no option.
pub open spec fn first_plain(w: Seq<Seq<char>>, i: int) -> Option<Seq<char>>
    decreases w.len() - i,
{
    if i >= w.len() || i < 0 {
        None
    } else if w[i].len() > 0 && w[i][0] == '-' {
        first_plain(w, i + 1)
    } else {
        Some(w[i])
    }
}

/// A program that runs the one named behind it.
pub open spec fn runs_env(program: Seq<char>) -> bool {
    "/env"@.is_suffix_of(program) || program == "env"@
}

/// The interpreter that a first line names.
pub open spec fn interpreter(line: Seq<char>, s: Separators) -> Option<Seq<char>> {
    if "#!"@.is_prefix_of(line) {
        let w = words(line.skip(2));
        if w.len() == 0 {
            None
        } else if runs_env(w[0]) {
            first_plain(w, 1)
        } else {
            basename(w[0], s)
        }
    } else {
        None
    }
}

fn ends_with(s: &str, p: &str) -> (r: bool)
    ensures
        r == p@.is_suffix_of(s@),
{
    let a = chars_of(s);
    let b = chars_of(p);
    if b.len() > a.len() {
        return false;
    }
    let n = b.len();
    let m = a.len();
    let from: usize = m - n;
    let mut i: usize = 0;
    while i < n
        invariant
            i <= n == b@.len(),
            from + n == m == a@.len(),
            a@ == s@,
            b@ == p@,
            forall|j: int| 0 <= j < i ==> a@[from + j] == b@[j],
        decreases n - i,
    {
        if a[from + i] != b[i] {
            proof {
                if p@.is_suffix_of(s@) {
                    assert(s@.subrange(s@.len() - p@.len(), s@.len() as int)[i as int]
                        == p@[i as int]);
                }
            }
            return false;
        }
        i = i + 1;
    }
    assert(b@ =~= a@.subrange(from as int, a@.len() as int));
    true
}

fn interpreter_of(line: &str, separators: Separators) -> (r: Option<String>)
    ensures
        match r {
            Some(i) => interpreter(line@, separators) == Some(i@),
            None => interpreter(line@, separators) is None,
        },
{
    if !starts_with(line, "#!") {
        return None;
    }
    let chars = chars_of(line);
    proof {
        reveal_strlit("#!");
    }
    let rest = string_of_range(&chars, 2, chars.len());
    assert(rest@ =~= line@.skip(2));
    let w = words_of(rest.as_str());
    let n = w.len();
    let ghost ws = texts(w@);
    if n == 0 {
        return None;
    }
    assert(ws[0] == w@[0]@);
    if ends_with(w[0].as_str(), "/env") || str_eq(w[0].as_str(), "env") {
        let mut i: usize = 1;
        while i < n
            invariant
                1 <= i <= n == w@.len(),
                ws == texts(w@),
                first_plain(ws, 1) == first_plain(ws, i as int),
                interpreter(line@, separators) == first_plain(ws, 1),
            decreases n - i,
        {
            assert(ws[i as int] == w@[i as int]@);
            let c = chars_of(w[i].as_str());
            if c.len() > 0 && c[0] == '-' {
                i = i + 1;
            } else {
                return Some(w[i].clone());
            }
        }
        None
    } else {
        file_name(w[0].as_str(), separators)
    }
}

impl LanguageRegistry {
    /// The language of a file by its name.
    pub open spec fn by_glob(&self, path: Seq<char>, s: Separators) -> Option<Seq<char>> {
        match basename(path, s) {
            Some(n) => {
                let k = last_match(self.globs(), n);
                if k >= 0 {
                    Some(self.glob_lang_names@[k]@)
                } else {
                    None
                }
            },
            None => None,
        }
    }

    /// The language of a file by its ending.
    pub open spec fn by_ending(&self, path: Seq<char>, s: Separators) -> Option<Seq<char>> {
        match file_extension(path, s) {
            Some(e) => self.extension(lower_case(e)),
            None => None,
        }
    }

    /// The language of a file by its first line.
    pub open spec fn by_first_line(&self, line: Option<Seq<char>>, s: Separators) -> Option<Seq<char>> {
        match line {
            Some(l) => match interpreter(l, s) {
                Some(i) => self.shebang(i),
                None => None,
            },
            None => None,
        }
    }

    /// The language of a file: its name counts first, then its ending, then its first line.
    pub open spec fn detected(
        &self,
        path: Option<Seq<char>>,
        line: Option<Seq<char>>,
        s: Separators,
    ) -> Option<Seq<char>> {
        match path {
            Some(p) => match self.by_glob(p, s) {
                Some(l) => Some(l),
                None => match self.by_ending(p, s) {
                    Some(l) => Some(l),
                    None => self.by_first_line(line, s),
                },
            },
            None => self.by_first_line(line, s),
        }
    }
}

fn detect_shebang(line: &str, registry: &LanguageRegistry, separators: Separators) -> (r: Option<String>)
    requires
        registry.wf(),
    ensures
        match r {
            Some(n) => registry.by_first_line(Some(line@), separators) == Some(n@),
            None => registry.by_first_line(Some(line@), separators) is None,
        },
{
    match interpreter_of(line, separators) {
        Some(i) => match registry.by_shebang(i.as_str()) {
            Some(c) => Some(c.name.clone()),
            None => None,
        },
        None => None,
    }
}

fn detect_by_path(path: &str, registry: &LanguageRegistry, separators: Separators) -> (r: Option<String>)
    requires
        registry.wf(),
    ensures
        match r {
            Some(n) => registry.by_glob(path@, separators) == Some(n@) || (registry.by_glob(path@, separators) is None
                && registry.by_ending(path@, separators) == Some(n@)),
            None => registry.by_glob(path@, separators) is None && registry.by_ending(path@, separators) is None,
        },
{
    let name = match file_name(path, separators) {
        Some(n) => n,
        None => {
            return None;
        },
    };
    let ghost globs = registry.globs();
    let found = registry.matching_globs(name.as_str());
    let n = found.len();
    if n > 0 {
        let last = found[n - 1];
        proof {
            assert(glob_matches(globs[found@[n - 1] as int], name@));
            assert forall|i: int| last < i < globs.len() implies !#[trigger] glob_matches(
                globs[i],
                name@,
            ) by {
                if glob_matches(globs[i], name@) {
                    let j = choose|j: int| 0 <= j < found@.len() && found@[j] == i;
                    assert(j <= n - 1);
                    if j < n - 1 {
                        assert(found@[j] < found@[n - 1]);
                    }
                }
            }
            lemma_last_match(globs, name@, last as int);
        }
        return Some(registry.glob_lang_names[last].clone());
    }
    proof {
        assert forall|i: int| -1 < i < globs.len() implies !#[trigger] glob_matches(
            globs[i],
            name@,
        ) by {
            if glob_matches(globs[i], name@) {
                let j = choose|j: int| 0 <= j < found@.len() && found@[j] == i;
            }
        }
        lemma_last_match(globs, name@, -1);
    }
    match extension_of(name.as_str()) {
        Some(e) => {
            let lower = to_lower_case(e.as_str());
            match registry.by_extension(lower.as_str()) {
                Some(c) => Some(c.name.clone()),
                None => None,
            }
        },
        None => None,
    }
}

/// Finds the language of a file from its path and its first line.
pub fn detect_language(
    path: Option<&str>,
    first_line: Option<&str>,
    registry: &LanguageRegistry,
    separators: Separators,
) -> (r: Option<String>)
    requires
        registry.wf(),
    ensures
        ({
            let p = match path {
                Some(p) => Some(p@),
                None => None,
            };
            let l = match first_line {
                Some(l) => Some(l@),
                None => None,
            };
            match r {
                Some(n) => registry.detected(p, l, separators) == Some(n@),
                None => registry.detected(p, l, separators) is None,
            }
        }),
{
    if let Some(p) = path {
        if let Some(n) = detect_by_path(p, registry, separators) {
            return Some(n);
        }
    }
    match first_line {
        Some(l) => detect_shebang(l, registry, separators),
        None => None,
    }
}

/// A file whose name matches a glob has the language of the glob that was registered last,
/// whatever its ending and its first line are.
pub proof fn law_globs_come_first(
    r: LanguageRegistry,
    path: Seq<char>,
    line: Option<Seq<char>>,
    s: Separators,
    k: int,
)
    requires
        basename(path, s) is Some,
        0 <= k < r.globs().len(),
        glob_matches(r.globs()[k], basename(path, s)->0),
        forall|i: int|
            k < i < r.globs().len() ==> !#[trigger] glob_matches(
                r.globs()[i],
                basename(path, s)->0,
            ),
    ensures
        r.detected(Some(path), line, s) == Some(r.glob_lang_names@[k]@),
{
    lemma_last_match(r.globs(), basename(path, s)->0, k);
}

/// The languages keep their order when one of them is taken out.
pub proof fn law_other_languages_stay_in_order(s: Seq<Seq<char>>, x: Seq<char>)
    ensures
        names_without(s, x) == s.filter(|y: Seq<char>| y != x),
    decreases s.len(),
{
    reveal(Seq::filter);
    if s.len() > 0 {
        law_other_languages_stay_in_order(s.drop_last(), x);
    }
}

/// Registering a language leaves the others as they were, with the endings and the
/// interpreters that it neither has nor had. What it had and has no more is nobody's.
pub proof fn law_registering_leaves_the_others(
    a: LanguageRegistry,
    b: LanguageRegistry,
    l: Lang,
    n: Seq<char>,
    k: Seq<char>,
)
    requires
        with_language(a, b, l),
        n != l.name,
    ensures
        b.language(n) == a.language(n),
        !l.extensions.contains(k) && (a.language(l.name) matches Some(w)
            ==> !w.extensions.contains(k)) ==> b.extension(k) == a.extension(k),
        !l.shebangs.contains(k) && (a.language(l.name) matches Some(w)
            ==> !w.shebangs.contains(k)) ==> b.shebang(k) == a.shebang(k),
        !l.extensions.contains(k) && (a.language(l.name) matches Some(w)
            && w.extensions.contains(k)) ==> b.extension(k) is None,
        !l.shebangs.contains(k) && (a.language(l.name) matches Some(w)
            && w.shebangs.contains(k)) ==> b.shebang(k) is None,
        a.order().contains(n) ==> b.order().contains(n),
{
    assert(!Seq::<Seq<char>>::empty().contains(k));
    if a.order().contains(n) {
        lemma_names_without_keeps(a.order(), l.name, n);
        let front = names_without(a.order(), l.name);
        let i = choose|i: int| 0 <= i < front.len() && front[i] == n;
        assert(b.order()[i] == n);
    }
}

proof fn lemma_names_without_keeps(s: Seq<Seq<char>>, x: Seq<char>, y: Seq<char>)
    requires
        s.contains(y),
        x != y,
    ensures
        names_without(s, x).contains(y),
    decreases s.len(),
{
    let r = s.drop_last();
    let i = choose|i: int| 0 <= i < s.len() && s[i] == y;
    let w = names_without(s, x);
    if i == s.len() - 1 {
        assert(w[w.len() - 1] == y);
    } else {
        assert(r[i] == y);
        lemma_names_without_keeps(r, x, y);
        let f = names_without(r, x);
        let j = choose|j: int| 0 <= j < f.len() && f[j] == y;
        assert(w[j] == y);
    }
}

/// Removing a language leaves the others as they were.
pub proof fn law_removing_leaves_the_others(
    a: LanguageRegistry,
    b: LanguageRegistry,
    l: Lang,
    n: Seq<char>,
    k: Seq<char>,
)
    requires
        without_language(a, b, l),
        n != l.name,
    ensures
        b.language(n) == a.language(n),
        !l.extensions.contains(k) ==> b.extension(k) == a.extension(k),
        !l.shebangs.contains(k) ==> b.shebang(k) == a.shebang(k),
        b.order() == a.order().filter(|y: Seq<char>| y != l.name),
{
    assert(!Seq::<Seq<char>>::empty().contains(k));
    law_other_languages_stay_in_order(a.order(), l.name);
}

/// The globs of the languages: those of a language that comes later stand behind those of an
/// earlier one. Of one language they are those that are valid, in their order, each with
/// the name of the language.
pub proof fn law_globs_follow_the_languages(
    langs: spec_fn(Seq<char>) -> Option<Lang>,
    first: Seq<Seq<char>>,
    second: Seq<Seq<char>>,
    n: Seq<char>,
)
    ensures
        globs_of(langs, first + second) == globs_of(langs, first) + globs_of(langs, second),
        langs(n) is None ==> globs_of(langs, seq![n]).len() == 0,
        langs(n) matches Some(l) ==> patterns(globs_of(langs, seq![n])) == l.globs.filter(
            |g: Seq<char>| glob_valid(g),
        ),
        langs(n) matches Some(l) ==> forall|i: int|
            0 <= i < owners(globs_of(langs, seq![n])).len() ==> #[trigger] owners(
                globs_of(langs, seq![n]),
            )[i] == l.name,
        owners(globs_of(langs, first)).len() == patterns(globs_of(langs, first)).len(),
    decreases second.len(),
{
    assert(seq![n].drop_last() =~= Seq::<Seq<char>>::empty());
    assert(globs_of(langs, Seq::empty()) =~= Seq::empty());
    if let Some(l) = langs(n) {
        lemma_valid_globs_filter(l.globs, l.name);
        assert(globs_of(langs, seq![n]) =~= valid_globs(l.globs, l.name));
    } else {
        assert(globs_of(langs, seq![n]) =~= Seq::empty());
    }
    if second.len() == 0 {
        assert(first + second =~= first);
        assert(globs_of(langs, first) + globs_of(langs, second) =~= globs_of(langs, first));
    } else {
        assert((first + second).drop_last() =~= first + second.drop_last());
        law_globs_follow_the_languages(langs, first, second.drop_last(), n);
        assert(globs_of(langs, first + second) =~= globs_of(langs, first) + globs_of(
            langs,
            second,
        ));
    }
}

proof fn lemma_valid_globs_filter(globs: Seq<Seq<char>>, name: Seq<char>)
    ensures
        patterns(valid_globs(globs, name)) == globs.filter(|g: Seq<char>| glob_valid(g)),
        forall|i: int|
            0 <= i < valid_globs(globs, name).len() ==> (#[trigger] valid_globs(globs, name)[i]).1
                == name,
    decreases globs.len(),
{
    reveal(Seq::filter);
    if globs.len() == 0 {
        assert(patterns(valid_globs(globs, name)) =~= globs.filter(
            |g: Seq<char>| glob_valid(g),
        ));
    } else {
        lemma_valid_globs_filter(globs.drop_last(), name);
        assert(patterns(valid_globs(globs, name)) =~= globs.filter(
            |g: Seq<char>| glob_valid(g),
        ));
    }
}

/// The ending of a file is what stands behind the last dot of its name. A name without a dot,
/// and one whose only dot is its first character, has none.
pub proof fn law_ending_is_behind_the_last_dot(
    path: Seq<char>,
    s: Separators,
    stem: Seq<char>,
    ending: Seq<char>,
)
    requires
        forall|i: int| 0 <= i < ending.len() ==> #[trigger] ending[i] != '.',
    ensures
        basename(path, s) == Some(stem + seq!['.'] + ending) && stem.len() > 0 ==> file_extension(
            path,
            s,
        ) == Some(ending),
        basename(path, s) == Some(seq!['.'] + ending) ==> file_extension(path, s) is None,
        basename(path, s) == Some(ending) ==> file_extension(path, s) is None,
        basename(path, s) is None ==> file_extension(path, s) is None,
{
    let n = stem + seq!['.'] + ending;
    lemma_last_index(n, '.');
    assert(n[stem.len() as int] == '.');
    let l = last_index(n, '.');
    if l > stem.len() {
        assert(n[l] == ending[l - stem.len() - 1]);
    }
    assert(n.skip(stem.len() as int + 1) =~= ending);
    let m = seq!['.'] + ending;
    lemma_last_index(m, '.');
    let k = last_index(m, '.');
    if k > 0 {
        assert(m[k] == ending[k - 1]);
    }
    lemma_last_index(ending, '.');
}

/// A language that is registered with an ending is the language of the files with that
/// ending, in whatever case it is written, unless a glob claims them.
pub proof fn law_file_is_told_by_its_ending(
    a: LanguageRegistry,
    b: LanguageRegistry,
    name: Seq<char>,
    extensions: Seq<Seq<char>>,
    globs: Seq<Seq<char>>,
    shebangs: Seq<Seq<char>>,
    path: Seq<char>,
    line: Option<Seq<char>>,
    s: Separators,
    stem: Seq<char>,
    ending: Seq<char>,
    i: int,
)
    requires
        with_language(a, b, identity(name, extensions, globs, shebangs)),
        0 <= i < extensions.len(),
        lower_case(extensions[i]) == lower_case(ending),
        forall|j: int| 0 <= j < ending.len() ==> #[trigger] ending[j] != '.',
        stem.len() > 0,
        basename(path, s) == Some(stem + seq!['.'] + ending),
        forall|j: int|
            0 <= j < b.globs().len() ==> !#[trigger] glob_matches(
                b.globs()[j],
                stem + seq!['.'] + ending,
            ),
    ensures
        b.detected(Some(path), line, s) == Some(name),
{
    law_ending_is_behind_the_last_dot(path, s, stem, ending);
    lemma_last_match(b.globs(), stem + seq!['.'] + ending, -1);
    let low = lower_all(extensions);
    assert(low[i] == lower_case(ending));
    assert(low.contains(lower_case(ending)));
}

/// A file that neither a glob nor an ending claims is told by the interpreter in its first
/// line, and one that nothing claims has no language.
pub proof fn law_first_line_counts_last(
    r: LanguageRegistry,
    path: Seq<char>,
    line: Seq<char>,
    s: Separators,
)
    ensures
        r.by_glob(path, s) is None && r.by_ending(path, s) is None ==> r.detected(
            Some(path),
            Some(line),
            s,
        ) == r.detected(None, Some(line), s) && r.detected(Some(path), None, s) is None,
        r.by_glob(path, s) is None && r.by_ending(path, s) is Some ==> r.detected(
            Some(path),
            Some(line),
            s,
        ) == r.by_ending(path, s),
        r.detected(None, None, s) is None,
        interpreter(line, s) is None ==> r.detected(None, Some(line), s) is None,
        interpreter(line, s) matches Some(i) ==> r.detected(None, Some(line), s) == r.shebang(i),
{
}

/// The words of a text: whitespace stands between them and is in none of them.
pub proof fn law_words_are_between_whitespace(a: Seq<char>, c: char, b: Seq<char>)
    requires
        whitespace(c),
    ensures
        words(a + seq![c] + b) == words(a) + words(b),
        a.len() > 0 && (forall|i: int| 0 <= i < a.len() ==> !whitespace(#[trigger] a[i])) ==> words(
            a,
        ) == seq![a],
        words(Seq::empty()) == Seq::<Seq<char>>::empty(),
    decreases a.len(),
{
    let s = a + seq![c] + b;
    assert(words(Seq::empty()) =~= Seq::empty());
    if a.len() == 0 {
        assert(s.drop_first() =~= b);
        lemma_words_skip(s);
        assert(a =~= Seq::empty());
        assert(words(a) + words(b) =~= words(b));
    } else if whitespace(a[0]) {
        assert(s.drop_first() =~= a.drop_first() + seq![c] + b);
        lemma_words_skip(s);
        lemma_words_skip(a);
        law_words_are_between_whitespace(a.drop_first(), c, b);
    } else {
        lemma_word_len(a);
        lemma_word_len_front(a, c, b);
        let k = word_len(a) as int;
        assert(s.take(k) =~= a.take(k));
        assert(s.skip(k) =~= a.skip(k) + seq![c] + b);
        law_words_are_between_whitespace(a.skip(k), c, b);
        assert(words(s) =~= seq![a.take(k)] + words(s.skip(k)));
        assert(words(a) =~= seq![a.take(k)] + words(a.skip(k)));
        assert(words(s) =~= words(a) + words(b));
        if forall|i: int| 0 <= i < a.len() ==> !whitespace(#[trigger] a[i]) {
            lemma_word_len_all(a);
            assert(a.skip(k) =~= Seq::empty());
            assert(a.take(k) =~= a);
            assert(words(a) =~= seq![a]);
        }
    }
}

proof fn lemma_words_skip(s: Seq<char>)
    requires
        s.len() > 0,
        whitespace(s[0]),
    ensures
        words(s) == words(s.drop_first()),
{
    assert(crate::strings::trimmed_start(s) == crate::strings::trimmed_start(s.drop_first()));
}

proof fn lemma_word_len_front(a: Seq<char>, c: char, b: Seq<char>)
    requires
        whitespace(c),
    ensures
        word_len(a + seq![c] + b) == word_len(a),
    decreases a.len(),
{
    let s = a + seq![c] + b;
    if a.len() > 0 && !whitespace(a[0]) {
        assert(s.drop_first() =~= a.drop_first() + seq![c] + b);
        lemma_word_len_front(a.drop_first(), c, b);
    }
}

proof fn lemma_word_len_all(a: Seq<char>)
    requires
        forall|i: int| 0 <= i < a.len() ==> !whitespace(#[trigger] a[i]),
    ensures
        word_len(a) == a.len(),
    decreases a.len(),
{
    if a.len() > 0 {
        assert(!whitespace(a[0]));
        assert forall|i: int| 0 <= i < a.drop_first().len() implies !whitespace(
            #[trigger] a.drop_first()[i],
        ) by {
            assert(!whitespace(a[i + 1]));
        }
        lemma_word_len_all(a.drop_first());
    }
}

/// The first plain word is the first that does not begin with a hyphen.
pub proof fn law_options_are_passed_over(w: Seq<Seq<char>>, i: int, k: int)
    requires
        0 <= i <= k <= w.len(),
        forall|j: int| i <= j < k ==> (#[trigger] w[j]).len() > 0 && w[j][0] == '-',
    ensures
        k == w.len() ==> first_plain(w, i) is None,
        k < w.len() && !(w[k].len() > 0 && w[k][0] == '-') ==> first_plain(w, i) == Some(w[k]),
    decreases w.len() - i,
{
    if i < k {
        assert(w[i].len() > 0 && w[i][0] == '-');
        law_options_are_passed_over(w, i + 1, k);
    }
}

/// The interpreter that a first line names: the name of the program behind the two marks, or,
/// where that program is `env`, the program that it is told to run. Other lines name none.
pub proof fn law_interpreter_of_a_first_line(
    program: Seq<char>,
    space: char,
    rest: Seq<char>,
    s: Separators,
)
    requires
        program.len() > 0,
        forall|i: int| 0 <= i < program.len() ==> !whitespace(#[trigger] program[i]),
        whitespace(space),
    ensures
        ({
            let line = "#!"@ + program + seq![space] + rest;
            let env = program == "env"@ || (program.len() >= 4 && program.subrange(
                program.len() - 4,
                program.len() as int,
            ) == "/env"@);
            &&& !env ==> interpreter(line, s) == basename(program, s)
            &&& !env ==> interpreter("#!"@ + program, s) == basename(program, s)
            &&& env ==> interpreter("#!"@ + program, s) is None
            &&& env && rest.len() > 0 && rest[0] != '-' && (forall|i: int|
                0 <= i < rest.len() ==> !whitespace(#[trigger] rest[i])) ==> interpreter(line, s)
                == Some(rest)
            &&& rest.len() < 2 || rest[0] != '#' || rest[1] != '!' ==> interpreter(rest, s) is None
        }),
{
    reveal_strlit("#!");
    reveal_strlit("/env");
    reveal_strlit("env");
    let line = "#!"@ + program + seq![space] + rest;
    let short = "#!"@ + program;
    assert("#!"@.len() == 2 && "#!"@[0] == '#' && "#!"@[1] == '!');
    assert("/env"@.len() == 4);
    assert("#!"@.is_prefix_of(line)) by {
        assert(line.subrange(0, 2) =~= "#!"@);
    }
    assert("#!"@.is_prefix_of(short)) by {
        assert(short.subrange(0, 2) =~= "#!"@);
    }
    assert(line.skip(2) =~= program + seq![space] + rest);
    assert(short.skip(2) =~= program);
    law_words_are_between_whitespace(program, space, rest);
    law_words_are_between_whitespace(rest, space, rest);
    let w = words(line.skip(2));
    assert(w[0] == program);
    assert(words(short.skip(2)) == seq![program]);
    if rest.len() > 0 && (forall|i: int| 0 <= i < rest.len() ==> !whitespace(#[trigger] rest[i])) {
        assert(w =~= seq![program, rest]);
    }
    if "#!"@.is_prefix_of(rest) {
        assert(rest[0] == '#' && rest[1] == '!') by {
            assert(rest.subrange(0, 2) == "#!"@);
            assert(rest.subrange(0, 2)[0] == rest[0]);
            assert(rest.subrange(0, 2)[1] == rest[1]);
        }
    }
}

} // verus!

//! A document: its text, undo history, and what belongs to the file behind it.

use crate::changeset::{
    applied, composed, inverted, law_invert_restores, len_before, lemma_applied_len, ChangeSet,
};
use crate::history::{Edit, History, Move, RevisionId, Tree};
use crate::paths::FilePath;
use crate::selection::{Selection, SelectionSet, Sels};
use crate::strings::{byte_len, char_len_utf8, utf8_len};
use crate::text::{closed_lines, ending_of, same_text, without_cr, LineEnding, Text};
use vstd::prelude::*;
use vstd::string::*;

verus! {

/// How long lines are shown. A wrap width of zero stands for the width of the content.
#[derive(Debug, Clone, Copy, PartialEq, Eq, Structural)]
pub enum WrapMode {
    Off,
    Indent { width: u16 },
}

impl WrapMode {
    pub open spec fn wraps(self) -> bool {
        self is Indent
    }

    pub fn is_wrapping(&self) -> (r: bool)
        ensures
            r == self.wraps(),
    {
        matches!(self, WrapMode::Indent { .. })
    }
}

/// Settings of one buffer that stand in for the editor-wide ones.
#[derive(Debug, Clone, Copy, PartialEq, Eq, Structural)]
pub struct BufferOverrides {
    pub wrap_mode: Option<WrapMode>,
}

/// The file behind a buffer, as it was found when opened or saved.
#[derive(Debug)]
pub struct FileMeta {
    /// The path with symbolic links resolved.
    pub resolved_path: FilePath,
}

/// A search pattern that compiles.
#[derive(Debug)]
pub struct SearchPattern {
    pub pattern_str: String,
}

/// A grammar attached to a buffer, and the generation of the text that was last parsed
/// with it.
#[derive(Debug, Clone, Copy, PartialEq, Eq, Structural)]
pub struct BufferSyntax {
    pub grammar: u64,
    pub parsed_gen: Option<u64>,
}

/// An open group of edits that will be one step of the undo history: the text and the
/// selections before the first of them, and the edits so far as one change.
pub struct EditGroup {
    pub text_snapshot: Text,
    pub pre_sels: SelectionSet,
    pub cs: Option<ChangeSet>,
}

impl EditGroup {
    /// The group has not lost track: its change fits its snapshot.
    pub open spec fn wf(self) -> bool {
        self.cs is Some ==> len_before(self.cs->0@) == self.text_snapshot@.len()
    }

    /// The text after the edits of the group.
    pub open spec fn outcome(self) -> Seq<char> {
        match self.cs {
            Some(cs) => applied(cs@, self.text_snapshot@),
            None => self.text_snapshot@,
        }
    }
}

/// The beginning of `s` up to its first line break, as far as it fits in `cap` bytes.
pub open spec fn line_prefix(s: Seq<char>, cap: nat) -> Seq<char>
    decreases s.len(),
{
    if s.len() == 0 || s[0] == '\n' || s[0] == '\r' || utf8_len(s[0]) > cap {
        Seq::empty()
    } else {
        seq![s[0]] + line_prefix(s.drop_first(), (cap - utf8_len(s[0])) as nat)
    }
}

/// The result of an edit command: the new text, the new selections, and the change
/// between the old text and the new one.
pub type EditResult = (Text, SelectionSet, ChangeSet);

/// The change of an edit leads from `before` to its new text, which keeps the line ending.
pub open spec fn edit_fits(before: Text, r: EditResult) -> bool {
    &&& len_before(r.2@) == before@.len()
    &&& applied(r.2@, before@) == r.0@
    &&& r.0.spec_line_ending() == before.spec_line_ending()
}

/// The bytes of the first line that are looked at.
pub const FIRST_LINE_CAP: usize = 64;

/// The name of buffers without a file.
pub const SCRATCH_BUFFER_NAME: &'static str = "*scratch*";

/// A document shared by all panes that show it.
pub struct Buffer {
    pub text: Text,
    pub history: History,
    /// The revision that was saved last.
    pub saved_revision: RevisionId,
    /// The file's path, with symbolic links resolved.
    pub path: Option<FilePath>,
    /// How often the text was changed.
    pub text_gen: u64,
    pub file_meta: Option<FileMeta>,
    pub search_pattern: Option<SearchPattern>,
    /// The matches of the pattern, as positions of first and last character.
    pub search_matches: Vec<(usize, usize)>,
    pub overrides: BufferOverrides,
    pub language: Option<String>,
    pub syntax: Option<BufferSyntax>,
    /// Edits are refused.
    pub read_only: bool,
    /// The name shown in place of the path, for views that no file backs.
    pub label: Option<String>,
}

/// What a text-changing step leaves alone: everything but the characters, history
/// and generation.
pub open spec fn same_file(a: Buffer, b: Buffer) -> bool {
    &&& a.spec_text().spec_line_ending() == b.spec_text().spec_line_ending()
    &&& a.spec_path() == b.spec_path()
    &&& a.saved() == b.saved()
    &&& a.file_meta == b.file_meta
    &&& a.search_pattern == b.search_pattern
    &&& a.search_matches == b.search_matches
    &&& a.overrides == b.overrides
    &&& a.language == b.language
    &&& a.syntax == b.syntax
    &&& a.read_only == b.read_only
    &&& a.label == b.label
}

/// What a change of metadata leaves alone: text, generation and history.
pub open spec fn same_document(a: Buffer, b: Buffer) -> bool {
    &&& a.doc() == b.doc()
    &&& a.spec_text().spec_line_ending() == b.spec_text().spec_line_ending()
    &&& a.generation() == b.generation()
    &&& a.tree() == b.tree()
    &&& a.revision() == b.revision()
}

/// No match ends before it starts.
pub open spec fn matches_ordered(ms: Seq<(usize, usize)>) -> bool {
    forall|i: int| 0 <= i < ms.len() ==> (#[trigger] ms[i]).0 <= ms[i].1
}

impl Buffer {
    /// The text.
    pub open spec fn doc(&self) -> Seq<char> {
        self.text@
    }

    pub open spec fn spec_text(&self) -> Text {
        self.text
    }

    pub open spec fn tree(&self) -> Tree {
        self.history.tree()
    }

    /// The revision the buffer is at.
    pub open spec fn revision(&self) -> nat {
        self.history.current()
    }

    /// The revision that was saved last.
    pub open spec fn saved(&self) -> RevisionId {
        self.saved_revision
    }

    /// How often the text was changed.
    pub open spec fn generation(&self) -> u64 {
        self.text_gen
    }

    pub open spec fn spec_path(&self) -> Option<FilePath> {
        self.path
    }

    /// The text is that of the current revision: no group of edits is open.
    pub open spec fn settled(&self) -> bool {
        &&& self.tree().wf()
        &&& self.revision() < self.tree().count()
        &&& self.doc() == self.tree().texts[self.revision() as int]
    }

    /// `group` is open on this buffer: its snapshot is the text of the current revision,
    /// and its edits led from there to the text.
    pub open spec fn group_open(&self, group: EditGroup) -> bool {
        &&& group.wf()
        &&& self.tree().wf()
        &&& self.revision() < self.tree().count()
        &&& group.text_snapshot@ == self.tree().texts[self.revision() as int]
        &&& group.text_snapshot.spec_line_ending() == self.spec_text().spec_line_ending()
        &&& self.doc() == group.outcome()
    }

    /// A buffer as it is made: of this text, with nothing recorded, nothing searched for, and
    /// nothing known of its language.
    pub open spec fn untouched(&self, text: Seq<char>, initial: Sels) -> bool {
        &&& self.doc() == text
        &&& self.tree() == Tree::fresh(text, initial)
        &&& self.revision() == 0
        &&& self.saved() == RevisionId(0)
        &&& self.generation() == 0
        &&& self.settled()
        &&& self.search_pattern is None
        &&& self.search_matches@.len() == 0
        &&& self.overrides == (BufferOverrides { wrap_mode: None })
        &&& self.language is None
        &&& self.syntax is None
    }

    /// An empty buffer that can be edited and that no file backs.
    pub open spec fn is_scratch(&self) -> bool {
        &&& self.untouched(seq!['\n'], Sels::single(Selection { anchor: 0, head: 0 }))
        &&& self.spec_text().spec_line_ending() == LineEnding::Lf
        &&& self.spec_path() is None
        &&& self.file_meta is None
        &&& !self.read_only
        &&& self.label is None
    }

    /// A buffer as it is made of a file.
    pub open spec fn is_of_file(&self, content: Seq<char>, meta: FileMeta) -> bool {
        &&& self.untouched(
            closed_lines(without_cr(content)),
            Sels::single(Selection { anchor: 0, head: 0 }),
        )
        &&& self.spec_text().spec_line_ending() == ending_of(content)
        &&& self.spec_path() == Some(meta.resolved_path)
        &&& self.file_meta == Some(meta)
        &&& !self.read_only
        &&& self.label is None
    }

    /// More edits can be counted and recorded.
    pub open spec fn has_room(&self) -> bool {
        &&& self.generation() < u64::MAX
        &&& self.tree().count() < usize::MAX
    }

    /// A buffer of `text` without history. `initial_sels` are shown first.
    pub fn new(text: Text, initial_sels: SelectionSet) -> (r: Buffer)
        ensures
            r.untouched(text@, initial_sels@),
            r.spec_text() == text,
            r.spec_path() is None,
            r.file_meta is None,
            !r.read_only,
            r.label is None,
    {
        let history = History::new(initial_sels, Ghost(text@));
        let saved_revision = history.current_id();
        Buffer {
            text,
            history,
            saved_revision,
            path: None,
            text_gen: 0,
            file_meta: None,
            search_pattern: None,
            search_matches: Vec::new(),
            overrides: BufferOverrides { wrap_mode: None },
            language: None,
            syntax: None,
            read_only: false,
            label: None,
        }
    }

    /// A buffer of a file: its content, and what was found out about it.
    pub fn from_file(content: &str, meta: FileMeta) -> (r: Buffer)
        requires
            meta.resolved_path.base() is Some,
        ensures
            r.is_of_file(content@, meta),
    {
        let mut buf = Buffer::new(Text::from(content), SelectionSet::default());
        buf.path = Some(meta.resolved_path.clone());
        buf.file_meta = Some(meta);
        buf
    }

    /// An empty buffer without a file.
    pub fn scratch() -> (r: Buffer)
        ensures
            r.is_scratch(),
    {
        Buffer::new(Text::empty(), SelectionSet::default())
    }

    /// A view of `text` that no file backs and that cannot be edited.
    pub fn read_only_view(text: Text, label: String) -> (r: Buffer)
        ensures
            r.untouched(text@, Sels::single(Selection { anchor: 0, head: 0 })),
            r.spec_text() == text,
            r.read_only,
            r.label == Some(label),
            r.spec_path() is None,
            r.file_meta is None,
    {
        let mut buf = Buffer::new(text, SelectionSet::default());
        buf.read_only = true;
        buf.label = Some(label);
        buf
    }

    /// Shows new content in a view: a fresh history, nothing searched for.
    pub fn set_view_content(&mut self, text: Text)
        requires
            old(self).generation() < u64::MAX,
        ensures
            final(self).doc() == text@,
            final(self).spec_text() == text,
            final(self).settled(),
            final(self).tree() == Tree::fresh(
                text@,
                Sels::single(Selection { anchor: 0, head: 0 }),
            ),
            final(self).revision() == 0,
            final(self).saved() == RevisionId(0),
            final(self).generation() == old(self).generation() + 1,
            final(self).search_pattern is None,
            final(self).search_matches@.len() == 0,
            final(self).spec_path() == old(self).spec_path(),
            final(self).file_meta == old(self).file_meta,
            final(self).overrides == old(self).overrides,
            final(self).language == old(self).language,
            final(self).syntax == old(self).syntax,
            final(self).read_only == old(self).read_only,
            final(self).label == old(self).label,
    {
        self.history = History::new(SelectionSet::default(), Ghost(text@));
        self.saved_revision = self.history.current_id();
        self.search_pattern = None;
        self.search_matches = Vec::new();
        self.set_text(text);
    }

    pub fn is_read_only(&self) -> (r: bool)
        ensures
            r == self.read_only,
    {
        self.read_only
    }

    /// Whether this is a view that no file backs. A scratch buffer has no file either,
    /// but no label.
    pub fn is_synthetic(&self) -> (r: bool)
        ensures
            r == (self.spec_path() is None && self.label is Some),
    {
        self.path.is_none() && self.label.is_some()
    }

    fn set_text(&mut self, text: Text)
        requires
            old(self).text_gen < u64::MAX,
        ensures
            final(self).text_gen == old(self).text_gen + 1,
            *final(self) == (Buffer { text, text_gen: final(self).text_gen, ..*old(self) }),
    {
        self.text = text;
        self.text_gen = self.text_gen + 1;
    }

    /// Sets the file's path, or clears it. A path has a last component, so that no named
    /// buffer is shown under the name of scratch buffers for want of one.
    pub fn set_path(&mut self, path: Option<FilePath>)
        requires
            path is Some ==> path->0.base() is Some,
        ensures
            final(self).spec_path() == path,
            same_document(*final(self), *old(self)),
            final(self).saved() == old(self).saved(),
            final(self).file_meta == old(self).file_meta,
            final(self).search_pattern == old(self).search_pattern,
            final(self).search_matches == old(self).search_matches,
            final(self).overrides == old(self).overrides,
            final(self).language == old(self).language,
            final(self).syntax == old(self).syntax,
            final(self).read_only == old(self).read_only,
            final(self).label == old(self).label,
    {
        self.path = path;
    }

    /// The path of the file, if there is one.
    pub fn path(&self) -> (r: Option<&FilePath>)
        ensures
            match r {
                Some(p) => self.spec_path() == Some(*p),
                None => self.spec_path() is None,
            },
    {
        match &self.path {
            Some(p) => Some(p),
            None => None,
        }
    }

    /// The first line as far as it is looked at, if it is not empty.
    pub fn first_line(&self) -> (r: Option<String>)
        ensures
            match r {
                Some(l) => l@.len() > 0 && l@ == line_prefix(self.doc(), FIRST_LINE_CAP as nat),
                None => line_prefix(self.doc(), FIRST_LINE_CAP as nat).len() == 0,
            },
    {
        let mut out = String::new();
        let mut bytes: usize = 0;
        let n = self.text.len_chars();
        let mut i: usize = 0;
        let ghost goal = line_prefix(self.doc(), FIRST_LINE_CAP as nat);
        assert(self.doc().skip(0) =~= self.doc());
        assert(Seq::<char>::empty() + goal =~= goal);
        while i < n
            invariant
                i <= n == self.doc().len(),
                bytes <= FIRST_LINE_CAP,
                out@ + line_prefix(self.doc().skip(i as int), (FIRST_LINE_CAP - bytes) as nat)
                    == goal,
                out@.len() == i,
            ensures
                out@ == goal,
            decreases n - i,
        {
            let ghost rest = self.doc().skip(i as int);
            let ghost done = out@;
            let ch = match self.text.char_at(i) {
                Some(c) => c,
                None => '\n',
            };
            assert(rest[0] == ch);
            assert(rest.drop_first() =~= self.doc().skip(i as int + 1));
            let w = char_len_utf8(ch);
            if ch == '\n' || ch == '\r' || w > FIRST_LINE_CAP - bytes {
                assert(out@ + Seq::<char>::empty() =~= out@);
                break;
            }
            out.push(ch);
            bytes = bytes + w;
            proof {
                let later = line_prefix(rest.drop_first(), (FIRST_LINE_CAP - bytes) as nat);
                assert(done + (seq![ch] + later) =~= out@ + later);
            }
            i = i + 1;
            if i == n {
                assert(self.doc().skip(n as int) =~= Seq::<char>::empty());
                assert(out@ + Seq::<char>::empty() =~= out@);
            }
        }
        if n == 0 {
            assert(self.doc().skip(0) =~= Seq::<char>::empty());
        }
        if out.as_str().is_empty() {
            None
        } else {
            Some(out)
        }
    }

    /// The selections the buffer was opened with.
    pub fn initial_sels(&self) -> (r: SelectionSet)
        ensures
            r@ == self.tree().initial,
    {
        self.history.initial_sels()
    }

    /// The name to show: the label, or the last component of the path, or the name of
    /// scratch buffers.
    pub open spec fn spec_display_name(&self) -> Seq<char> {
        match self.label {
            Some(l) => l@,
            None => match self.spec_path() {
                Some(p) => match p.base() {
                    Some(n) => n,
                    None => SCRATCH_BUFFER_NAME@,
                },
                None => SCRATCH_BUFFER_NAME@,
            },
        }
    }

    pub fn display_name(&self) -> (r: String)
        ensures
            r@ == self.spec_display_name(),
    {
        if let Some(l) = &self.label {
            return l.clone();
        }
        match &self.path {
            Some(p) => match p.file_name() {
                Some(n) => n,
                None => SCRATCH_BUFFER_NAME.to_owned(),
            },
            None => SCRATCH_BUFFER_NAME.to_owned(),
        }
    }

    /// Whether there are changes that are not saved.
    pub open spec fn dirty(&self) -> bool {
        self.revision() != self.saved().0
    }

    pub fn is_dirty(&self) -> (r: bool)
        ensures
            r == self.dirty(),
    {
        self.history.current_id().0 != self.saved_revision.0
    }

    /// Takes the current revision as the saved one.
    pub fn mark_saved(&mut self)
        ensures
            final(self).saved().0 == old(self).revision(),
            !final(self).dirty(),
            same_document(*final(self), *old(self)),
            final(self).spec_path() == old(self).spec_path(),
            final(self).file_meta == old(self).file_meta,
            final(self).search_pattern == old(self).search_pattern,
            final(self).search_matches == old(self).search_matches,
            final(self).overrides == old(self).overrides,
            final(self).language == old(self).language,
            final(self).syntax == old(self).syntax,
            final(self).read_only == old(self).read_only,
            final(self).label == old(self).label,
    {
        self.saved_revision = self.history.current_id();
    }

    /// Applies an edit as one step of the undo history. The change that `cmd` gives must
    /// be the one between the two texts.
    pub fn apply_edit<F: FnOnce(Text, SelectionSet) -> EditResult>(
        &mut self,
        sels: SelectionSet,
        cmd: F,
    ) -> (r: (SelectionSet, ChangeSet))
        requires
            old(self).settled(),
            old(self).has_room(),
            forall|t: Text, s: SelectionSet|
                #![trigger cmd.requires((t, s))]
                same_text(t, old(self).text) && s@ == sels@ ==> cmd.requires((t, s)),
            forall|t: Text, s: SelectionSet, o: EditResult|
                #![trigger cmd.ensures((t, s), o)]
                same_text(t, old(self).text) && cmd.ensures((t, s), o) ==> edit_fits(t, o),
        ensures
            exists|t: Text, s: SelectionSet, o: EditResult|
                #![trigger cmd.ensures((t, s), o)]
                {
                    &&& same_text(t, old(self).text)
                    &&& s@ == sels@
                    &&& cmd.ensures((t, s), o)
                    &&& final(self).doc() == o.0@
                    &&& r.0@ == o.1@
                    &&& r.1@ == o.2@
                },
            final(self).doc() == applied(r.1@, old(self).doc()),
            len_before(r.1@) == old(self).doc().len(),
            final(self).settled(),
            final(self).revision() == old(self).tree().count(),
            final(self).tree() == old(self).tree().recorded(
                Edit {
                    parent: old(self).revision(),
                    forward: r.1@,
                    inverse: inverted(r.1@, old(self).doc()),
                    before: sels@,
                    after: r.0@,
                },
                final(self).doc(),
            ),
            final(self).generation() == old(self).generation() + 1,
            same_file(*final(self), *old(self)),
    {
        let t0 = self.text.clone();
        let s0 = sels.clone();
        assert(cmd.requires((t0, s0)));
        let (new_text, new_sels, cs) = cmd(t0, s0);
        assert(edit_fits(t0, (new_text, new_sels, cs)));
        proof {
            law_invert_restores(cs@, self.doc());
        }
        let inverse_cs = cs.invert(&self.text);
        self.history.record(cs.clone(), inverse_cs, sels, new_sels.clone());
        self.set_text(new_text);
        let _ = self.history.current_id();
        (new_sels, cs)
    }

    /// Applies an edit as part of the open group.
    pub fn apply_edit_grouped<F: FnOnce(Text, SelectionSet) -> EditResult>(
        &mut self,
        sels: SelectionSet,
        edit_group: &mut Option<EditGroup>,
        cmd: F,
    ) -> (r: (SelectionSet, ChangeSet))
        requires
            *old(edit_group) is Some,
            old(self).group_open(old(edit_group)->0),
            old(self).generation() < u64::MAX,
            forall|t: Text, s: SelectionSet|
                #![trigger cmd.requires((t, s))]
                same_text(t, old(self).text) && s@ == sels@ ==> cmd.requires((t, s)),
            forall|t: Text, s: SelectionSet, o: EditResult|
                #![trigger cmd.ensures((t, s), o)]
                same_text(t, old(self).text) && cmd.ensures((t, s), o) ==> edit_fits(t, o),
        ensures
            exists|t: Text, s: SelectionSet, o: EditResult|
                #![trigger cmd.ensures((t, s), o)]
                {
                    &&& same_text(t, old(self).text)
                    &&& s@ == sels@
                    &&& cmd.ensures((t, s), o)
                    &&& final(self).doc() == o.0@
                    &&& r.0@ == o.1@
                    &&& r.1@ == o.2@
                },
            final(self).doc() == applied(r.1@, old(self).doc()),
            *final(edit_group) is Some,
            final(self).group_open(final(edit_group)->0),
            final(edit_group)->0.text_snapshot == old(edit_group)->0.text_snapshot,
            final(edit_group)->0.pre_sels == old(edit_group)->0.pre_sels,
            final(edit_group)->0.cs is Some,
            final(edit_group)->0.cs->0@ == (match old(edit_group)->0.cs {
                None => r.1@,
                Some(acc) => composed(acc@, r.1@),
            }),
            final(self).tree() == old(self).tree(),
            final(self).revision() == old(self).revision(),
            final(self).generation() == old(self).generation() + 1,
            same_file(*final(self), *old(self)),
    {
        let t0 = self.text.clone();
        let ghost before = self.doc();
        assert(cmd.requires((t0, sels)));
        let (new_text, new_sels, cs) = cmd(t0, sels);
        assert(edit_fits(t0, (new_text, new_sels, cs)));
        let group = edit_group.take();
        match group {
            Some(EditGroup { text_snapshot, pre_sels, cs: acc }) => {
                let merged = match acc {
                    None => cs.clone(),
                    Some(acc) => {
                        proof {
                            lemma_applied_len(acc@, text_snapshot@);
                        }
                        let ghost a = acc@;
                        let m = acc.compose(cs.clone());
                        assert(applied(m@, text_snapshot@) == applied(
                            cs@,
                            applied(a, text_snapshot@),
                        ));
                        m
                    },
                };
                *edit_group = Some(EditGroup { text_snapshot, pre_sels, cs: Some(merged) });
            },
            None => {},
        }
        self.set_text(new_text);
        (new_sels, cs)
    }

    /// Replaces what the open group did: applies `cmd` to the text and the selections from
    /// before the group. The change given back leads from the text as it was to the new
    /// one.
    pub fn apply_edit_regrouped<F: FnOnce(Text, SelectionSet) -> EditResult>(
        &mut self,
        edit_group: &mut Option<EditGroup>,
        cmd: F,
    ) -> (r: (SelectionSet, ChangeSet))
        requires
            *old(edit_group) is Some,
            old(self).group_open(old(edit_group)->0),
            old(self).generation() < u64::MAX,
            forall|t: Text, s: SelectionSet|
                #![trigger cmd.requires((t, s))]
                same_text(t, old(edit_group)->0.text_snapshot) && s@ == old(
                    edit_group,
                )->0.pre_sels@ ==> cmd.requires((t, s)),
            forall|t: Text, s: SelectionSet, o: EditResult|
                #![trigger cmd.ensures((t, s), o)]
                same_text(t, old(edit_group)->0.text_snapshot) && cmd.ensures((t, s), o)
                    ==> edit_fits(t, o),
        ensures
            exists|t: Text, s: SelectionSet, o: EditResult|
                #![trigger cmd.ensures((t, s), o)]
                {
                    &&& same_text(t, old(edit_group)->0.text_snapshot)
                    &&& s@ == old(edit_group)->0.pre_sels@
                    &&& cmd.ensures((t, s), o)
                    &&& final(self).doc() == o.0@
                    &&& r.0@ == o.1@
                    &&& final(edit_group)->0.cs->0@ == o.2@
                },
            len_before(r.1@) == old(self).doc().len(),
            applied(r.1@, old(self).doc()) == final(self).doc(),
            *final(edit_group) is Some,
            final(self).group_open(final(edit_group)->0),
            final(edit_group)->0.text_snapshot == old(edit_group)->0.text_snapshot,
            final(edit_group)->0.pre_sels == old(edit_group)->0.pre_sels,
            final(edit_group)->0.cs is Some,
            final(self).tree() == old(self).tree(),
            final(self).revision() == old(self).revision(),
            final(self).generation() == old(self).generation() + 1,
            same_file(*final(self), *old(self)),
    {
        let ghost before = self.doc();
        let group = edit_group.take();
        match group {
            Some(EditGroup { text_snapshot, pre_sels, cs: acc }) => {
                let t0 = text_snapshot.clone();
                let s0 = pre_sels.clone();
                assert(cmd.requires((t0, s0)));
                let (new_text, new_sels, new_cs) = cmd(t0, s0);
                assert(edit_fits(t0, (new_text, new_sels, new_cs)));
                let propagation = match acc {
                    None => new_cs.clone(),
                    Some(prev) => {
                        proof {
                            law_invert_restores(prev@, text_snapshot@);
                            lemma_applied_len(prev@, text_snapshot@);
                        }
                        let back = prev.invert(&text_snapshot);
                        let ghost b = back@;
                        let p = back.compose(new_cs.clone());
                        assert(applied(p@, before) == applied(new_cs@, applied(b, before)));
                        p
                    },
                };
                *edit_group = Some(EditGroup { text_snapshot, pre_sels, cs: Some(new_cs) });
                self.set_text(new_text);
                (new_sels, propagation)
            },
            None => {
                assert(false);
                let b = crate::changeset::ChangeSetBuilder::new(0);
                (SelectionSet::default(), b.finish())
            },
        }
    }

    /// Opens a group: keeps the text and `pre_sels` as they are now.
    pub fn begin_edit_group(&self, edit_group: &mut Option<EditGroup>, pre_sels: SelectionSet)
        requires
            *old(edit_group) is None,
        ensures
            *final(edit_group) is Some,
            final(edit_group)->0.text_snapshot@ == self.doc(),
            final(edit_group)->0.pre_sels == pre_sels,
            final(edit_group)->0.cs is None,
            self.settled() ==> self.group_open(final(edit_group)->0),
    {
        *edit_group = Some(EditGroup { text_snapshot: self.text.clone(), pre_sels, cs: None });
    }

    /// Closes the group. Its edits become one step of the undo history; without edits
    /// nothing is recorded.
    pub fn commit_edit_group(
        &mut self,
        edit_group: &mut Option<EditGroup>,
        post_sels: SelectionSet,
    )
        requires
            *old(edit_group) is Some,
            old(self).group_open(old(edit_group)->0),
            old(self).tree().count() < usize::MAX,
        ensures
            *final(edit_group) is None,
            final(self).doc() == old(self).doc(),
            final(self).settled(),
            final(self).generation() == old(self).generation(),
            same_file(*final(self), *old(self)),
            match old(edit_group)->0.cs {
                None => final(self).tree() == old(self).tree() && final(self).revision() == old(
                    self,
                ).revision(),
                Some(cs) => {
                    &&& final(self).revision() == old(self).tree().count()
                    &&& final(self).tree() == old(self).tree().recorded(
                        Edit {
                            parent: old(self).revision(),
                            forward: cs@,
                            inverse: inverted(cs@, old(edit_group)->0.text_snapshot@),
                            before: old(edit_group)->0.pre_sels@,
                            after: post_sels@,
                        },
                        old(self).doc(),
                    )
                },
            },
    {
        let group = edit_group.take();
        match group {
            Some(EditGroup { text_snapshot, pre_sels, cs }) => {
                if let Some(cs) = cs {
                    proof {
                        law_invert_restores(cs@, text_snapshot@);
                    }
                    let inverse_cs = cs.invert(&text_snapshot);
                    self.history.record(cs, inverse_cs, pre_sels, post_sels);
                    let _ = self.history.current_id();
                }
            },
            None => {},
        }
    }

    /// Undoes the last step. Gives the selections from before it and the change that was
    /// applied; `None` where there is nothing to undo.
    pub fn undo(&mut self) -> (r: Option<(SelectionSet, ChangeSet)>)
        requires
            old(self).settled(),
            old(self).generation() < u64::MAX,
        ensures
            final(self).settled(),
            final(self).tree() == old(self).tree(),
            same_file(*final(self), *old(self)),
            match r {
                None => {
                    &&& old(self).revision() == 0
                    &&& final(self).revision() == 0
                    &&& final(self).doc() == old(self).doc()
                    &&& final(self).generation() == old(self).generation()
                },
                Some(p) => {
                    let e = old(self).tree().edit(old(self).revision());
                    &&& old(self).revision() > 0
                    &&& final(self).revision() == e.parent
                    &&& final(self).doc() == old(self).tree().texts[e.parent as int]
                    &&& p.0@ == e.before
                    &&& p.1@ == e.inverse
                    &&& final(self).generation() == old(self).generation() + 1
                },
            },
    {
        let ghost r0 = self.revision();
        let ghost t = self.tree();
        proof {
            if r0 > 0 {
                assert(t.edit_ok(r0));
            }
        }
        match self.history.undo() {
            None => None,
            Some(txn) => {
                match txn.apply(&self.text) {
                    Ok((new_text, new_sels)) => {
                        self.set_text(new_text);
                        Some((new_sels, txn.changes))
                    },
                    Err(_) => {
                        assert(false);
                        None
                    },
                }
            },
        }
    }

    /// Does the step that was undone last again. Gives the selections from after it and
    /// the change that was applied; `None` where there is nothing to do again.
    pub fn redo(&mut self) -> (r: Option<(SelectionSet, ChangeSet)>)
        requires
            old(self).settled(),
            old(self).generation() < u64::MAX,
        ensures
            final(self).settled(),
            final(self).tree() == old(self).tree(),
            same_file(*final(self), *old(self)),
            match r {
                None => {
                    &&& old(self).tree().latest[old(self).revision() as int] is None
                    &&& final(self).revision() == old(self).revision()
                    &&& final(self).doc() == old(self).doc()
                    &&& final(self).generation() == old(self).generation()
                },
                Some(p) => {
                    let next = old(self).tree().latest[old(self).revision() as int];
                    let e = old(self).tree().edit(next->0);
                    &&& next is Some
                    &&& final(self).revision() == next->0
                    &&& final(self).doc() == old(self).tree().texts[next->0 as int]
                    &&& p.0@ == e.after
                    &&& p.1@ == e.forward
                    &&& final(self).generation() == old(self).generation() + 1
                },
            },
    {
        let ghost t = self.tree();
        assert(t.latest_ok(self.revision()));
        match self.history.redo() {
            None => None,
            Some(txn) => {
                match txn.apply(&self.text) {
                    Ok((new_text, new_sels)) => {
                        self.set_text(new_text);
                        Some((new_sels, txn.changes))
                    },
                    Err(_) => {
                        assert(false);
                        None
                    },
                }
            },
        }
    }

    pub fn text(&self) -> (r: &Text)
        ensures
            r@ == self.doc(),
            *r == self.spec_text(),
    {
        &self.text
    }

    pub fn revision_id(&self) -> (r: RevisionId)
        ensures
            r.0 == self.revision(),
            self.tree().wf(),
            self.revision() < self.tree().count(),
    {
        self.history.current_id()
    }

    /// The number of changes to the text so far.
    pub fn text_gen(&self) -> (r: u64)
        ensures
            r == self.generation(),
    {
        self.text_gen
    }

    /// Whether there is a step to undo.
    pub fn can_undo(&self) -> (r: bool)
        ensures
            r == (self.revision() > 0),
    {
        self.history.can_undo()
    }

    /// Goes to any revision of the tree, and shows the selections of the last step there.
    /// Nothing happens where there is no such revision.
    pub fn goto_revision(&mut self, sels: &mut SelectionSet, target: RevisionId)
        requires
            old(self).settled(),
            old(self).generation() + old(self).tree().path(
                old(self).revision(),
                target.0 as nat,
            ).len() <= u64::MAX,
        ensures
            final(self).settled(),
            final(self).tree() == old(self).tree(),
            same_file(*final(self), *old(self)),
            target.0 >= old(self).tree().count() ==> final(self).revision() == old(self).revision()
                && final(self).doc() == old(self).doc() && final(sels)@ == old(sels)@
                && final(self).generation() == old(self).generation(),
            target.0 < old(self).tree().count() ==> {
                let moves = old(self).tree().path(old(self).revision(), target.0 as nat);
                &&& final(self).revision() == target.0
                &&& final(self).doc() == old(self).tree().texts[target.0 as int]
                &&& final(self).generation() == old(self).generation() + moves.len()
                &&& final(sels)@ == (if moves.len() == 0 {
                    old(sels)@
                } else {
                    old(self).tree().transaction(moves.last()).1
                })
            },
    {
        let ghost t = self.tree();
        let ghost from = self.revision();
        let ghost g0 = self.generation();
        let ghost moves = t.path(from, target.0 as nat);
        proof {
            if target.0 < t.count() {
                crate::history::law_path_connects(t, from, target.0 as nat);
            }
        }
        if let Some(txns) = self.history.goto_revision(target) {
            let n = txns.len();
            let mut i: usize = 0;
            let ghost mut pos = from;
            assert(moves.skip(0) =~= moves);
            while i < n
                invariant
                    i <= n == txns@.len() == moves.len(),
                    t.wf(),
                    self.tree() == t,
                    self.revision() == target.0,
                    pos < t.count(),
                    self.doc() == t.texts[pos as int],
                    t.connected(pos, moves.skip(i as int), target.0 as nat),
                    forall|j: int|
                        0 <= j < moves.len() ==> (#[trigger] txns@[j])@ == t.transaction(moves[j]),
                    self.generation() == g0 + i,
                    g0 + moves.len() <= u64::MAX,
                    same_file(*self, *old(self)),
                    sels@ == (if i == 0 {
                        old(sels)@
                    } else {
                        t.transaction(moves[i - 1]).1
                    }),
                decreases n - i,
            {
                let ghost rest = moves.skip(i as int);
                assert(rest.drop_first() =~= moves.skip(i as int + 1));
                assert(rest[0] == moves[i as int]);
                let ghost r = match moves[i as int] {
                    Move::Up(r) => r,
                    Move::Down(r) => r,
                };
                assert(t.edit_ok(r));
                match txns[i].apply(&self.text) {
                    Ok((new_text, new_sels)) => {
                        self.set_text(new_text);
                        *sels = new_sels;
                    },
                    Err(_) => {
                        assert(false);
                    },
                }
                proof {
                    pos = match moves[i as int] {
                        Move::Up(r) => t.parent(r),
                        Move::Down(r) => r,
                    };
                }
                i = i + 1;
            }
        }
    }
}

/// A buffer has changes that are not saved exactly where it is at another revision than the one
/// that was saved. So undoing back to that revision leaves nothing to save.
pub proof fn law_dirty_is_away_from_saved(a: Buffer, b: Buffer)
    requires
        a.saved() == b.saved(),
    ensures
        !a.dirty() ==> a.revision() == a.saved().0,
        !a.dirty() && !b.dirty() ==> a.revision() == b.revision(),
        !a.dirty() && b.revision() != a.revision() ==> b.dirty(),
{
}

/// A buffer as it is made has nothing to save, to undo or to do again.
pub proof fn law_untouched_is_clean(b: Buffer, text: Seq<char>, initial: Sels)
    requires
        b.untouched(text, initial),
    ensures
        !b.dirty(),
        b.doc() == text,
        b.revision() == 0,
        b.tree().count() == 1,
        b.tree().latest[0] is None,
        b.tree().initial == initial,
        b.search_pattern is None,
        b.language is None,
{
}

/// A buffer is shown under its label where it has one. A file without a label is shown under its
/// name, without its directory, and a buffer with neither is `*scratch*`.
pub proof fn law_display_name(b: Buffer, dir: Seq<char>, name: Seq<char>)
    requires
        name.len() > 0,
        name != seq!['.'],
        name != seq!['.', '.'],
        forall|i: int| 0 <= i < name.len() ==> #[trigger] name[i] != '/',
    ensures
        b.label is Some ==> b.spec_display_name() == b.label->0@,
        b.label is None && b.path is None ==> b.spec_display_name() == "*scratch*"@,
        b.label is None && b.path is Some && b.path->0.separators == crate::paths::Separators::Slash
            && b.path->0@ == dir.push('/') + name ==> b.spec_display_name() == name,
{
    crate::paths::law_name_is_behind_the_last_separator(
        dir,
        name,
        crate::paths::Separators::Slash,
    );
}

/// The first line is looked at up to its end, and no further than 64 bytes: it is the beginning
/// of the text, holds no line break, and is cut only at a line break, at the end of the text, or
/// where the next character would not fit.
pub proof fn law_first_line(s: Seq<char>, cap: nat)
    ensures
        FIRST_LINE_CAP == 64,
        ({
            let l = line_prefix(s, cap);
            &&& l.is_prefix_of(s)
            &&& byte_len(l) <= cap
            &&& forall|i: int| 0 <= i < l.len() ==> #[trigger] l[i] != '\n' && l[i] != '\r'
            &&& l.len() < s.len() ==> s[l.len() as int] == '\n' || s[l.len() as int] == '\r'
                || byte_len(l) + utf8_len(s[l.len() as int]) > cap
        }),
    decreases s.len(),
{
    let l = line_prefix(s, cap);
    if s.len() == 0 || s[0] == '\n' || s[0] == '\r' || utf8_len(s[0]) > cap {
        assert(l.is_prefix_of(s));
    } else {
        let c = s[0];
        let rest = s.drop_first();
        let left = (cap - utf8_len(c)) as nat;
        let m = line_prefix(rest, left);
        law_first_line(rest, left);
        crate::strings::lemma_byte_len_concat(seq![c], m);
        assert(seq![c].drop_last() =~= Seq::<char>::empty());
        assert(byte_len(Seq::<char>::empty()) == 0);
        assert(byte_len(seq![c]) == utf8_len(c));
        assert forall|i: int| 0 <= i < l.len() implies #[trigger] l[i] != '\n' && l[i]
            != '\r' by {
            if i > 0 {
                assert(l[i] == m[i - 1]);
            }
        }
        assert forall|i: int| 0 <= i < l.len() implies #[trigger] l[i] == s[i] by {
            if i > 0 {
                assert(l[i] == m[i - 1]);
                assert(m[i - 1] == rest[i - 1]);
            }
        }
        assert(l =~= s.take(l.len() as int));
    }
}

/// A group of edits that was just begun on a text leads to that text.
pub proof fn law_group_leads_to_its_text(g: EditGroup)
    ensures
        g.cs is None ==> g.outcome() == g.text_snapshot@,
        g.cs is Some ==> g.outcome() == applied(g.cs->0@, g.text_snapshot@),
{
}

} // verus!

use hume_editor::buffer::{Buffer, EditGroup, EditResult, FileMeta, SCRATCH_BUFFER_NAME};
use hume_editor::changeset::{ChangeSet, ChangeSetBuilder};
use hume_editor::history::RevisionId;
use hume_editor::paste::yank_selections;
use hume_editor::paths::{FilePath, Separators};
use hume_editor::selection::{Selection, SelectionSet};
use hume_editor::text::{LineEnding, Text};

const SLASH: Separators = Separators::Slash;

fn at(path: &str) -> FilePath {
    FilePath::new(path.to_string(), SLASH)
}

// ── Text with marked selections ───────────────────────────────────────────────
//
// `-[abc]>` is a selection whose head is at the end, `<[abc]-` one whose head is at the
// start. Both ends belong to it.

fn parse_state(input: &str) -> (Text, SelectionSet) {
    let chars: Vec<char> = input.chars().collect();
    let mut plain = String::new();
    let mut count = 0;
    let mut sels: Vec<Selection> = Vec::new();
    let mut start = 0;
    let mut i = 0;
    while i < chars.len() {
        let two: String = chars[i..chars.len().min(i + 2)].iter().collect();
        if two == "-[" || two == "<[" {
            start = count;
            i += 2;
        } else if two == "]>" {
            sels.push(Selection::new(start, count - 1));
            i += 2;
        } else if two == "]-" {
            sels.push(Selection::new(count - 1, start));
            i += 2;
        } else {
            plain.push(chars[i]);
            count += 1;
            i += 1;
        }
    }
    (Text::from(&plain), SelectionSet::from_vec(sels, 0))
}

fn serialize_state(text: &Text, sels: &SelectionSet) -> String {
    let chars: Vec<char> = text.to_string().chars().collect();
    let mut out = String::new();
    for (i, c) in chars.iter().enumerate() {
        for k in 0..sels.len() {
            let s = sels.get(k);
            if s.start() == i {
                out.push_str(if s.head >= s.anchor { "-[" } else { "<[" });
            }
        }
        out.push(*c);
        for k in 0..sels.len() {
            let s = sels.get(k);
            if s.end() == i {
                out.push_str(if s.head >= s.anchor { "]>" } else { "]-" });
            }
        }
    }
    out
}

// ── Edits ─────────────────────────────────────────────────────────────────────

enum Land {
    /// The selection stays on what it was on.
    Keep,
    /// A cursor where the change was.
    At,
    /// What was put in is selected.
    Over,
}

fn edit_each(
    text: Text,
    sels: SelectionSet,
    plan: impl Fn(usize, Selection) -> (usize, usize, String, Land),
) -> EditResult {
    let mut builder = ChangeSetBuilder::new(text.len_chars());
    let mut at = 0;
    let mut shift: isize = 0;
    let mut after: Vec<Selection> = Vec::new();
    for k in 0..sels.len() {
        let s = sels.get(k);
        let (from, to, put, land) = plan(k, s);
        builder = builder.retain(from - at);
        builder = builder.delete(to - from);
        builder = builder.insert(&put);
        at = to;
        let here = (from as isize + shift) as usize;
        let n = put.chars().count();
        shift += n as isize - (to - from) as isize;
        after.push(match land {
            Land::Keep => Selection::new(
                (s.anchor as isize + shift) as usize,
                (s.head as isize + shift) as usize,
            ),
            Land::At => Selection::collapsed(here),
            Land::Over => Selection::new(here, here + n - 1),
        });
    }
    let cs = builder.retain_rest().finish();
    let new_text = cs.apply(&text).unwrap();
    (new_text, SelectionSet::from_vec(after, sels.primary_index()), cs)
}

fn insert_char(b: Text, s: SelectionSet, c: char) -> EditResult {
    edit_each(b, s, |_, x| (x.start(), x.start(), c.to_string(), Land::Keep))
}

fn delete_char_forward(b: Text, s: SelectionSet) -> EditResult {
    edit_each(b, s, |_, x| (x.head, x.head + 1, String::new(), Land::At))
}

fn delete_char_backward(b: Text, s: SelectionSet) -> EditResult {
    edit_each(b, s, |_, x| (x.head - 1, x.head, String::new(), Land::At))
}

fn delete_selection(b: Text, s: SelectionSet) -> EditResult {
    edit_each(b, s, |_, x| (x.start(), x.end() + 1, String::new(), Land::At))
}

fn paste_after(b: Text, s: SelectionSet, values: &[String]) -> EditResult {
    edit_each(b, s, |k, x| (x.end() + 1, x.end() + 1, values[k].clone(), Land::Over))
}

fn paste_before(b: Text, s: SelectionSet, values: &[String]) -> EditResult {
    edit_each(b, s, |k, x| (x.start(), x.start(), values[k].clone(), Land::Over))
}

fn repeat_edit(
    count: usize,
    b: Text,
    s: SelectionSet,
    cmd: fn(Text, SelectionSet) -> EditResult,
) -> EditResult {
    let (mut text, mut sels, mut cs): (Text, SelectionSet, ChangeSet) = cmd(b, s);
    for _ in 1..count {
        let (t, x, next) = cmd(text, sels);
        text = t;
        sels = x;
        cs = cs.compose(next);
    }
    (text, sels, cs)
}

// ── A buffer with its selections ──────────────────────────────────────────────

struct DocHelper {
    buf: Buffer,
    sels: SelectionSet,
    edit_group: Option<EditGroup>,
}

impl DocHelper {
    fn apply_edit(&mut self, cmd: impl FnOnce(Text, SelectionSet) -> EditResult) {
        let (new_sels, _cs) = self.buf.apply_edit(self.sels.clone(), cmd);
        self.sels = new_sels;
    }

    fn apply_edit_grouped(&mut self, cmd: impl FnOnce(Text, SelectionSet) -> EditResult) {
        let (new_sels, _cs) =
            self.buf.apply_edit_grouped(self.sels.clone(), &mut self.edit_group, cmd);
        self.sels = new_sels;
    }

    fn begin_edit_group(&mut self) {
        let pre_sels = self.sels.clone();
        self.buf.begin_edit_group(&mut self.edit_group, pre_sels);
    }

    fn commit_edit_group(&mut self) {
        let post_sels = self.sels.clone();
        self.buf.commit_edit_group(&mut self.edit_group, post_sels);
    }

    fn undo(&mut self) {
        if let Some((new_sels, _cs)) = self.buf.undo() {
            self.sels = new_sels;
        }
    }

    fn redo(&mut self) {
        if let Some((new_sels, _cs)) = self.buf.redo() {
            self.sels = new_sels;
        }
    }

    fn goto_revision(&mut self, target: RevisionId) {
        self.buf.goto_revision(&mut self.sels, target);
    }

    fn text(&self) -> &Text {
        self.buf.text()
    }

    fn is_dirty(&self) -> bool {
        self.buf.is_dirty()
    }

    fn mark_saved(&mut self) {
        self.buf.mark_saved();
    }

    fn can_undo(&self) -> bool {
        self.buf.can_undo()
    }
}

fn state(d: &DocHelper) -> String {
    serialize_state(d.text(), &d.sels)
}

fn doc(input: &str) -> DocHelper {
    let (text, sels) = parse_state(input);
    let buf = Buffer::new(text, sels.clone());
    DocHelper { buf, sels, edit_group: None }
}

// ── insert_char ───────────────────────────────────────────────────────────────

#[test]
fn undo_insert_char() {
    let mut d = doc("-[h]>ello\n");
    d.apply_edit(|b, s| insert_char(b, s, 'x'));
    assert_eq!(state(&d), "x-[h]>ello\n");
    d.undo();
    assert_eq!(state(&d), "-[h]>ello\n");
}

#[test]
fn redo_insert_char() {
    let mut d = doc("-[h]>ello\n");
    d.apply_edit(|b, s| insert_char(b, s, 'x'));
    d.undo();
    d.redo();
    assert_eq!(state(&d), "x-[h]>ello\n");
}

#[test]
fn undo_redo_is_identity() {
    let mut d = doc("-[h]>ello\n");
    d.apply_edit(|b, s| insert_char(b, s, 'x'));
    d.undo();
    d.redo();
    d.undo();
    assert_eq!(state(&d), "-[h]>ello\n");
}

#[test]
fn undo_delete_char_forward() {
    let mut d = doc("-[h]>ello\n");
    d.apply_edit(delete_char_forward);
    assert_eq!(state(&d), "-[e]>llo\n");
    d.undo();
    assert_eq!(state(&d), "-[h]>ello\n");
}

#[test]
fn undo_delete_char_backward() {
    let mut d = doc("hel-[l]>o\n");
    d.apply_edit(delete_char_backward);
    assert_eq!(state(&d), "he-[l]>o\n");
    d.undo();
    assert_eq!(state(&d), "hel-[l]>o\n");
}

#[test]
fn undo_delete_selection() {
    let mut d = doc("-[hell]>o\n");
    d.apply_edit(delete_selection);
    assert_eq!(state(&d), "-[o]>\n");
    d.undo();
    assert_eq!(state(&d), "-[hell]>o\n");
}

#[test]
fn undo_paste_after() {
    let mut d = doc("-[h]>ello\n");
    d.apply_edit(|b, s| paste_after(b, s, &["XY".to_string()]));
    assert_eq!(state(&d), "h-[XY]>ello\n");
    d.undo();
    assert_eq!(state(&d), "-[h]>ello\n");
}

#[test]
fn undo_paste_before() {
    let mut d = doc("-[h]>ello\n");
    d.apply_edit(|b, s| paste_before(b, s, &["XY".to_string()]));
    assert_eq!(state(&d), "-[XY]>hello\n");
    d.undo();
    assert_eq!(state(&d), "-[h]>ello\n");
}

// ── selection restoration ─────────────────────────────────────────────────────

#[test]
fn undo_restores_selection_anchor_and_head() {
    let mut d = doc("-[hell]>o\n");
    d.apply_edit(delete_char_forward);
    d.undo();
    assert_eq!(state(&d), "-[hell]>o\n");
}

#[test]
fn undo_restores_backward_selection() {
    let mut d = doc("<[hell]-o\n");
    d.apply_edit(delete_char_forward);
    d.undo();
    assert_eq!(state(&d), "<[hell]-o\n");
}

#[test]
fn undo_multi_cursor_delete() {
    let mut d = doc("-[h]>el-[l]>o\n");
    d.apply_edit(delete_char_forward);
    assert_eq!(state(&d), "-[e]>l-[o]>\n");
    d.undo();
    assert_eq!(state(&d), "-[h]>el-[l]>o\n");
}

#[test]
fn repeat_edit_is_single_undo_step() {
    let mut d = doc("-[h]>ello\n");
    d.apply_edit(|b, s| repeat_edit(3, b, s, delete_char_forward));
    assert_eq!(state(&d), "-[l]>o\n");
    d.undo();
    assert_eq!(state(&d), "-[h]>ello\n");
    assert!(!d.can_undo());
}

#[test]
fn sequential_undo_multiple_edits() {
    let mut d = doc("-[h]>ello\n");
    d.apply_edit(|b, s| insert_char(b, s, 'a'));
    d.apply_edit(|b, s| insert_char(b, s, 'b'));
    d.apply_edit(|b, s| insert_char(b, s, 'c'));
    assert_eq!(state(&d), "abc-[h]>ello\n");
    d.undo();
    assert_eq!(state(&d), "ab-[h]>ello\n");
    d.undo();
    assert_eq!(state(&d), "a-[h]>ello\n");
    d.undo();
    assert_eq!(state(&d), "-[h]>ello\n");
    assert!(!d.can_undo());
}

#[test]
fn undo_at_root_is_noop() {
    let mut d = doc("-[h]>ello\n");
    d.undo();
    assert_eq!(state(&d), "-[h]>ello\n");
}

#[test]
fn redo_at_latest_is_noop() {
    let mut d = doc("-[h]>ello\n");
    d.apply_edit(|b, s| insert_char(b, s, 'x'));
    d.redo();
    assert_eq!(state(&d), "x-[h]>ello\n");
}

// ── branching ─────────────────────────────────────────────────────────────────

#[test]
fn branching_undo_then_new_edit() {
    let mut d = doc("-[h]>ello\n");
    d.apply_edit(|b, s| insert_char(b, s, 'a'));
    d.undo();
    d.apply_edit(|b, s| insert_char(b, s, 'b'));
    assert_eq!(state(&d), "b-[h]>ello\n");
    d.undo();
    assert_eq!(state(&d), "-[h]>ello\n");
    d.redo();
    assert_eq!(state(&d), "b-[h]>ello\n");
}

// ── goto_revision ─────────────────────────────────────────────────────────────

#[test]
fn goto_revision_same_is_noop() {
    let mut d = doc("-[h]>ello\n");
    d.apply_edit(|b, s| insert_char(b, s, 'x'));
    let buf_before = state(&d);
    d.goto_revision(d.buf.history.current_id());
    assert_eq!(state(&d), buf_before);
}

#[test]
fn goto_revision_across_branches_restores_buffer() {
    let mut d = doc("-[L]>orem ipsum dolor sit amet\n");

    d.apply_edit(|b, _s| {
        let cs = ChangeSetBuilder::new(27).retain(6).delete(6).retain_rest().finish();
        let new_text = cs.apply(&b).unwrap();
        let new_sels = SelectionSet::single(Selection::collapsed(6));
        (new_text, new_sels, cs)
    });
    let b1_id = d.buf.history.current_id();
    assert_eq!(d.text().to_string(), "Lorem dolor sit amet\n");

    d.apply_edit(|b, _s| {
        let cs =
            ChangeSetBuilder::new(21).retain(6).delete(5).insert("foo").retain_rest().finish();
        let new_text = cs.apply(&b).unwrap();
        let new_sels = SelectionSet::single(Selection::collapsed(6));
        (new_text, new_sels, cs)
    });
    assert_eq!(d.text().to_string(), "Lorem foo sit amet\n");

    d.apply_edit(|b, _s| {
        let cs =
            ChangeSetBuilder::new(19).retain(10).delete(3).insert("bar").retain_rest().finish();
        let new_text = cs.apply(&b).unwrap();
        let new_sels = SelectionSet::single(Selection::collapsed(10));
        (new_text, new_sels, cs)
    });
    let b3_id = d.buf.history.current_id();
    assert_eq!(d.text().to_string(), "Lorem foo bar amet\n");

    d.undo();
    d.undo();
    assert_eq!(d.buf.history.current_id(), b1_id);
    assert_eq!(d.text().to_string(), "Lorem dolor sit amet\n");

    d.apply_edit(|b, _s| {
        let cs = ChangeSetBuilder::new(21).retain(6).delete(6).retain_rest().finish();
        let new_text = cs.apply(&b).unwrap();
        let new_sels = SelectionSet::single(Selection::collapsed(6));
        (new_text, new_sels, cs)
    });
    assert_eq!(d.text().to_string(), "Lorem sit amet\n");

    d.goto_revision(b3_id);
    assert_eq!(d.text().to_string(), "Lorem foo bar amet\n");
    assert_eq!(d.buf.history.current_id(), b3_id);
}

#[test]
fn goto_revision_then_edit_creates_new_branch() {
    let mut d = doc("-[h]>ello\n");
    d.apply_edit(|b, s| insert_char(b, s, 'a'));
    d.apply_edit(|b, s| insert_char(b, s, 'b'));
    let rev2 = d.buf.history.current_id();

    d.undo();
    d.undo();

    d.apply_edit(|b, s| insert_char(b, s, 'x'));

    d.goto_revision(rev2);
    assert!(d.text().to_string().starts_with("ab"));

    let before_new_edit = d.buf.history.current_id();
    d.apply_edit(|b, s| insert_char(b, s, 'z'));
    let new_rev = d.buf.history.current_id();
    assert_ne!(new_rev, before_new_edit);
    assert_eq!(d.buf.history.parent(new_rev), Some(rev2));
}

#[test]
fn goto_root_from_deep_branch() {
    let mut d = doc("-[h]>ello\n");
    d.apply_edit(|b, s| insert_char(b, s, 'a'));
    d.apply_edit(|b, s| insert_char(b, s, 'b'));
    d.apply_edit(|b, s| insert_char(b, s, 'c'));
    let initial = "-[h]>ello\n";
    d.goto_revision(RevisionId(0));
    assert_eq!(state(&d), initial);
}

// ── edit groups ───────────────────────────────────────────────────────────────

#[test]
fn grouped_edits_single_undo_step() {
    let mut d = doc("-[h]>ello\n");
    d.begin_edit_group();
    d.apply_edit_grouped(|b, s| insert_char(b, s, 'a'));
    d.apply_edit_grouped(|b, s| insert_char(b, s, 'b'));
    d.apply_edit_grouped(|b, s| insert_char(b, s, 'c'));
    d.commit_edit_group();
    assert_eq!(state(&d), "abc-[h]>ello\n");
    d.undo();
    assert_eq!(state(&d), "-[h]>ello\n");
    assert!(!d.can_undo());
}

#[test]
fn empty_group_is_noop() {
    let mut d = doc("-[h]>ello\n");
    d.begin_edit_group();
    d.commit_edit_group();
    assert!(!d.can_undo());
    assert_eq!(state(&d), "-[h]>ello\n");
}

#[test]
fn grouped_edits_with_backspace() {
    let mut d = doc("-[h]>ello\n");
    d.begin_edit_group();
    d.apply_edit_grouped(|b, s| insert_char(b, s, 'a'));
    d.apply_edit_grouped(|b, s| insert_char(b, s, 'b'));
    d.apply_edit_grouped(|b, s| insert_char(b, s, 'x'));
    d.apply_edit_grouped(delete_char_backward);
    d.apply_edit_grouped(|b, s| insert_char(b, s, 'c'));
    d.commit_edit_group();
    assert_eq!(state(&d), "abc-[h]>ello\n");
    d.undo();
    assert_eq!(state(&d), "-[h]>ello\n");
    assert!(!d.can_undo());
}

#[test]
fn grouped_then_normal_edit_two_steps() {
    let mut d = doc("-[h]>ello\n");
    d.begin_edit_group();
    d.apply_edit_grouped(|b, s| insert_char(b, s, 'a'));
    d.apply_edit_grouped(|b, s| insert_char(b, s, 'b'));
    d.commit_edit_group();
    assert_eq!(state(&d), "ab-[h]>ello\n");

    d.apply_edit(|b, s| insert_char(b, s, 'z'));
    assert_eq!(state(&d), "abz-[h]>ello\n");

    d.undo();
    assert_eq!(state(&d), "ab-[h]>ello\n");

    d.undo();
    assert_eq!(state(&d), "-[h]>ello\n");
    assert!(!d.can_undo());
}

#[test]
fn grouped_edits_redo() {
    let mut d = doc("-[h]>ello\n");
    d.begin_edit_group();
    d.apply_edit_grouped(|b, s| insert_char(b, s, 'a'));
    d.apply_edit_grouped(|b, s| insert_char(b, s, 'b'));
    d.commit_edit_group();
    d.undo();
    assert_eq!(state(&d), "-[h]>ello\n");
    d.redo();
    assert_eq!(state(&d), "ab-[h]>ello\n");
}

#[test]
fn regrouped_edit_replaces_the_group() {
    let mut d = doc("-[h]>ello\n");
    d.begin_edit_group();
    d.apply_edit_grouped(|b, s| paste_after(b, s, &["XY".to_string()]));
    assert_eq!(state(&d), "h-[XY]>ello\n");
    let (sels, _cs) = d.buf.apply_edit_regrouped(&mut d.edit_group, |b, s| {
        paste_after(b, s, &["Z".to_string()])
    });
    d.sels = sels;
    assert_eq!(state(&d), "h-[Z]>ello\n");
    d.commit_edit_group();
    d.undo();
    assert_eq!(state(&d), "-[h]>ello\n");
}

// ── dirty tracking ────────────────────────────────────────────────────────────

#[test]
fn fresh_doc_is_not_dirty() {
    let d = doc("-[h]>ello\n");
    assert!(!d.is_dirty());
}

#[test]
fn edit_makes_dirty() {
    let mut d = doc("-[h]>ello\n");
    d.apply_edit(|b, s| insert_char(b, s, 'x'));
    assert!(d.is_dirty());
}

#[test]
fn mark_saved_clears_dirty() {
    let mut d = doc("-[h]>ello\n");
    d.apply_edit(|b, s| insert_char(b, s, 'x'));
    assert!(d.is_dirty());
    d.mark_saved();
    assert!(!d.is_dirty());
}

#[test]
fn undo_to_saved_revision_is_clean() {
    let mut d = doc("-[h]>ello\n");
    d.apply_edit(|b, s| insert_char(b, s, 'x'));
    d.mark_saved();
    d.apply_edit(|b, s| insert_char(b, s, 'y'));
    assert!(d.is_dirty());
    d.undo();
    assert!(!d.is_dirty());
}

#[test]
fn undo_past_saved_revision_is_dirty() {
    let mut d = doc("-[h]>ello\n");
    d.apply_edit(|b, s| insert_char(b, s, 'x'));
    d.mark_saved();
    d.undo();
    assert!(d.is_dirty());
}

#[test]
fn grouped_edit_makes_dirty() {
    let mut d = doc("-[h]>ello\n");
    d.begin_edit_group();
    d.apply_edit_grouped(|b, s| insert_char(b, s, 'a'));
    d.apply_edit_grouped(|b, s| insert_char(b, s, 'b'));
    d.commit_edit_group();
    assert!(d.is_dirty());
}

// ── yank + paste ──────────────────────────────────────────────────────────────

#[test]
fn yank_paste_undo() {
    let mut d = doc("-[hell]>o\n");
    let yanked = yank_selections(d.text(), &d.sels);
    d.apply_edit(|b, s| paste_after(b, s, &yanked));
    d.undo();
    assert_eq!(state(&d), "-[hell]>o\n");
}

#[test]
fn yanked_text_is_what_is_selected() {
    let d = doc("-[hell]>o w<[or]-ld\n");
    assert_eq!(yank_selections(d.text(), &d.sels), vec!["hell", "or"]);
}

// ── set_path ──────────────────────────────────────────────────────────────────

#[test]
fn set_path_accepts_paths_with_basename() {
    let mut b = Buffer::new(Text::empty(), SelectionSet::default());
    b.set_path(Some(at("/tmp/file.txt")));
    assert_eq!(b.display_name(), "file.txt");
}

#[test]
fn set_path_none_clears_path() {
    let mut b = Buffer::new(Text::empty(), SelectionSet::default());
    b.set_path(Some(at("/tmp/file.txt")));
    b.set_path(None);
    assert!(b.path().is_none());
    assert_eq!(b.display_name(), SCRATCH_BUFFER_NAME);
}

// ── text_gen ──────────────────────────────────────────────────────────────────

#[test]
fn text_gen_starts_at_zero() {
    let b = Buffer::new(Text::empty(), SelectionSet::default());
    assert_eq!(b.text_gen, 0);
}

#[test]
fn text_gen_bumped_by_apply_edit() {
    let mut d = doc("-[h]>ello\n");
    let before = d.buf.text_gen;
    d.apply_edit(|b, s| insert_char(b, s, 'x'));
    assert_eq!(d.buf.text_gen, before + 1);
}

#[test]
fn text_gen_bumped_by_apply_edit_grouped() {
    let mut d = doc("-[h]>ello\n");
    d.begin_edit_group();
    let before = d.buf.text_gen;
    d.apply_edit_grouped(|b, s| insert_char(b, s, 'x'));
    assert_eq!(d.buf.text_gen, before + 1, "each grouped edit bumps gen");
}

#[test]
fn text_gen_bumped_by_undo() {
    let mut d = doc("-[h]>ello\n");
    d.apply_edit(|b, s| insert_char(b, s, 'x'));
    let before = d.buf.text_gen;
    d.undo();
    assert_eq!(d.buf.text_gen, before + 1);
}

#[test]
fn text_gen_bumped_by_redo() {
    let mut d = doc("-[h]>ello\n");
    d.apply_edit(|b, s| insert_char(b, s, 'x'));
    d.undo();
    let before = d.buf.text_gen;
    d.redo();
    assert_eq!(d.buf.text_gen, before + 1);
}

#[test]
fn text_gen_not_bumped_when_undo_at_root() {
    let mut d = doc("-[h]>ello\n");
    let before = d.buf.text_gen;
    d.undo(); // nothing to undo — no-op
    assert_eq!(d.buf.text_gen, before, "no-op undo must not bump gen");
}

// ── files ─────────────────────────────────────────────────────────────────────

#[test]
fn file_with_crlf_is_read_and_written_back() {
    let meta = FileMeta { resolved_path: at("/tmp/a.txt") };
    let b = Buffer::from_file("one\r\ntwo\r\n", meta);
    assert_eq!(b.text().to_string(), "one\ntwo\n");
    assert_eq!(b.text().file_content(), "one\r\ntwo\r\n");
    assert_eq!(b.display_name(), "a.txt");
    assert!(!b.is_dirty());
}

#[test]
fn file_without_final_newline_gets_one() {
    let meta = FileMeta { resolved_path: at("/tmp/a.txt") };
    let b = Buffer::from_file("one", meta);
    assert_eq!(b.text().to_string(), "one\n");
}

#[test]
fn first_line_stops_at_the_line_break_and_at_the_cap() {
    let long: String = "x".repeat(100);
    let b = Buffer::new(Text::from(&long), SelectionSet::default());
    assert_eq!(b.first_line().unwrap().len(), 64);
    let b = Buffer::new(Text::from("#!/bin/sh\necho\n"), SelectionSet::default());
    assert_eq!(b.first_line().unwrap(), "#!/bin/sh");
    let b = Buffer::new(Text::from("\nx\n"), SelectionSet::default());
    assert!(b.first_line().is_none());
}

#[test]
fn read_only_view_refuses_edits_and_has_its_label() {
    let b = Buffer::read_only_view(Text::from("log\n"), "*messages*".to_string());
    assert!(b.is_read_only());
    assert!(b.is_synthetic());
    assert_eq!(b.display_name(), "*messages*");
    assert!(!Buffer::scratch().is_read_only());
}

// ── changes ───────────────────────────────────────────────────────────────────

#[test]
fn change_of_the_wrong_length_is_refused() {
    let cs = ChangeSetBuilder::new(3).retain_rest().finish();
    assert!(cs.apply(&Text::from("ab\n")).is_ok());
    assert!(cs.apply(&Text::from("abc\n")).is_err());
}

#[test]
fn inverted_change_restores_the_text() {
    let t = Text::from("hello\n");
    let cs = ChangeSetBuilder::new(6).delete(1).insert("J").retain_rest().finish();
    let after = cs.apply(&t).unwrap();
    assert_eq!(after.to_string(), "Jello\n");
    assert_eq!(cs.invert(&t).apply(&after).unwrap().to_string(), "hello\n");
}

#[test]
fn composed_change_does_both() {
    let t = Text::from("hello\n");
    let a = ChangeSetBuilder::new(6).insert("ab").retain_rest().finish();
    let b = ChangeSetBuilder::new(8).delete(1).retain_rest().finish();
    assert_eq!(a.compose(b).apply(&t).unwrap().to_string(), "bhello\n");
}

#[test]
fn edits_keep_the_line_ending() {
    let buf = Buffer::new(Text::from("ab\r\ncd\r\n"), SelectionSet::default());
    let mut d = DocHelper { buf, sels: SelectionSet::default(), edit_group: None };
    assert_eq!(d.text().line_ending(), LineEnding::CrLf);
    d.apply_edit(|b, s| insert_char(b, s, 'x'));
    assert_eq!(d.text().line_ending(), LineEnding::CrLf);
    d.begin_edit_group();
    d.apply_edit_grouped(|b, s| insert_char(b, s, 'y'));
    d.commit_edit_group();
    assert_eq!(d.text().line_ending(), LineEnding::CrLf);
    d.undo();
    assert_eq!(d.text().line_ending(), LineEnding::CrLf);
    d.redo();
    assert_eq!(d.text().line_ending(), LineEnding::CrLf);
    d.goto_revision(RevisionId(0));
    assert_eq!(d.text().line_ending(), LineEnding::CrLf);
    assert_eq!(d.text().to_string(), "ab\ncd\n");
}

//! Killing, yanking and pasting.

use crate::auto_pairs::Pair;
use crate::buffer::{edit_fits, EditResult};
use crate::dispatch::Keys;
use crate::focus::Focus;
use crate::grapheme::{
    chars_between, end_inclusive, law_next_boundary_is_the_nearest, lemma_line_around,
    next_boundary,
};
use crate::insert_mode::insert_begun;
use crate::message_log::Severity;
use crate::messages::Shown;
use crate::modes::ModalV;
use crate::register_ops::{clipboard_warning, read_register_text, register_text};
use crate::registers::{
    copy_texts, texts, BLACK_HOLE_REGISTER, CLIPBOARD_REGISTER, KILL_RING_REGISTER,
};
use crate::selection::{Selection, SelectionSet, Sels};
use crate::state::{
    clipboard_reported, named_register, register_written, EditorState, RegisterPrefix,
};
use crate::strings::{str_eq, string_of};
use crate::text::Text;
use vstd::prelude::*;
use vstd::string::*;

verus! {

/// Commands after which a bare paste takes the newest kill.
pub open spec fn kills(name: Seq<char>) -> bool {
    name == "change"@ || name == "delete"@
}

/// Commands that paste, or cycle through pastes.
pub open spec fn pastes(name: Seq<char>) -> bool {
    name == "paste-after"@ || name == "paste-before"@ || cycles(name)
}

/// Commands that cycle through pastes.
pub open spec fn cycles(name: Seq<char>) -> bool {
    name == "paste-ring-older"@ || name == "paste-ring-newer"@
}

/// Whether a bare paste after this command takes the newest kill.
pub fn is_kill_command(name: &str) -> (r: bool)
    ensures
        r == kills(name@),
{
    str_eq(name, "change") || str_eq(name, "delete")
}

/// Whether this command cycles through pastes.
pub fn is_ring_cycle_command(name: &str) -> (r: bool)
    ensures
        r == cycles(name@),
{
    str_eq(name, "paste-ring-older") || str_eq(name, "paste-ring-newer")
}

/// Whether this command pastes, or cycles through pastes.
pub fn is_paste_command(name: &str) -> (r: bool)
    ensures
        r == pastes(name@),
{
    str_eq(name, "paste-after") || str_eq(name, "paste-before") || is_ring_cycle_command(name)
}

/// What is selected, one text for each selection.
pub open spec fn yanked(text: Seq<char>, sels: Sels) -> Seq<Seq<char>> {
    sels.sels.map_values(
        |s: Selection| text.subrange(s.spec_start() as int, end_inclusive(s, text) + 1),
    )
}

/// Every selection lies in the text.
pub open spec fn all_inside(sels: Sels, len: nat) -> bool {
    forall|i: int| 0 <= i < sels.sels.len() ==> (#[trigger] sels.sels[i]).spec_end() < len
}

/// What is selected, one text for each selection.
pub fn yank_selections(text: &Text, sels: &SelectionSet) -> (r: Vec<String>)
    requires
        all_inside(sels@, text@.len()),
    ensures
        texts(r@) == yanked(text@, sels@),
{
    let mut r: Vec<String> = Vec::new();
    let n = sels.len();
    let mut i: usize = 0;
    let len = text.len_chars();
    while i < n
        invariant
            i <= n == sels@.sels.len(),
            len == text@.len(),
            all_inside(sels@, text@.len()),
            texts(r@) == yanked(text@, sels@).take(i as int),
        decreases n - i,
    {
        let s = sels.get(i);
        let end = s.end_inclusive(text);
        assert(end < len);
        let chars = chars_between(text, s.start(), end + 1);
        let one = string_of(&chars);
        let ghost done = texts(r@);
        let ghost v = one@;
        r.push(one);
        i = i + 1;
        assert(texts(r@) =~= done.push(v));
        assert(texts(r@) =~= yanked(text@, sels@).take(i as int));
    }
    assert(texts(r@) =~= yanked(text@, sels@));
    r
}

/// Where killed text goes: to the kill ring, or to the register that was named.
pub open spec fn kill_routed(
    s: EditorState,
    t: EditorState,
    clip: Result<(), String>,
    values: Seq<Seq<char>>,
) -> bool {
    match named_register(s.register_prefix) {
        Some(c) => if c == KILL_RING_REGISTER {
            &&& t == (EditorState { register_prefix: None, kill_ring: t.kill_ring, ..s })
            &&& t.kill_ring@ == s.kill_ring@.pushed(values)
        } else {
            &&& t == (EditorState {
                register_prefix: None,
                registers: t.registers,
                messages: t.messages,
                ..s
            })
            &&& register_written(s.registers, t.registers, c, values)
            &&& t.messages@ == (if c == CLIPBOARD_REGISTER {
                clipboard_reported(s.messages@, clip)
            } else {
                s.messages@
            })
        },
        None => {
            &&& t == (EditorState { register_prefix: None, kill_ring: t.kill_ring, ..s })
            &&& t.kill_ring@ == s.kill_ring@.pushed(values)
        },
    }
}

impl EditorState {
    /// Keeps killed text; see [`kill_routed`].
    fn keep_kill(&mut self, clip: &Result<(), String>, values: Vec<String>)
        ensures
            kill_routed(*old(self), *final(self), *clip, texts(values@)),
    {
        match self.take_register_prefix() {
            None => self.kill_ring.push(values),
            Some(c) => {
                if c == KILL_RING_REGISTER {
                    self.kill_ring.push(values);
                } else {
                    self.write_register(clip, c, values);
                }
            },
        }
    }
}

impl Focus {
    /// Yanks what is selected: to the kill ring and the clipboard, or to the register that
    /// was named. `clip` is what came of writing it to the system clipboard, should it
    /// have to go there.
    pub fn cmd_yank(&self, state: &mut EditorState, clip: &Result<(), String>)
        requires
            all_inside(self.sels(), self.text().len()),
        ensures
            ({
                let values = yanked(self.text(), self.sels());
                if named_register(old(state).register_prefix) is None {
                    &&& *final(state) == (EditorState {
                        register_prefix: None,
                        kill_ring: final(state).kill_ring,
                        registers: final(state).registers,
                        messages: final(state).messages,
                        ..*old(state)
                    })
                    &&& final(state).kill_ring@ == old(state).kill_ring@.pushed(values)
                    &&& register_written(
                        old(state).registers,
                        final(state).registers,
                        CLIPBOARD_REGISTER,
                        values,
                    )
                    &&& final(state).messages@ == clipboard_reported(
                        old(state).messages@,
                        *clip,
                    )
                } else {
                    kill_routed(*old(state), *final(state), *clip, values)
                }
            }),
    {
        let values = yank_selections(&self.doc.text, &self.here.selections);
        match state.take_register_prefix() {
            None => {
                state.write_clipboard(clip, &values);
                state.kill_ring.push(values);
            },
            Some(c) => {
                if c == KILL_RING_REGISTER {
                    state.kill_ring.push(values);
                } else {
                    state.write_register(clip, c, values);
                }
            },
        }
    }

    /// Kills what is selected: keeps it, and deletes it. `deleted` is the deletion.
    pub fn cmd_delete(
        &mut self,
        state: &mut EditorState,
        clip: &Result<(), String>,
        deleted: EditResult,
    )
        requires
            old(self).wf(),
            old(self).ungrouped(),
            old(self).doc.has_room(),
            all_inside(old(self).sels(), old(self).text().len()),
            edit_fits(old(self).doc.text, deleted),
            deleted.0@.len() > 0,
        ensures
            final(self).wf(),
            if old(self).doc.read_only {
                *final(self) == *old(self)
            } else {
                old(self).after_edit(*final(self), deleted)
            },
            kill_routed(
                *old(state),
                *final(state),
                *clip,
                yanked(old(self).text(), old(self).sels()),
            ),
    {
        let values = yank_selections(&self.doc.text, &self.here.selections);
        self.apply_edit(deleted);
        state.keep_kill(clip, values);
    }

    /// Kills what is selected and enters insert mode in its place, all in one step of the
    /// history. `deleted` is the deletion.
    pub fn cmd_change(
        &mut self,
        state: &mut EditorState,
        clip: &Result<(), String>,
        deleted: EditResult,
    )
        requires
            old(self).wf(),
            old(self).here.paste_group is None,
            old(self).doc.generation() < u64::MAX,
            all_inside(old(self).sels(), old(self).text().len()),
            edit_fits(old(self).doc.text, deleted),
            deleted.0@.len() > 0,
        ensures
            final(self).wf(),
            exists|begun: Focus, s: EditorState|
                {
                    &&& #[trigger] insert_begun(*old(self), *old(state), begun, s, false)
                    &&& if old(self).doc.read_only {
                        *final(self) == begun
                    } else {
                        begun.after_grouped_edit(*final(self), deleted)
                    }
                    &&& kill_routed(
                        s,
                        *final(state),
                        *clip,
                        yanked(old(self).text(), old(self).sels()),
                    )
                },
    {
        let values = yank_selections(&self.doc.text, &self.here.selections);
        self.begin_insert_session(state);
        let ghost begun = *self;
        let ghost s = *state;
        self.apply_edit_grouped(deleted);
        state.keep_kill(clip, values);
        assert(insert_begun(*old(self), *old(state), begun, s, false));
    }

    /// Replaces every selected character by the one the command was given, where it was.
    /// `replace` makes the replacement.
    pub fn cmd_replace<R: FnOnce(Text, SelectionSet, char) -> EditResult>(
        &mut self,
        state: &mut EditorState,
        replace: R,
    )
        requires
            old(self).wf(),
            old(self).ungrouped(),
            old(self).doc.has_room(),
            replaces_well(replace, old(self).text()),
        ensures
            final(self).wf(),
            char_taken(*old(state), *final(state)),
            match old(state).modal@.keys.pending_char {
                Some(c) if !old(self).doc.read_only => exists|o: EditResult|
                    #[trigger] replaced(replace, old(self).text(), old(self).sels(), c, o)
                        && old(self).after_edit(*final(self), o),
                _ => *final(self) == *old(self),
            },
    {
        match state.modal.keys.pending_char.take() {
            Some(c) => {
                if !self.doc.read_only {
                    let o = replace(self.doc.text.clone(), self.here.selections.clone(), c);
                    assert(replaced(replace, old(self).text(), old(self).sels(), c, o));
                    self.apply_edit(o);
                }
            },
            None => {},
        }
    }

    /// Wraps every selection in the pair of the character the command was given, where it
    /// was. `wrap` makes the edit.
    pub fn cmd_surround_add<W: FnOnce(Text, SelectionSet, (char, char)) -> EditResult>(
        &mut self,
        state: &mut EditorState,
        pairs: &Vec<Pair>,
        wrap: W,
    )
        requires
            old(self).wf(),
            old(self).ungrouped(),
            old(self).doc.has_room(),
            wraps_well(wrap, old(self).text()),
        ensures
            final(self).wf(),
            char_taken(*old(state), *final(state)),
            match old(state).modal@.keys.pending_char {
                Some(c) if !old(self).doc.read_only => exists|o: EditResult|
                    #[trigger] wrapped(
                        wrap,
                        old(self).text(),
                        old(self).sels(),
                        surrounding(pairs@, c),
                        o,
                    ) && old(self).after_edit(*final(self), o),
                _ => *final(self) == *old(self),
            },
    {
        match state.modal.keys.pending_char.take() {
            Some(c) => {
                if !self.doc.read_only {
                    let pair = surround_pair(pairs, c);
                    let o = wrap(self.doc.text.clone(), self.here.selections.clone(), pair);
                    assert(wrapped(wrap, old(self).text(), old(self).sels(), pair, o));
                    self.apply_edit(o);
                }
            },
            None => {},
        }
    }
}

/// The character that a command was given is used up.
pub open spec fn char_taken(before: EditorState, after: EditorState) -> bool {
    &&& after.modal@ == (ModalV {
        keys: Keys { pending_char: None, ..before.modal@.keys },
        ..before.modal@
    })
    &&& after == (EditorState { modal: after.modal, ..before })
}

/// `replace` can be called on this text, and gives an edit that fits.
pub open spec fn replaces_well<R: FnOnce(Text, SelectionSet, char) -> EditResult>(
    replace: R,
    text: Seq<char>,
) -> bool {
    &&& forall|t: Text, s: SelectionSet, c: char|
        #![trigger replace.requires((t, s, c))]
        t@ == text ==> replace.requires((t, s, c))
    &&& forall|t: Text, s: SelectionSet, c: char, o: EditResult|
        #![trigger replace.ensures((t, s, c), o)]
        t@ == text && replace.ensures((t, s, c), o) ==> edit_fits(t, o) && o.0@.len() > 0
}

/// `o` is what `replace` makes of this text, these selections and this character.
pub open spec fn replaced<R: FnOnce(Text, SelectionSet, char) -> EditResult>(
    replace: R,
    text: Seq<char>,
    sels: Sels,
    c: char,
    o: EditResult,
) -> bool {
    exists|t: Text, s: SelectionSet|
        #![trigger replace.ensures((t, s, c), o)]
        t@ == text && s@ == sels && replace.ensures((t, s, c), o)
}

/// `wrap` can be called on this text, and gives an edit that fits.
pub open spec fn wraps_well<W: FnOnce(Text, SelectionSet, (char, char)) -> EditResult>(
    wrap: W,
    text: Seq<char>,
) -> bool {
    &&& forall|t: Text, s: SelectionSet, pair: (char, char)|
        #![trigger wrap.requires((t, s, pair))]
        t@ == text ==> wrap.requires((t, s, pair))
    &&& forall|t: Text, s: SelectionSet, pair: (char, char), o: EditResult|
        #![trigger wrap.ensures((t, s, pair), o)]
        t@ == text && wrap.ensures((t, s, pair), o) ==> edit_fits(t, o) && o.0@.len() > 0
}

/// `o` is what `wrap` makes of this text, these selections and this pair.
pub open spec fn wrapped<W: FnOnce(Text, SelectionSet, (char, char)) -> EditResult>(
    wrap: W,
    text: Seq<char>,
    sels: Sels,
    pair: (char, char),
    o: EditResult,
) -> bool {
    exists|t: Text, s: SelectionSet|
        #![trigger wrap.ensures((t, s, pair), o)]
        t@ == text && s@ == sels && wrap.ensures((t, s, pair), o)
}

/// The pair that a character belongs to, as either of its two; else the character twice.
pub open spec fn surrounding(pairs: Seq<Pair>, c: char) -> (char, char)
    decreases pairs.len(),
{
    if pairs.len() == 0 {
        (c, c)
    } else if pairs[0].open == c || pairs[0].close == c {
        (pairs[0].open, pairs[0].close)
    } else {
        surrounding(pairs.drop_first(), c)
    }
}

/// What selections are wrapped in for a character.
pub fn surround_pair(pairs: &Vec<Pair>, c: char) -> (r: (char, char))
    ensures
        r == surrounding(pairs@, c),
{
    let n = pairs.len();
    let mut i: usize = 0;
    assert(pairs@.skip(0) =~= pairs@);
    while i < n
        invariant
            i <= n == pairs@.len(),
            surrounding(pairs@, c) == surrounding(pairs@.skip(i as int), c),
        decreases n - i,
    {
        assert(pairs@.skip(i as int).drop_first() =~= pairs@.skip(i + 1));
        if pairs[i].open == c || pairs[i].close == c {
            return (pairs[i].open, pairs[i].close);
        }
        i = i + 1;
    }
    (c, c)
}

/// What a fresh paste takes: the texts, and where cycling goes on from, for texts of the
/// kill ring.
pub open spec fn paste_source(s: EditorState, clip: Result<String, String>) -> Option<
    (Seq<Seq<char>>, Option<usize>),
> {
    let ring_head = match s.kill_ring@.head() {
        Some(v) => Some((v, Some(0usize))),
        None => None,
    };
    match named_register(s.register_prefix) {
        None => if s.last_command is Some && kills(s.last_command->0@) {
            ring_head
        } else {
            match register_text(s.registers, clip, CLIPBOARD_REGISTER) {
                Some(v) => Some((v, None)),
                None => ring_head,
            }
        },
        Some(c) => if c == BLACK_HOLE_REGISTER {
            None
        } else if c == KILL_RING_REGISTER {
            ring_head
        } else {
            match register_text(s.registers, clip, c) {
                Some(v) => Some((v, None)),
                None => None,
            }
        },
    }
}

/// The messages after a fresh paste looked for its source. A clipboard that cannot be read
/// goes unmentioned where the kill ring stands in for it.
pub open spec fn source_reported(s: EditorState, clip: Result<String, String>) -> Shown {
    let asked = match named_register(s.register_prefix) {
        None => !(s.last_command is Some && kills(s.last_command->0@)) && (register_text(
            s.registers,
            clip,
            CLIPBOARD_REGISTER,
        ) is Some || s.kill_ring@.head() is None),
        Some(c) => c == CLIPBOARD_REGISTER,
    };
    if asked && clip is Err {
        s.messages@.reported(Severity::Warning, clipboard_warning(clip->Err_0@))
    } else {
        s.messages@
    }
}

/// Texts and where cycling goes on from, as a value.
pub open spec fn source_of(v: Option<(Vec<String>, Option<usize>)>) -> Option<
    (Seq<Seq<char>>, Option<usize>),
> {
    match v {
        Some((t, o)) => Some((texts(t@), o)),
        None => None,
    }
}

impl EditorState {
    fn ring_source(&self) -> (r: Option<(Vec<String>, Option<usize>)>)
        ensures
            source_of(r) == (match self.kill_ring@.head() {
                Some(v) => Some((v, Some(0usize))),
                None => None,
            }),
    {
        match self.kill_ring.head() {
            Some(v) => Some((copy_texts(v), Some(0))),
            None => None,
        }
    }

    fn warn_of(&mut self, warning: Option<String>)
        ensures
            *final(self) == (EditorState { messages: final(self).messages, ..*old(self) }),
            final(self).messages@ == (match warning {
                Some(w) => old(self).messages@.reported(Severity::Warning, w@),
                None => old(self).messages@,
            }),
    {
        match warning {
            Some(w) => self.messages.report(Severity::Warning, w),
            None => {},
        }
    }

    /// Finds what a fresh paste takes; see [`paste_source`]. `clip` is what the system
    /// clipboard holds.
    pub fn resolve_paste_values(&mut self, clip: &Result<String, String>) -> (r: Option<
        (Vec<String>, Option<usize>),
    >)
        ensures
            source_of(r) == paste_source(*old(self), *clip),
            final(self).messages@ == source_reported(*old(self), *clip),
            *final(self) == (EditorState {
                register_prefix: None,
                messages: final(self).messages,
                ..*old(self)
            }),
    {
        match self.take_register_prefix() {
            None => {
                let prefer_ring = match &self.last_command {
                    Some(c) => is_kill_command(c.as_str()),
                    None => false,
                };
                if prefer_ring {
                    return self.ring_source();
                }
                let (values, warning) = read_register_text(
                    &self.registers,
                    clip,
                    CLIPBOARD_REGISTER,
                );
                match values {
                    Some(v) => {
                        self.warn_of(warning);
                        Some((v, None))
                    },
                    None => {
                        let head = self.ring_source();
                        match head {
                            Some(h) => Some(h),
                            None => {
                                self.warn_of(warning);
                                None
                            },
                        }
                    },
                }
            },
            Some(c) => {
                if c == BLACK_HOLE_REGISTER {
                    None
                } else if c == KILL_RING_REGISTER {
                    self.ring_source()
                } else {
                    let (values, warning) = read_register_text(&self.registers, clip, c);
                    self.warn_of(warning);
                    match values {
                        Some(v) => Some((v, None)),
                        None => None,
                    }
                }
            },
        }
    }
}

/// What was deleted or changed last is what a paste right behind it takes, whatever the
/// clipboard holds, and cycling goes on from there.
pub proof fn law_paste_takes_what_was_just_killed(
    before: EditorState,
    killed: EditorState,
    pasting: EditorState,
    written: Result<(), String>,
    clip: Result<String, String>,
    values: Seq<Seq<char>>,
)
    requires
        kill_routed(before, killed, written, values),
        before.register_prefix is None,
        pasting.register_prefix is None,
        pasting.kill_ring == killed.kill_ring,
        pasting.last_command matches Some(c) && (c@ == "delete"@ || c@ == "change"@),
    ensures
        paste_source(pasting, clip) == Some((values, Some(0usize))),
        source_reported(pasting, clip) == pasting.messages@,
        killed.registers == before.registers,
{
    let all = seq![values] + before.kill_ring@.slots;
    assert(all[0] == values);
    assert(killed.kill_ring@.slots[0] == values);
}

/// What is killed into a register is what a paste from that register takes. Neither the
/// kill ring nor the clipboard has a part in that.
pub proof fn law_paste_takes_what_the_register_was_given(
    before: EditorState,
    killed: EditorState,
    pasting: EditorState,
    written: Result<(), String>,
    clip: Result<String, String>,
    values: Seq<Seq<char>>,
    name: char,
)
    requires
        kill_routed(before, killed, written, values),
        before.register_prefix == Some(RegisterPrefix::Selected(name)),
        pasting.register_prefix == Some(RegisterPrefix::Selected(name)),
        pasting.registers == killed.registers,
        name != 'b' && name != 'c' && name != 'k',
    ensures
        paste_source(pasting, clip) == Some((values, None::<usize>)),
        source_reported(pasting, clip) == pasting.messages@,
        killed.kill_ring == before.kill_ring,
        killed.messages@ == before.messages@,
{
    assert(killed.registers.held(name) == Some(crate::registers::Held::Text(values)));
}

/// The register of the kill ring is the ring: a kill into it is pasted from it.
pub proof fn law_kill_ring_has_a_register(
    before: EditorState,
    killed: EditorState,
    pasting: EditorState,
    written: Result<(), String>,
    clip: Result<String, String>,
    values: Seq<Seq<char>>,
)
    requires
        kill_routed(before, killed, written, values),
        before.register_prefix == Some(RegisterPrefix::Selected('k')),
        pasting.register_prefix == Some(RegisterPrefix::Selected('k')),
        pasting.kill_ring == killed.kill_ring,
    ensures
        paste_source(pasting, clip) == Some((values, Some(0usize))),
        killed.registers == before.registers,
        source_reported(pasting, clip) == pasting.messages@,
{
    let all = seq![values] + before.kill_ring@.slots;
    assert(all[0] == values);
    assert(killed.kill_ring@.slots[0] == values);
}

/// A register name counts for one kill.
pub proof fn law_named_register_is_used_up(
    before: EditorState,
    killed: EditorState,
    written: Result<(), String>,
    values: Seq<Seq<char>>,
)
    requires
        kill_routed(before, killed, written, values),
    ensures
        killed.register_prefix is None,
{
}

/// A paste that is told of no register, and does not follow a kill, takes what the
/// clipboard holds. Only where the clipboard cannot be read does it take what was last
/// copied to it, and the newest kill where that is nothing.
pub proof fn law_paste_asks_the_clipboard(s: EditorState, t: String, e: String)
    requires
        s.register_prefix is None,
        s.last_command matches Some(c) ==> c@ != "delete"@ && c@ != "change"@,
    ensures
        paste_source(s, Ok(t)) == Some((seq![t@], None::<usize>)),
        source_reported(s, Ok(t)) == s.messages@,
        match s.registers.text('c') {
            Some(v) => {
                &&& paste_source(s, Err(e)) == Some((v, None::<usize>))
                &&& source_reported(s, Err(e)) == s.messages@.reported(
                    Severity::Warning,
                    clipboard_warning(e@),
                )
            },
            None => if s.kill_ring@.slots.len() > 0 {
                &&& paste_source(s, Err(e)) == Some((s.kill_ring@.slots[0], Some(0usize)))
                &&& source_reported(s, Err(e)) == s.messages@
            } else {
                &&& paste_source(s, Err(e)) is None
                &&& source_reported(s, Err(e)) == s.messages@.reported(
                    Severity::Warning,
                    clipboard_warning(e@),
                )
            },
        },
{
}

/// Nothing is pasted from the register that swallows what it is given.
pub proof fn law_black_hole_is_empty(s: EditorState, clip: Result<String, String>)
    requires
        s.register_prefix == Some(RegisterPrefix::Selected('b')),
    ensures
        paste_source(s, clip) is None,
        source_reported(s, clip) == s.messages@,
{
}

/// The commands that kill, and those that paste.
pub proof fn law_kill_and_paste_commands(n: Seq<char>)
    ensures
        kills(n) <==> n == "delete"@ || n == "change"@,
        pastes(n) <==> n == "paste-after"@ || n == "paste-before"@ || n == "paste-ring-older"@ || n
            == "paste-ring-newer"@,
        cycles(n) <==> n == "paste-ring-older"@ || n == "paste-ring-newer"@,
{
}

/// Each selection gives one text: the characters from its front to the end of the cluster
/// that it ends on.
pub proof fn law_yank_takes_what_is_selected(text: Seq<char>, sels: Sels, i: int, p: int)
    requires
        all_inside(sels, text.len()),
        0 <= i < sels.sels.len(),
        sels.sels[i].spec_start() <= p <= sels.sels[i].spec_end(),
    ensures
        yanked(text, sels).len() == sels.sels.len(),
        yanked(text, sels)[i].len() >= sels.sels[i].spec_end() - sels.sels[i].spec_start() + 1,
        yanked(text, sels)[i][p - sels.sels[i].spec_start()] == text[p],
        sels.sels[i].spec_start() + yanked(text, sels)[i].len() == next_boundary(
            text,
            sels.sels[i].spec_end() as int,
        ),
{
    let s = sels.sels[i];
    assert(s.spec_end() < text.len());
    law_next_boundary_is_the_nearest(text, s.spec_end() as int, 0);
    lemma_line_around(text, s.spec_end() as int);
}

/// A selection is wrapped in the first pair that the character belongs to; the character
/// may be either of the two. One that belongs to no pair is put at both ends.
pub proof fn law_first_pair_surrounds(pairs: Seq<Pair>, c: char, k: int)
    ensures
        (forall|i: int| 0 <= i < pairs.len() ==> c != #[trigger] pairs[i].open && c
            != pairs[i].close) ==> surrounding(pairs, c) == (c, c),
        0 <= k < pairs.len() && (pairs[k].open == c || pairs[k].close == c) && (forall|i: int|
            0 <= i < k ==> c != #[trigger] pairs[i].open && c != pairs[i].close)
            ==> surrounding(pairs, c) == (pairs[k].open, pairs[k].close),
    decreases pairs.len(),
{
    if pairs.len() > 0 {
        let rest = pairs.drop_first();
        assert(forall|i: int| 0 <= i < rest.len() ==> rest[i] == pairs[i + 1]);
        law_first_pair_surrounds(rest, c, k - 1);
    }
}

/// A character that was given to a command is used up by it, and nothing else of the editor
/// changes.
pub proof fn law_given_char_is_used_up(before: EditorState, after: EditorState)
    requires
        char_taken(before, after),
    ensures
        after.modal@.keys.pending_char is None,
        after.modal@.keys.count == before.modal@.keys.count,
        after.modal@.keys.mode == before.modal@.keys.mode,
        after.registers == before.registers,
        after.kill_ring == before.kill_ring,
        after.messages == before.messages,
{
}

} // verus!

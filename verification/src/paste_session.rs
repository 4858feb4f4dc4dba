//! Pasting, and cycling through what could have been pasted instead. All pastes of one
//! session are one step of the history.

use crate::buffer::{edit_fits, same_file, EditGroup, EditResult};
use crate::editing::{land, landed, Landing};
use crate::focus::Focus;
use crate::message_log::Severity;
use crate::pane_state::PaneBufferState;
use crate::paste::{is_paste_command, paste_source, pastes, source_reported};
use crate::registers::{copy_texts, texts, Ring};
use crate::selection::{SelectionSet, Sels};
use crate::state::EditorState;
use crate::text::Text;
use vstd::prelude::*;
use vstd::string::*;

verus! {

/// `paste` can be called on this text and these selections, and gives an edit that fits.
pub open spec fn pastes_well<P: FnOnce(Text, SelectionSet, Vec<String>) -> EditResult>(
    paste: P,
    text: Seq<char>,
) -> bool {
    &&& forall|t: Text, s: SelectionSet, v: Vec<String>|
        #![trigger paste.requires((t, s, v))]
        t@ == text ==> paste.requires((t, s, v))
    &&& forall|t: Text, s: SelectionSet, v: Vec<String>, o: EditResult|
        #![trigger paste.ensures((t, s, v), o)]
        t@ == text && paste.ensures((t, s, v), o) ==> edit_fits(t, o) && o.0@.len() > 0
}

/// `o` is what `paste` makes of this text, these selections and these values.
pub open spec fn pasted<P: FnOnce(Text, SelectionSet, Vec<String>) -> EditResult>(
    paste: P,
    text: Seq<char>,
    sels: Sels,
    values: Seq<Seq<char>>,
    o: EditResult,
) -> bool {
    exists|t: Text, s: SelectionSet, v: Vec<String>|
        #![trigger paste.ensures((t, s, v), o)]
        t@ == text && s@ == sels && texts(v@) == values && paste.ensures((t, s, v), o)
}

/// After the values were pasted in place of what the open session pasted before. The
/// session is as it was opened on `text` and `sels`.
pub open spec fn session_shows<P: FnOnce(Text, SelectionSet, Vec<String>) -> EditResult>(
    before: Focus,
    after: Focus,
    paste: P,
    text: Seq<char>,
    sels: Sels,
    values: Seq<Seq<char>>,
) -> bool {
    &&& same_file(after.doc, before.doc)
    &&& after == (Focus {
        doc: after.doc,
        here: PaneBufferState {
            selections: after.here.selections,
            paste_group: after.here.paste_group,
            paste_before: after.here.paste_before,
            ..before.here
        },
        ..before
    })
    &&& after.doc.tree() == before.doc.tree()
    &&& after.doc.revision() == before.doc.revision()
    &&& after.doc.generation() == before.doc.generation() + 1
    &&& after.here.paste_group is Some
    &&& after.here.paste_group->0.text_snapshot@ == text
    &&& after.here.paste_group->0.pre_sels@ == sels
    &&& exists|o: EditResult|
        {
            &&& #[trigger] pasted(paste, text, sels, values, o)
            &&& after.text() == o.0@
            &&& after.sels() == o.1@
            &&& after.here.paste_group->0.cs is Some
            &&& after.here.paste_group->0.cs->0@ == o.2@
        }
}

impl Focus {
    /// Pastes `values` in place of what the open session pasted before.
    fn repaste<P: FnOnce(Text, SelectionSet, Vec<String>) -> EditResult>(
        &mut self,
        values: &Vec<String>,
        paste: P,
    )
        requires
            old(self).wf(),
            old(self).here.paste_group is Some,
            old(self).here.edit_group is None,
            old(self).doc.generation() < u64::MAX,
            pastes_well(paste, old(self).here.paste_group->0.text_snapshot@),
        ensures
            final(self).wf(),
            session_shows(
                *old(self),
                *final(self),
                paste,
                old(self).here.paste_group->0.text_snapshot@,
                old(self).here.paste_group->0.pre_sels@,
                texts(values@),
            ),
            final(self).here.paste_before == old(self).here.paste_before,
    {
        let ghost g0 = self.here.paste_group->0;
        let v = copy_texts(values);
        let ghost goal = texts(values@);
        let ghost base = g0.text_snapshot@;
        let cmd = move |t: Text, s: SelectionSet| -> (o: EditResult)
            requires
                paste.requires((t, s, v)),
            ensures
                paste.ensures((t, s, v), o),
            { paste(t, s, v) };
        let mut group = self.here.paste_group.take();
        let (after, _) = self.doc.apply_edit_regrouped(&mut group, cmd);
        self.here.paste_group = group;
        self.here.selections = after;
        proof {
            let (t, s, o) = choose|t: Text, s: SelectionSet, o: EditResult|
                #![trigger cmd.ensures((t, s), o)]
                {
                    &&& t@ == g0.text_snapshot@
                    &&& s@ == g0.pre_sels@
                    &&& cmd.ensures((t, s), o)
                    &&& self.doc.doc() == o.0@
                    &&& after@ == o.1@
                    &&& group->0.cs->0@ == o.2@
                };
            assert(paste.ensures((t, s, v), o));
            assert(pasted(paste, g0.text_snapshot@, g0.pre_sels@, goal, o));
        }
    }

    /// Opens a paste session on the text and the selections as they are, and pastes
    /// `values`.
    fn open_paste_session_and_apply<P: FnOnce(Text, SelectionSet, Vec<String>) -> EditResult>(
        &mut self,
        before: bool,
        values: &Vec<String>,
        paste: P,
    )
        requires
            old(self).wf(),
            old(self).ungrouped(),
            old(self).doc.generation() < u64::MAX,
            pastes_well(paste, old(self).text()),
        ensures
            final(self).wf(),
            session_shows(
                *old(self),
                *final(self),
                paste,
                old(self).text(),
                old(self).sels(),
                texts(values@),
            ),
            final(self).here.paste_before == before,
    {
        let pre = self.here.selections.clone();
        let mut group: Option<EditGroup> = None;
        self.doc.begin_edit_group(&mut group, pre);
        self.here.paste_group = group;
        self.here.paste_before = before;
        self.repaste(values, paste);
    }
}

/// The paste repeats the one before it: nothing but pastes came between, and no register
/// was named.
pub open spec fn appends(s: EditorState) -> bool {
    s.last_command is Some && pastes(s.last_command->0@) && s.register_prefix is None
        && s.last_paste is Some
}

/// The selections that a repeated paste is put beside.
pub open spec fn beside(f: Focus, before: bool) -> Sels {
    landed(
        f.text(),
        f.sels(),
        if before {
            Landing::Start
        } else {
            Landing::EndInclusive
        },
    )
}

/// What a paste does. In a buffer that refuses edits it only gives a message. A paste
/// right after a paste puts the same texts beside it; any other takes what
/// [`paste_source`] says, and nothing is pasted where that is nothing.
pub open spec fn paste_done<P: FnOnce(Text, SelectionSet, Vec<String>) -> EditResult>(
    f: Focus,
    s: EditorState,
    g: Focus,
    t: EditorState,
    clip: Result<String, String>,
    before: bool,
    paste: P,
) -> bool {
    if f.doc.read_only {
        &&& g == f
        &&& t == (EditorState { messages: t.messages, ..s })
        &&& t.messages@ == s.messages@.reported(Severity::Info, "Buffer is read-only"@)
    } else if appends(s) {
        &&& t == s
        &&& session_shows(
            f,
            g,
            paste,
            f.text(),
            beside(f, before),
            texts(s.last_paste->0@),
        )
        &&& g.here.paste_before == before
    } else {
        &&& t == (EditorState {
            register_prefix: None,
            messages: t.messages,
            kill_ring: t.kill_ring,
            last_paste: t.last_paste,
            ..s
        })
        &&& t.messages@ == source_reported(s, clip)
        &&& match paste_source(s, clip) {
            Some((values, origin)) => {
                &&& session_shows(f, g, paste, f.text(), f.sels(), values)
                &&& g.here.paste_before == before
                &&& t.last_paste is Some
                &&& texts(t.last_paste->0@) == values
                &&& t.kill_ring@ == (Ring { cycle: origin, ..s.kill_ring@ })
            },
            None => g == f && t.last_paste == s.last_paste && t.kill_ring == s.kill_ring,
        }
    }
}

/// What cycling does: the next older kill, or the next newer one, is shown in place of what
/// the open session pasted. Without an open session, or at the end of the ring, nothing
/// happens.
pub open spec fn cycle_done<P: FnOnce(Text, SelectionSet, Vec<String>) -> EditResult>(
    f: Focus,
    s: EditorState,
    g: Focus,
    t: EditorState,
    older: bool,
    paste: P,
) -> bool {
    match f.here.paste_group {
        Some(group) => {
            let (ring, values) = if older {
                s.kill_ring@.older()
            } else {
                s.kill_ring@.newer()
            };
            &&& t == (EditorState { kill_ring: t.kill_ring, last_paste: t.last_paste, ..s })
            &&& t.kill_ring@ == ring
            &&& match values {
                Some(v) => {
                    &&& session_shows(f, g, paste, group.text_snapshot@, group.pre_sels@, v)
                    &&& g.here.paste_before == f.here.paste_before
                    &&& t.last_paste is Some
                    &&& texts(t.last_paste->0@) == v
                },
                None => g == f && t.last_paste == s.last_paste,
            }
        },
        None => g == f && t == s,
    }
}

impl Focus {
    /// Pastes; see [`paste_done`]. `clip` is what the system clipboard holds, and `paste`
    /// puts texts in at selections.
    fn do_paste<P: FnOnce(Text, SelectionSet, Vec<String>) -> EditResult>(
        &mut self,
        state: &mut EditorState,
        clip: &Result<String, String>,
        before: bool,
        paste: P,
    )
        requires
            old(self).wf(),
            old(self).ungrouped(),
            old(self).doc.generation() < u64::MAX,
            pastes_well(paste, old(self).text()),
        ensures
            final(self).wf(),
            paste_done(*old(self), *old(state), *final(self), *final(state), *clip, before, paste),
    {
        if self.doc.read_only {
            state.messages.report(Severity::Info, "Buffer is read-only".to_owned());
            return;
        }
        let follows = match &state.last_command {
            Some(c) => is_paste_command(c.as_str()),
            None => false,
        };
        if follows && state.register_prefix.is_none() {
            if let Some(values) = &state.last_paste {
                let to = if before {
                    Landing::Start
                } else {
                    Landing::EndInclusive
                };
                let sels = land(&self.doc.text, &self.here.selections, to);
                self.select(sels);
                self.open_paste_session_and_apply(before, values, paste);
                return;
            }
        }
        match state.resolve_paste_values(clip) {
            Some((values, origin)) => {
                self.open_paste_session_and_apply(before, &values, paste);
                state.last_paste = Some(values);
                state.kill_ring.seed_cycle(origin);
            },
            None => {},
        }
    }

    /// Cycles through the kill ring; see [`cycle_done`]. `paste` puts texts in at
    /// selections, on the side on which the session pastes.
    fn do_paste_cycle<P: FnOnce(Text, SelectionSet, Vec<String>) -> EditResult>(
        &mut self,
        state: &mut EditorState,
        older: bool,
        paste: P,
    )
        requires
            old(self).wf(),
            old(self).doc.generation() < u64::MAX,
            old(self).here.paste_group matches Some(g) ==> pastes_well(paste, g.text_snapshot@),
        ensures
            final(self).wf(),
            cycle_done(*old(self), *old(state), *final(self), *final(state), older, paste),
    {
        if self.here.paste_group.is_none() {
            return;
        }
        let values = if older {
            state.kill_ring.cycle_older()
        } else {
            state.kill_ring.cycle_newer()
        };
        match values {
            Some(v) => {
                self.repaste(&v, paste);
                state.last_paste = Some(v);
            },
            None => {},
        }
    }

    /// Pastes after the selections; see [`paste_done`].
    pub fn cmd_paste_after<P: FnOnce(Text, SelectionSet, Vec<String>) -> EditResult>(
        &mut self,
        state: &mut EditorState,
        clip: &Result<String, String>,
        paste: P,
    )
        requires
            old(self).wf(),
            old(self).ungrouped(),
            old(self).doc.generation() < u64::MAX,
            pastes_well(paste, old(self).text()),
        ensures
            final(self).wf(),
            paste_done(*old(self), *old(state), *final(self), *final(state), *clip, false, paste),
    {
        self.do_paste(state, clip, false, paste);
    }

    /// Pastes before the selections; see [`paste_done`].
    pub fn cmd_paste_before<P: FnOnce(Text, SelectionSet, Vec<String>) -> EditResult>(
        &mut self,
        state: &mut EditorState,
        clip: &Result<String, String>,
        paste: P,
    )
        requires
            old(self).wf(),
            old(self).ungrouped(),
            old(self).doc.generation() < u64::MAX,
            pastes_well(paste, old(self).text()),
        ensures
            final(self).wf(),
            paste_done(*old(self), *old(state), *final(self), *final(state), *clip, true, paste),
    {
        self.do_paste(state, clip, true, paste);
    }

    /// Shows the next older kill; see [`cycle_done`].
    pub fn cmd_paste_ring_older<P: FnOnce(Text, SelectionSet, Vec<String>) -> EditResult>(
        &mut self,
        state: &mut EditorState,
        paste: P,
    )
        requires
            old(self).wf(),
            old(self).doc.generation() < u64::MAX,
            old(self).here.paste_group matches Some(g) ==> pastes_well(paste, g.text_snapshot@),
        ensures
            final(self).wf(),
            cycle_done(*old(self), *old(state), *final(self), *final(state), true, paste),
    {
        self.do_paste_cycle(state, true, paste);
    }

    /// Shows the next newer kill; see [`cycle_done`].
    pub fn cmd_paste_ring_newer<P: FnOnce(Text, SelectionSet, Vec<String>) -> EditResult>(
        &mut self,
        state: &mut EditorState,
        paste: P,
    )
        requires
            old(self).wf(),
            old(self).doc.generation() < u64::MAX,
            old(self).here.paste_group matches Some(g) ==> pastes_well(paste, g.text_snapshot@),
        ensures
            final(self).wf(),
            cycle_done(*old(self), *old(state), *final(self), *final(state), false, paste),
    {
        self.do_paste_cycle(state, false, paste);
    }

    /// Closes the paste session, where one is open: all its pastes become one step of the
    /// history.
    pub fn commit_paste_group(&mut self)
        requires
            old(self).wf(),
            old(self).doc.tree().count() < usize::MAX,
        ensures
            final(self).wf(),
            match old(self).here.paste_group {
                Some(g) => {
                    &&& old(self).after_commit(*final(self), g)
                    &&& *final(self) == (Focus {
                        doc: final(self).doc,
                        here: PaneBufferState { paste_group: None, ..old(self).here },
                        ..*old(self)
                    })
                },
                None => *final(self) == *old(self),
            },
    {
        if self.here.paste_group.is_none() {
            return;
        }
        let post = self.here.selections.clone();
        let mut group = self.here.paste_group.take();
        self.doc.commit_edit_group(&mut group, post);
        self.here.paste_group = group;
    }
}

/// A paste and any change of what it shows are one step of the history: once the session
/// is closed, there is one revision more, and the one before it holds the text from before
/// the paste.
pub proof fn law_paste_is_one_step<P: FnOnce(Text, SelectionSet, Vec<String>) -> EditResult>(
    before: Focus,
    shown: Focus,
    cycled: Focus,
    closed: Focus,
    first: P,
    second: P,
    values: Seq<Seq<char>>,
    others: Seq<Seq<char>>,
)
    requires
        before.wf(),
        before.ungrouped(),
        session_shows(before, shown, first, before.text(), before.sels(), values),
        session_shows(shown, cycled, second, before.text(), before.sels(), others),
        cycled.after_commit(closed, cycled.here.paste_group->0),
    ensures
        closed.text() == cycled.text(),
        closed.doc.revision() == before.doc.tree().count(),
        closed.doc.tree().count() == before.doc.tree().count() + 1,
        ({
            let e = closed.doc.tree().edit(closed.doc.revision());
            &&& e.parent == before.doc.revision()
            &&& e.before == before.sels()
            &&& closed.doc.tree().texts[e.parent as int] == before.text()
        }),
{
}

/// A buffer that refuses edits refuses to be pasted into, and says so.
pub proof fn law_read_only_refuses_paste<P: FnOnce(Text, SelectionSet, Vec<String>) -> EditResult>(
    f: Focus,
    s: EditorState,
    g: Focus,
    t: EditorState,
    clip: Result<String, String>,
    before: bool,
    paste: P,
)
    requires
        paste_done(f, s, g, t, clip, before, paste),
        f.doc.read_only,
    ensures
        g == f,
        t.messages@ == s.messages@.reported(Severity::Info, "Buffer is read-only"@),
        t.register_prefix == s.register_prefix,
        t.kill_ring == s.kill_ring,
        t.last_paste == s.last_paste,
{
}

/// A paste right behind a paste puts the same texts in once more, whatever the clipboard
/// and the kill ring hold by now.
pub proof fn law_paste_again_repeats<P: FnOnce(Text, SelectionSet, Vec<String>) -> EditResult>(
    f: Focus,
    s: EditorState,
    g: Focus,
    t: EditorState,
    clip: Result<String, String>,
    before: bool,
    paste: P,
    values: Vec<String>,
)
    requires
        paste_done(f, s, g, t, clip, before, paste),
        !f.doc.read_only,
        s.last_command matches Some(c) && (c@ == "paste-after"@ || c@ == "paste-before"@),
        s.register_prefix is None,
        s.last_paste == Some(values),
    ensures
        t == s,
        g.here.paste_before == before,
        g.here.paste_group is Some,
        g.here.paste_group->0.text_snapshot@ == f.text(),
        exists|o: EditResult, sels: Sels| #[trigger]
            pasted(paste, f.text(), sels, texts(values@), o) && g.text() == o.0@ && g.sels()
                == o.1@,
{
    let sels = beside(f, before);
    let o = choose|o: EditResult|
        {
            &&& #[trigger] pasted(paste, f.text(), sels, texts(values@), o)
            &&& g.text() == o.0@
            &&& g.sels() == o.1@
            &&& g.here.paste_group->0.cs is Some
            &&& g.here.paste_group->0.cs->0@ == o.2@
        };
    assert(pasted(paste, f.text(), sels, texts(values@), o) && g.text() == o.0@);
}

/// A paste that names a register, or does not follow a paste, looks for its texts anew and
/// keeps them for the next one.
pub proof fn law_fresh_paste_is_kept<P: FnOnce(Text, SelectionSet, Vec<String>) -> EditResult>(
    f: Focus,
    s: EditorState,
    g: Focus,
    t: EditorState,
    clip: Result<String, String>,
    before: bool,
    paste: P,
    values: Seq<Seq<char>>,
    origin: Option<usize>,
)
    requires
        paste_done(f, s, g, t, clip, before, paste),
        !f.doc.read_only,
        s.register_prefix is Some || s.last_command is None,
        paste_source(s, clip) == Some((values, origin)),
    ensures
        t.register_prefix is None,
        t.last_paste is Some && texts(t.last_paste->0@) == values,
        t.kill_ring@.slots == s.kill_ring@.slots,
        t.kill_ring@.cycle == origin,
        g.here.paste_before == before,
        g.here.paste_group is Some,
        g.here.paste_group->0.text_snapshot@ == f.text(),
        g.here.paste_group->0.pre_sels@ == f.sels(),
{
}

/// Repeated pastes stand beside the selections as they are: before them, or behind their
/// last clusters.
pub proof fn law_repeated_pastes_stand_beside(f: Focus)
    ensures
        beside(f, true) == landed(f.text(), f.sels(), Landing::Start),
        beside(f, false) == landed(f.text(), f.sels(), Landing::EndInclusive),
{
}

/// A step to the next older kill, and a step back: the second shows what was shown before,
/// in place of what the first showed, and both start from the text as it was before
/// anything was pasted.
pub proof fn law_cycling_there_and_back<P: FnOnce(Text, SelectionSet, Vec<String>) -> EditResult>(
    f: Focus,
    s: EditorState,
    g: Focus,
    t: EditorState,
    h: Focus,
    u: EditorState,
    first: P,
    second: P,
    i: usize,
)
    requires
        cycle_done(f, s, g, t, true, first),
        cycle_done(g, t, h, u, false, second),
        f.here.paste_group is Some,
        s.kill_ring@.cycle == Some(i),
        i + 1 < s.kill_ring@.slots.len() <= usize::MAX,
    ensures
        texts(t.last_paste->0@) == s.kill_ring@.slots[i + 1],
        texts(u.last_paste->0@) == s.kill_ring@.slots[i as int],
        u.kill_ring@ == s.kill_ring@,
        g.here.paste_group is Some,
        g.here.paste_group->0.text_snapshot@ == f.here.paste_group->0.text_snapshot@,
        h.here.paste_group is Some,
        h.here.paste_group->0.text_snapshot@ == f.here.paste_group->0.text_snapshot@,
        h.here.paste_group->0.pre_sels@ == f.here.paste_group->0.pre_sels@,
{
}

/// Where nothing was pasted there is nothing to cycle, and at the last kill of the ring
/// the paste stays as it is.
pub proof fn law_nothing_to_cycle<P: FnOnce(Text, SelectionSet, Vec<String>) -> EditResult>(
    f: Focus,
    s: EditorState,
    g: Focus,
    t: EditorState,
    older: bool,
    paste: P,
)
    requires
        cycle_done(f, s, g, t, older, paste),
    ensures
        f.here.paste_group is None ==> g == f && t == s,
        older && (s.kill_ring@.cycle matches Some(i) && i + 1 >= s.kill_ring@.slots.len())
            ==> g == f && t.kill_ring@ == s.kill_ring@ && t.last_paste == s.last_paste,
        !older && s.kill_ring@.cycle == Some(0usize) ==> g == f && t.kill_ring@ == s.kill_ring@
            && t.last_paste == s.last_paste,
{
}

} // verus!

//! The mouse: clicking, dragging and the wheel.

use crate::buffer::WrapMode;
use crate::dispatch::{Keys, Mode};
use crate::focus::Focus;
use crate::insert_mode::typed_kept;
use crate::auto_pairs::inside;
use crate::messages::Shown;
use crate::modes::ModalV;
use crate::pane_state::{PaneBufferState, Scroll, Viewport};
use crate::scroll::{less, row_sum};
use crate::selection::{Selection, SelectionSet, Sels};
use crate::state::EditorState;
use vstd::prelude::*;

verus! {

/// How far the wheel scrolls.
pub const SCROLL_LINES: usize = 3;

/// What the mouse does. Positions are cells of the terminal.
#[derive(Debug, Clone, Copy, PartialEq, Eq, Structural)]
pub enum MouseEvent {
    LeftDown { column: u16, row: u16 },
    LeftDrag { column: u16, row: u16 },
    LeftUp,
    ScrollUp,
    ScrollDown,
    Other,
}

/// What is to be done about the mouse.
#[derive(Debug, Clone, Copy, PartialEq, Eq, Structural)]
pub enum MouseAction {
    Nothing,
    /// Find out which character is in a cell, and go on with [`Focus::mouse_left_down`].
    Click { column: u16, row: u16 },
    /// Find out which character is in a cell, and go on with [`Focus::mouse_left_drag`].
    Drag { column: u16, row: u16 },
    /// The pane has moved up: move the cursors up by as many rows.
    MoveUp { rows: usize },
    /// The pane has moved down: move the cursors down by as many rows.
    MoveDown { rows: usize },
}

// ---------------------------------------------------------------------------
// The wheel
// ---------------------------------------------------------------------------

/// The place `n` visual rows up from row `sub` of `line`. A line is left upwards to the
/// last row of the line above.
pub open spec fn wheel_up(rows: Seq<usize>, line: nat, sub: nat, n: nat) -> (nat, nat)
    decreases n,
{
    if n == 0 {
        (line, sub)
    } else if sub > 0 {
        wheel_up(rows, line, (sub - 1) as nat, (n - 1) as nat)
    } else if line > 0 {
        wheel_up(
            rows,
            (line - 1) as nat,
            less(rows[line - 1] as int, 1) as nat,
            (n - 1) as nat,
        )
    } else {
        (line, sub)
    }
}

proof fn lemma_wheel_up_within(rows: Seq<usize>, line: nat, sub: nat, n: nat, k: nat)
    requires
        k <= n,
        k <= sub,
    ensures
        wheel_up(rows, line, sub, n) == wheel_up(rows, line, (sub - k) as nat, (n - k) as nat),
    decreases k,
{
    if k > 0 {
        lemma_wheel_up_within(rows, line, (sub - 1) as nat, (n - 1) as nat, (k - 1) as nat);
    }
}

/// The place `n` visual rows down from row `sub` of `line`. The line `last` is not left;
/// going past its end leads back to its first row.
pub open spec fn wheel_down(rows: Seq<usize>, last: nat, line: nat, sub: nat, n: nat) -> (nat, nat)
    decreases n,
{
    if n == 0 || line > last {
        (line, sub)
    } else {
        let rest = less(rows[line as int] as int, 1 + sub as int);
        if n <= rest {
            (line, sub + n)
        } else if line < last {
            wheel_down(rows, last, line + 1, 0, (n - (rest + 1)) as nat)
        } else {
            (line, 0)
        }
    }
}

/// The pane with another top.
pub open spec fn with_top(v: Viewport, top: (nat, nat)) -> Viewport {
    Viewport {
        scroll: Scroll {
            top_line: top.0 as usize,
            top_row_offset: top.1 as usize,
            ..v.scroll
        },
        ..v
    }
}

/// The pane after the wheel was turned up.
pub open spec fn scrolled_up(v: Viewport, rows: Seq<usize>, wraps: bool) -> Viewport {
    if wraps {
        with_top(
            v,
            wheel_up(
                rows,
                v.scroll.top_line as nat,
                v.scroll.top_row_offset as nat,
                SCROLL_LINES as nat,
            ),
        )
    } else {
        with_top(
            v,
            (
                less(v.scroll.top_line as int, SCROLL_LINES as int) as nat,
                v.scroll.top_row_offset as nat,
            ),
        )
    }
}

/// The pane after the wheel was turned down, in a text of `lines` lines, of which the last
/// one is empty and is not counted.
pub open spec fn scrolled_down(v: Viewport, rows: Seq<usize>, wraps: bool, lines: nat) -> Viewport {
    let content = less(lines as int, 1);
    if wraps {
        if row_sum(rows, 0, content) <= v.height {
            v
        } else {
            with_top(
                v,
                wheel_down(
                    rows,
                    less(content, 1) as nat,
                    v.scroll.top_line as nat,
                    v.scroll.top_row_offset as nat,
                    SCROLL_LINES as nat,
                ),
            )
        }
    } else {
        let most = less(content, v.height as int);
        let top = v.scroll.top_line + SCROLL_LINES;
        with_top(
            v,
            (
                if top < most {
                    top as nat
                } else {
                    most as nat
                },
                v.scroll.top_row_offset as nat,
            ),
        )
    }
}

/// Scrolls up as the wheel does; see [`scrolled_up`].
pub fn scroll_viewport_up(viewport: &mut Viewport, wrap_mode: &WrapMode, rows: &Vec<usize>)
    requires
        wrap_mode.wraps() ==> old(viewport).scroll.top_line <= rows@.len(),
    ensures
        *final(viewport) == scrolled_up(*old(viewport), rows@, wrap_mode.wraps()),
{
    if !wrap_mode.is_wrapping() {
        let top = viewport.scroll.top_line;
        viewport.scroll.top_line = if top < SCROLL_LINES {
            0
        } else {
            top - SCROLL_LINES
        };
        return;
    }
    let mut left: usize = SCROLL_LINES;
    let mut line = viewport.scroll.top_line;
    let mut sub = viewport.scroll.top_row_offset;
    let ghost goal = wheel_up(rows@, line as nat, sub as nat, left as nat);
    while left > 0 && (sub > 0 || line > 0)
        invariant
            line <= rows@.len(),
            goal == wheel_up(rows@, line as nat, sub as nat, left as nat),
        decreases left,
    {
        if sub > 0 {
            let dec: usize = if left < sub {
                left
            } else {
                sub
            };
            proof {
                lemma_wheel_up_within(rows@, line as nat, sub as nat, left as nat, dec as nat);
            }
            sub = sub - dec;
            left = left - dec;
        } else {
            line = line - 1;
            let r = rows[line];
            sub = if r < 1 {
                0
            } else {
                r - 1
            };
            left = left - 1;
        }
    }
    viewport.scroll.top_line = line;
    viewport.scroll.top_row_offset = sub;
}

fn fits_in(rows: &Vec<usize>, lines: usize, height: usize) -> (r: bool)
    requires
        lines <= rows@.len(),
    ensures
        r == (row_sum(rows@, 0, lines as int) <= height),
{
    let mut total: usize = 0;
    let mut i: usize = 0;
    while i < lines
        invariant
            i <= lines <= rows@.len(),
            total == row_sum(rows@, 0, i as int),
            total <= height,
        decreases lines - i,
    {
        if rows[i] > height - total {
            proof {
                lemma_row_sum_grows(rows@, i + 1, lines as int);
            }
            return false;
        }
        total = total + rows[i];
        i = i + 1;
    }
    true
}

proof fn lemma_row_sum_grows(rows: Seq<usize>, a: int, b: int)
    requires
        0 <= a <= b,
    ensures
        row_sum(rows, 0, a) <= row_sum(rows, 0, b),
    decreases b - a,
{
    if a < b {
        lemma_row_sum_grows(rows, a, b - 1);
    }
}

/// Scrolls down as the wheel does; see [`scrolled_down`].
pub fn scroll_viewport_down(
    viewport: &mut Viewport,
    wrap_mode: &WrapMode,
    rows: &Vec<usize>,
    total_lines: usize,
)
    requires
        wrap_mode.wraps() ==> total_lines <= rows@.len() + 1,
    ensures
        *final(viewport) == scrolled_down(
            *old(viewport),
            rows@,
            wrap_mode.wraps(),
            total_lines as nat,
        ),
{
    let content: usize = if total_lines < 1 {
        0
    } else {
        total_lines - 1
    };
    let height = viewport.height as usize;
    if !wrap_mode.is_wrapping() {
        let most: usize = if content < height {
            0
        } else {
            content - height
        };
        let top = viewport.scroll.top_line;
        viewport.scroll.top_line = if most < SCROLL_LINES || top >= most - SCROLL_LINES {
            most
        } else {
            top + SCROLL_LINES
        };
        return;
    }
    if fits_in(rows, content, height) {
        return;
    }
    let last: usize = if content < 1 {
        0
    } else {
        content - 1
    };
    let mut left: usize = SCROLL_LINES;
    let mut line = viewport.scroll.top_line;
    let mut sub = viewport.scroll.top_row_offset;
    let ghost goal = wheel_down(rows@, last as nat, line as nat, sub as nat, left as nat);
    while left > 0 && line <= last
        invariant_except_break
            goal == wheel_down(rows@, last as nat, line as nat, sub as nat, left as nat),
        invariant
            last < rows@.len(),
        ensures
            goal == (line as nat, sub as nat),
        decreases left,
    {
        let r = rows[line];
        let rest: usize = if r < 1 || r - 1 < sub {
            0
        } else {
            r - 1 - sub
        };
        if left <= rest {
            sub = sub + left;
            break;
        }
        left = left - (rest + 1);
        sub = 0;
        if line < last {
            line = line + 1;
        } else {
            break;
        }
    }
    viewport.scroll.top_line = line;
    viewport.scroll.top_row_offset = sub;
}

// ---------------------------------------------------------------------------
// Clicking and dragging
// ---------------------------------------------------------------------------

/// What is to be done about an event of the mouse. The wheel scrolls the pane, and the
/// cursors follow only where it has moved. Letting go ends dragging.
pub fn handle_mouse(
    event: MouseEvent,
    drag_anchor: &mut Option<usize>,
    viewport: &mut Viewport,
    wrap_mode: &WrapMode,
    rows: &Vec<usize>,
    total_lines: usize,
) -> (r: MouseAction)
    requires
        wrap_mode.wraps() ==> old(viewport).scroll.top_line <= rows@.len(),
        wrap_mode.wraps() ==> total_lines <= rows@.len() + 1,
    ensures
        *final(drag_anchor) == (if event is LeftUp {
            None
        } else {
            *old(drag_anchor)
        }),
        *final(viewport) == (match event {
            MouseEvent::ScrollUp => scrolled_up(*old(viewport), rows@, wrap_mode.wraps()),
            MouseEvent::ScrollDown => scrolled_down(
                *old(viewport),
                rows@,
                wrap_mode.wraps(),
                total_lines as nat,
            ),
            _ => *old(viewport),
        }),
        r == (match event {
            MouseEvent::LeftDown { column, row } => if row < old(viewport).height {
                MouseAction::Click { column, row }
            } else {
                MouseAction::Nothing
            },
            MouseEvent::LeftDrag { column, row } => if *old(drag_anchor) is Some && row < old(
                viewport,
            ).height {
                MouseAction::Drag { column, row }
            } else {
                MouseAction::Nothing
            },
            MouseEvent::ScrollUp => if *final(viewport) != *old(viewport) {
                MouseAction::MoveUp { rows: SCROLL_LINES }
            } else {
                MouseAction::Nothing
            },
            MouseEvent::ScrollDown => if *final(viewport) != *old(viewport) {
                MouseAction::MoveDown { rows: SCROLL_LINES }
            } else {
                MouseAction::Nothing
            },
            _ => MouseAction::Nothing,
        }),
{
    match event {
        MouseEvent::LeftDown { column, row } => {
            if row < viewport.height {
                MouseAction::Click { column, row }
            } else {
                MouseAction::Nothing
            }
        },
        MouseEvent::LeftDrag { column, row } => {
            if drag_anchor.is_some() && row < viewport.height {
                MouseAction::Drag { column, row }
            } else {
                MouseAction::Nothing
            }
        },
        MouseEvent::LeftUp => {
            *drag_anchor = None;
            MouseAction::Nothing
        },
        MouseEvent::ScrollUp => {
            let before = *viewport;
            scroll_viewport_up(viewport, wrap_mode, rows);
            if before != *viewport {
                MouseAction::MoveUp { rows: SCROLL_LINES }
            } else {
                MouseAction::Nothing
            }
        },
        MouseEvent::ScrollDown => {
            let before = *viewport;
            scroll_viewport_down(viewport, wrap_mode, rows, total_lines);
            if before != *viewport {
                MouseAction::MoveDown { rows: SCROLL_LINES }
            } else {
                MouseAction::Nothing
            }
        },
        MouseEvent::Other => MouseAction::Nothing,
    }
}

/// The keyboard after a click: no unfinished keys and no count are left.
pub open spec fn keys_cleared(k: Keys) -> Keys {
    Keys { pending: Seq::empty(), count: None, ..k }
}

impl Focus {
    /// A click on the character at `clicked`, where there is one: it leaves insert mode,
    /// puts the only cursor there, may be the start of dragging, and makes an end of
    /// unfinished keys and of the message in the status line.
    pub fn mouse_left_down(
        &mut self,
        state: &mut EditorState,
        drag_anchor: &mut Option<usize>,
        clicked: Option<usize>,
    )
        requires
            old(self).wf(),
            old(self).doc.tree().count() < usize::MAX,
            inside(old(self).sels(), old(self).text().len()),
        ensures
            match clicked {
                None => {
                    &&& *final(self) == *old(self)
                    &&& *final(state) == *old(state)
                    &&& *final(drag_anchor) == *old(drag_anchor)
                },
                Some(at) => {
                    let sel = Selection { anchor: at, head: at };
                    &&& final(self).wf()
                    &&& final(self).sels() == Sels::single(sel)
                    &&& *final(drag_anchor) == Some(at)
                    &&& final(self).text() == old(self).text()
                    &&& final(state).messages@ == (Shown { status: None, ..old(state).messages@ })
                    &&& if old(state).modal.keys.mode == Mode::Insert {
                        &&& final(self).here.edit_group is None
                        &&& match old(self).here.edit_group {
                            Some(g) => old(self).after_commit(*final(self), g),
                            None => final(self).doc == old(self).doc,
                        }
                        &&& *final(self) == (Focus {
                            doc: final(self).doc,
                            here: PaneBufferState {
                                edit_group: None,
                                selections: final(self).here.selections,
                                ..old(self).here
                            },
                            ..*old(self)
                        })
                        &&& final(state).modal@ == (ModalV {
                            keys: keys_cleared(
                                Keys { mode: Mode::Normal, ..old(state).modal@.keys },
                            ),
                            ..old(state).modal@
                        })
                        &&& typed_kept(
                            old(state).last_repeatable_action,
                            old(state).insert_session,
                            final(state).last_repeatable_action,
                        )
                        &&& *final(state) == (EditorState {
                            modal: final(state).modal,
                            messages: final(state).messages,
                            insert_session: None,
                            last_repeatable_action: final(state).last_repeatable_action,
                            ..*old(state)
                        })
                    } else {
                        &&& old(self).selecting(*final(self), Sels::single(sel))
                        &&& final(state).modal@ == (ModalV {
                            keys: keys_cleared(old(state).modal@.keys),
                            ..old(state).modal@
                        })
                        &&& *final(state) == (EditorState {
                            modal: final(state).modal,
                            messages: final(state).messages,
                            ..*old(state)
                        })
                    }
                },
            },
    {
        let at = match clicked {
            Some(at) => at,
            None => {
                return;
            },
        };
        if state.modal.keys.mode == Mode::Insert {
            self.end_insert_session(state);
            state.modal.set_mode(Mode::Normal);
        }
        self.select(SelectionSet::single(Selection::collapsed(at)));
        *drag_anchor = Some(at);
        state.modal.keys.pending_keys = Vec::new();
        state.modal.keys.count = None;
        state.messages.clear_status();
    }

    /// Dragging to the character at `dragged`, where there is one: the only selection goes
    /// from where dragging started to there.
    pub fn mouse_left_drag(&mut self, drag_anchor: &Option<usize>, dragged: Option<usize>)
        ensures
            match (*drag_anchor, dragged) {
                (Some(anchor), Some(head)) => old(self).selecting(
                    *final(self),
                    Sels::single(Selection { anchor, head }),
                ),
                _ => *final(self) == *old(self),
            },
    {
        if let (Some(anchor), Some(head)) = (*drag_anchor, dragged) {
            self.select(SelectionSet::single(Selection::new(anchor, head)));
        }
    }
}

/// The wheel moves up by visual rows: it ends as many rows higher as it was turned, or at
/// the first row where there are fewer.
pub proof fn law_wheel_up_moves_by_rows(rows: Seq<usize>, line: nat, sub: nat, n: nat)
    requires
        line <= rows.len(),
        forall|i: int| 0 <= i < line ==> #[trigger] rows[i] >= 1,
    ensures
        ({
            let r = wheel_up(rows, line, sub, n);
            let from = row_sum(rows, 0, line as int) + sub;
            let to = row_sum(rows, 0, r.0 as int) + r.1;
            &&& n <= from ==> to == from - n
            &&& n >= from ==> r == (0nat, 0nat)
            &&& r.0 < line ==> r.1 < rows[r.0 as int]
        }),
    decreases n,
{
    if n == 0 {
        if row_sum(rows, 0, line as int) + sub == 0 && line > 0 {
            lemma_row_sum_grows(rows, 0, line - 1);
        }
    } else if sub > 0 {
        law_wheel_up_moves_by_rows(rows, line, (sub - 1) as nat, (n - 1) as nat);
    } else if line > 0 {
        law_wheel_up_moves_by_rows(
            rows,
            (line - 1) as nat,
            (rows[line - 1] - 1) as nat,
            (n - 1) as nat,
        );
    }
}

/// The wheel moves down by visual rows: it ends as many rows lower as it was turned, as
/// long as those are rows of the text. Turned past the last row it ends on the first row of
/// the last line.
pub proof fn law_wheel_down_moves_by_rows(
    rows: Seq<usize>,
    last: nat,
    line: nat,
    sub: nat,
    n: nat,
)
    requires
        line <= last < rows.len(),
        sub < rows[line as int],
        forall|i: int| 0 <= i <= last ==> #[trigger] rows[i] >= 1,
    ensures
        ({
            let r = wheel_down(rows, last, line, sub, n);
            let from = row_sum(rows, 0, line as int) + sub;
            let all = row_sum(rows, 0, last as int + 1);
            &&& from + n < all ==> row_sum(rows, 0, r.0 as int) + r.1 == from + n
            &&& from + n < all ==> r.0 <= last && r.1 < rows[r.0 as int]
            &&& from + n >= all ==> r == (last, 0nat)
        }),
    decreases n,
{
    assert(row_sum(rows, 0, line as int + 1) == row_sum(rows, 0, line as int)
        + rows[line as int]);
    lemma_row_sum_grows(rows, line as int + 1, last as int + 1);
    if n > 0 {
        let rest = rows[line as int] - 1 - sub;
        if n > rest && line < last {
            law_wheel_down_moves_by_rows(rows, last, line + 1, 0, (n - (rest + 1)) as nat);
        }
    }
}

/// Where lines are not wrapped the wheel moves by three lines, up to the first line and
/// down until the last line with content stands at the bottom of the pane.
pub proof fn law_wheel_moves_three_lines(v: Viewport, rows: Seq<usize>, lines: nat)
    requires
        lines <= usize::MAX,
    ensures
        ({
            let up = scrolled_up(v, rows, false);
            &&& v.scroll.top_line >= 3 ==> up.scroll.top_line == v.scroll.top_line - 3
            &&& v.scroll.top_line < 3 ==> up.scroll.top_line == 0
            &&& up.scroll.top_row_offset == v.scroll.top_row_offset
            &&& up.scroll.horizontal_offset == v.scroll.horizontal_offset
            &&& up.height == v.height && up.width == v.width
        }),
        ({
            let down = scrolled_down(v, rows, false, lines);
            &&& v.scroll.top_line + 3 + v.height <= lines - 1 ==> down.scroll.top_line
                == v.scroll.top_line + 3
            &&& v.scroll.top_line + 3 + v.height > lines - 1 && lines > v.height
                ==> down.scroll.top_line == lines - 1 - v.height
            &&& lines <= v.height ==> down.scroll.top_line == 0
            &&& down.scroll.top_row_offset == v.scroll.top_row_offset
            &&& down.scroll.horizontal_offset == v.scroll.horizontal_offset
            &&& down.height == v.height && down.width == v.width
        }),
{
}

/// Where lines are wrapped the wheel moves by three rows. A text that fits into the pane
/// is not scrolled down.
pub proof fn law_wheel_moves_three_rows(v: Viewport, rows: Seq<usize>, lines: nat)
    requires
        lines >= 2,
        rows.len() >= lines - 1,
        v.scroll.top_line < lines - 1,
        v.scroll.top_row_offset < rows[v.scroll.top_line as int],
        forall|i: int| 0 <= i < lines - 1 ==> #[trigger] rows[i] >= 1,
        lines <= usize::MAX,
    ensures
        ({
            let from = row_sum(rows, 0, v.scroll.top_line as int) + v.scroll.top_row_offset;
            let up = scrolled_up(v, rows, true).scroll;
            let down = scrolled_down(v, rows, true, lines).scroll;
            let all = row_sum(rows, 0, lines - 1);
            &&& from >= 3 ==> row_sum(rows, 0, up.top_line as int) + up.top_row_offset == from - 3
            &&& from < 3 ==> up.top_line == 0 && up.top_row_offset == 0
            &&& all <= v.height ==> scrolled_down(v, rows, true, lines) == v
            &&& all > v.height && from + 3 < all ==> row_sum(rows, 0, down.top_line as int)
                + down.top_row_offset == from + 3
        }),
{
    let line = v.scroll.top_line as nat;
    let sub = v.scroll.top_row_offset as nat;
    law_wheel_up_moves_by_rows(rows, line, sub, 3);
    law_wheel_down_moves_by_rows(rows, (lines - 2) as nat, line, sub, 3);
    lemma_wheel_up_stays(rows, line, sub, 3);
}

proof fn lemma_wheel_up_stays(rows: Seq<usize>, line: nat, sub: nat, n: nat)
    requires
        line <= rows.len(),
        sub <= usize::MAX,
    ensures
        wheel_up(rows, line, sub, n).0 <= line,
        wheel_up(rows, line, sub, n).1 <= usize::MAX,
    decreases n,
{
    if n > 0 && sub > 0 {
        lemma_wheel_up_stays(rows, line, (sub - 1) as nat, (n - 1) as nat);
    } else if n > 0 && line > 0 {
        lemma_wheel_up_stays(
            rows,
            (line - 1) as nat,
            less(rows[line - 1] as int, 1) as nat,
            (n - 1) as nat,
        );
    }
}

/// A click makes an end of unfinished keys: no key and no count is left, and nothing else
/// of the keys changes.
pub proof fn law_click_ends_unfinished_keys(k: Keys)
    ensures
        keys_cleared(k).pending.len() == 0,
        keys_cleared(k).count is None,
        keys_cleared(k).pending_char == k.pending_char,
        keys_cleared(k).mode == k.mode,
{
}

} // verus!

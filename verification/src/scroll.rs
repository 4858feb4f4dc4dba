//! Scrolling: which part of a buffer a pane shows, so that the cursor stays in it.
//!
//! Long lines may take several visual rows. How many each line takes depends on how it is
//! laid out, so the functions here take the numbers of rows as an argument.

use crate::buffer::WrapMode;
use crate::pane_state::{Scroll, Viewport};
use crate::text::{newlines, Text};
use vstd::prelude::*;

verus! {

/// The lines between the cursor and the edge of the pane.
pub const SCROLL_MARGIN: usize = 3;

/// The columns between the cursor and the edge of the pane.
pub const SCROLL_MARGIN_H: usize = 5;

/// `a - b`, but not less than zero.
pub open spec fn less(a: int, b: int) -> int {
    if a < b {
        0
    } else {
        a - b
    }
}

/// The margin in a pane of `size` rows or columns: `most`, but not more than half of it.
pub open spec fn margin_of(most: int, size: int) -> int {
    if size / 2 < most {
        size / 2
    } else {
        most
    }
}

/// Where a window of `size` that starts at `start` has to start for `at` to be in it,
/// `margin` away from its edges.
pub open spec fn window_start(start: int, size: int, margin: int, at: int) -> int {
    if at < start + margin {
        less(at, margin)
    } else if size > 0 && at >= start + size - margin {
        less(at, size - margin - 1)
    } else {
        start
    }
}

/// What is asked to be in a window is in it, and where the window has room for two margins
/// and something between them, it is a margin away from both edges, save at the very start.
pub proof fn law_window_holds(start: int, size: int, most: int, at: int)
    requires
        start >= 0,
        size > 0,
        most >= 0,
        at >= 0,
    ensures
        ({
            let margin = margin_of(most, size);
            let s = window_start(start, size, margin, at);
            &&& s <= at < s + size
            &&& 2 * margin < size ==> at < s + size - margin && (s + margin <= at || s == 0)
        }),
{
}

fn shifted(start: usize, size: usize, margin: usize, at: usize) -> (r: usize)
    requires
        margin <= size / 2,
    ensures
        r == window_start(start as int, size as int, margin as int, at as int),
{
    if at < start || at - start < margin {
        if at < margin {
            0
        } else {
            at - margin
        }
    } else if size > 0 && at - start >= size - margin {
        let back: usize = size - margin - 1;
        if at < back {
            0
        } else {
            at - back
        }
    } else {
        start
    }
}

fn margin_in(most: usize, size: usize) -> (r: usize)
    ensures
        r == margin_of(most as int, size as int),
        r <= size / 2,
{
    if size / 2 < most {
        size / 2
    } else {
        most
    }
}

/// Scrolls by whole lines until the cursor's line is shown.
fn ensure_cursor_visible_unwrapped(viewport: &mut Viewport, cursor_line: usize)
    ensures
        *final(viewport) == (Viewport {
            scroll: Scroll {
                top_line: window_start(
                    old(viewport).scroll.top_line as int,
                    old(viewport).height as int,
                    margin_of(SCROLL_MARGIN as int, old(viewport).height as int),
                    cursor_line as int,
                ) as usize,
                ..old(viewport).scroll
            },
            ..*old(viewport)
        }),
{
    let height = viewport.height as usize;
    let margin = margin_in(SCROLL_MARGIN, height);
    viewport.scroll.top_line = shifted(viewport.scroll.top_line, height, margin, cursor_line);
}

/// The place `n` visual rows above row `sub` of `line`, or the top.
pub open spec fn rows_above(rows: Seq<usize>, line: nat, sub: nat, n: nat) -> (nat, nat)
    decreases line, sub,
{
    if n == 0 {
        (line, sub)
    } else if sub > 0 {
        rows_above(rows, line, (sub - 1) as nat, (n - 1) as nat)
    } else if line > 0 {
        let r = rows[line - 1] as nat;
        if r > n {
            ((line - 1) as nat, (r - n) as nat)
        } else {
            rows_above(rows, (line - 1) as nat, 0, (n - r) as nat)
        }
    } else {
        (0, 0)
    }
}

/// The visual rows of the lines from `a` up to `b`.
pub open spec fn row_sum(rows: Seq<usize>, a: int, b: int) -> nat
    decreases b - a,
{
    if b <= a {
        0
    } else {
        row_sum(rows, a, b - 1) + rows[b - 1] as nat
    }
}

/// The visual rows that come before row `sub` of `line`.
pub open spec fn row_number(rows: Seq<usize>, place: (nat, nat)) -> nat {
    row_sum(rows, 0, place.0 as int) + place.1
}

/// Going up by `n` rows leads to the row that is `n` rows further up, or to the top.
pub proof fn law_rows_above(rows: Seq<usize>, line: nat, sub: nat, n: nat)
    ensures
        row_number(rows, rows_above(rows, line, sub, n)) == less(
            row_number(rows, (line, sub)) as int,
            n as int,
        ),
        rows_above(rows, line, sub, n).0 <= line,
    decreases line, sub,
{
    if n > 0 && sub > 0 {
        law_rows_above(rows, line, (sub - 1) as nat, (n - 1) as nat);
    } else if n > 0 && line > 0 {
        let r = rows[line - 1] as nat;
        if r <= n {
            law_rows_above(rows, (line - 1) as nat, 0, (n - r) as nat);
        }
    }
}

/// The visual rows from the top of the pane down to row `sub` of `line`.
pub open spec fn rows_down_to(rows: Seq<usize>, top: nat, skip: nat, line: nat, sub: nat) -> int {
    if line <= top {
        less(sub as int, skip as int)
    } else {
        less(rows[top as int] as int, skip as int) + row_sum(rows, top as int + 1, line as int) + sub
    }
}

/// The place is one that can be shown: its line has that row.
pub open spec fn is_place(rows: Seq<usize>, place: (nat, nat)) -> bool {
    place.0 < rows.len() && place.1 < rows[place.0 as int]
}

proof fn lemma_row_sum_split(rows: Seq<usize>, a: int, b: int, c: int)
    requires
        a <= b <= c,
    ensures
        row_sum(rows, a, c) == row_sum(rows, a, b) + row_sum(rows, b, c),
    decreases c - b,
{
    if b < c {
        lemma_row_sum_split(rows, a, b, c - 1);
    }
}

/// The top of a pane of `height` rows after scrolling to row `sub` of `line`, where lines
/// wrap.
pub open spec fn wrapped_top(
    rows: Seq<usize>,
    height: nat,
    top: (nat, nat),
    line: nat,
    sub: nat,
) -> (nat, nat) {
    let margin = margin_of(SCROLL_MARGIN as int, height as int);
    if height == 0 {
        top
    } else if line < top.0 || (line == top.0 && sub < top.1) {
        rows_above(rows, line, sub, margin as nat)
    } else if rows_down_to(rows, top.0, top.1, line, sub) >= height - margin {
        rows_above(rows, line, sub, (height - margin - 1) as nat)
    } else {
        top
    }
}

/// Where lines wrap, the cursor is in the pane after scrolling to it, and where the pane has
/// room for two margins and a row between them, it is a margin above the lower edge.
pub proof fn law_wrapped_cursor_shown(
    rows: Seq<usize>,
    height: nat,
    top: (nat, nat),
    line: nat,
    sub: nat,
)
    requires
        height > 0,
        is_place(rows, top),
        is_place(rows, (line, sub)),
    ensures
        ({
            let t = row_number(rows, wrapped_top(rows, height, top, line, sub));
            let at = row_number(rows, (line, sub));
            let margin = margin_of(SCROLL_MARGIN as int, height as int);
            &&& t <= at < t + height
            &&& 2 * margin < height ==> at < t + height - margin
        }),
{
    let margin = margin_of(SCROLL_MARGIN as int, height as int);
    law_rows_above(rows, line, sub, margin as nat);
    law_rows_above(rows, line, sub, (height - margin - 1) as nat);
    if line > top.0 {
        lemma_row_sum_split(rows, 0, top.0 as int, line as int);
        lemma_row_sum_split(rows, top.0 as int, top.0 as int + 1, line as int);
        assert(row_sum(rows, top.0 as int, top.0 as int + 1) == row_sum(
            rows,
            top.0 as int,
            top.0 as int,
        ) + rows[top.0 as int] as nat);
    }
}

/// Scrolls so that the top is `target_rows` visual rows above row `cursor_sub` of
/// `cursor_line`.
fn scroll_backward_from_cursor(
    viewport: &mut Viewport,
    rows: &Vec<usize>,
    cursor_line: usize,
    cursor_sub: usize,
    target_rows: usize,
)
    requires
        cursor_line < rows@.len(),
    ensures
        ({
            let at = rows_above(
                rows@,
                cursor_line as nat,
                cursor_sub as nat,
                target_rows as nat,
            );
            *final(viewport) == (Viewport {
                scroll: Scroll {
                    top_line: at.0 as usize,
                    top_row_offset: at.1 as usize,
                    ..old(viewport).scroll
                },
                ..*old(viewport)
            })
        }),
{
    let mut line: usize = cursor_line;
    let mut sub: usize = cursor_sub;
    let mut left: usize = target_rows;
    let ghost goal = rows_above(rows@, cursor_line as nat, cursor_sub as nat, target_rows as nat);
    while left > 0 && (sub > 0 || line > 0)
        invariant
            line < rows@.len(),
            goal == rows_above(rows@, line as nat, sub as nat, left as nat),
        decreases line, sub,
    {
        if sub > 0 {
            sub = sub - 1;
            left = left - 1;
        } else {
            line = line - 1;
            let r = rows[line];
            if r > left {
                sub = r - left;
                left = 0;
            } else {
                left = left - r;
            }
        }
    }
    viewport.scroll.top_line = line;
    viewport.scroll.top_row_offset = sub;
}

/// Whether the place of the cursor is at least `limit` visual rows below the top. The
/// cursor is not above the top.
fn is_below(
    rows: &Vec<usize>,
    top: usize,
    skip: usize,
    cursor_line: usize,
    cursor_sub: usize,
    limit: usize,
) -> (r: bool)
    requires
        top <= cursor_line < rows@.len(),
    ensures
        r == (rows_down_to(
            rows@,
            top as nat,
            skip as nat,
            cursor_line as nat,
            cursor_sub as nat,
        ) >= limit),
{
    if cursor_line == top {
        let d: usize = if cursor_sub < skip {
            0
        } else {
            cursor_sub - skip
        };
        return d >= limit;
    }
    let first: usize = if rows[top] < skip {
        0
    } else {
        rows[top] - skip
    };
    if first >= limit {
        return true;
    }
    let mut shown: usize = first;
    let mut line: usize = top + 1;
    while line < cursor_line
        invariant
            top < line <= cursor_line < rows@.len(),
            shown == less(rows@[top as int] as int, skip as int) + row_sum(
                rows@,
                top + 1,
                line as int,
            ),
            shown < limit,
        decreases cursor_line - line,
    {
        if rows[line] >= limit - shown {
            proof {
                lemma_row_sum_split(rows@, top + 1, line + 1, cursor_line as int);
            }
            return true;
        }
        shown = shown + rows[line];
        line = line + 1;
    }
    cursor_sub >= limit - shown
}

fn ensure_cursor_visible_wrapped(
    viewport: &mut Viewport,
    rows: &Vec<usize>,
    cursor_line: usize,
    cursor_sub: usize,
)
    requires
        cursor_line < rows@.len(),
    ensures
        ({
            let at = wrapped_top(
                rows@,
                old(viewport).height as nat,
                (
                    old(viewport).scroll.top_line as nat,
                    old(viewport).scroll.top_row_offset as nat,
                ),
                cursor_line as nat,
                cursor_sub as nat,
            );
            *final(viewport) == (Viewport {
                scroll: Scroll {
                    top_line: at.0 as usize,
                    top_row_offset: at.1 as usize,
                    ..old(viewport).scroll
                },
                ..*old(viewport)
            })
        }),
{
    let height = viewport.height as usize;
    if height == 0 {
        return;
    }
    let margin = margin_in(SCROLL_MARGIN, height);
    let top = viewport.scroll.top_line;
    let skip = viewport.scroll.top_row_offset;
    if cursor_line < top || (cursor_line == top && cursor_sub < skip) {
        scroll_backward_from_cursor(viewport, rows, cursor_line, cursor_sub, margin);
        return;
    }
    if is_below(rows, top, skip, cursor_line, cursor_sub, height - margin) {
        scroll_backward_from_cursor(
            viewport,
            rows,
            cursor_line,
            cursor_sub,
            height - margin - 1,
        );
    }
}

/// Scrolls up or down as far as is needed for the cursor to be shown, with a margin where
/// there is room for one. `rows` are the visual rows of the lines, and `cursor_sub` is the
/// row of its line that the cursor is in; both only matter where lines wrap.
pub fn ensure_cursor_visible(
    viewport: &mut Viewport,
    text: &Text,
    cursor_char: usize,
    wrap_mode: &WrapMode,
    rows: &Vec<usize>,
    cursor_sub: usize,
)
    requires
        cursor_char <= text@.len(),
        wrap_mode.wraps() ==> rows@.len() == newlines(text@) + 1,
    ensures
        ({
            let line = newlines(text@.take(cursor_char as int));
            let top = if wrap_mode.wraps() {
                wrapped_top(
                    rows@,
                    old(viewport).height as nat,
                    (
                        old(viewport).scroll.top_line as nat,
                        old(viewport).scroll.top_row_offset as nat,
                    ),
                    line,
                    cursor_sub as nat,
                )
            } else {
                (
                    window_start(
                        old(viewport).scroll.top_line as int,
                        old(viewport).height as int,
                        margin_of(SCROLL_MARGIN as int, old(viewport).height as int),
                        line as int,
                    ) as nat,
                    old(viewport).scroll.top_row_offset as nat,
                )
            };
            *final(viewport) == (Viewport {
                scroll: Scroll {
                    top_line: top.0 as usize,
                    top_row_offset: top.1 as usize,
                    ..old(viewport).scroll
                },
                ..*old(viewport)
            })
        }),
{
    let cursor_line = text.char_to_line(cursor_char);
    proof {
        crate::text::lemma_newlines_take(text@, cursor_char as int);
    }
    if wrap_mode.is_wrapping() {
        ensure_cursor_visible_wrapped(viewport, rows, cursor_line, cursor_sub);
    } else {
        ensure_cursor_visible_unwrapped(viewport, cursor_line);
    }
}

/// Scrolls to the side as far as is needed for the cursor's column to be shown. Where lines
/// wrap, there is nothing to the side.
pub fn ensure_cursor_visible_horizontal(
    viewport: &mut Viewport,
    wrap_mode: &WrapMode,
    cursor_col: usize,
)
    ensures
        *final(viewport) == (Viewport {
            scroll: Scroll {
                horizontal_offset: if wrap_mode.wraps() {
                    0
                } else if old(viewport).width == 0 {
                    old(viewport).scroll.horizontal_offset
                } else {
                    window_start(
                        old(viewport).scroll.horizontal_offset as int,
                        old(viewport).width as int,
                        margin_of(SCROLL_MARGIN_H as int, old(viewport).width as int),
                        cursor_col as int,
                    ) as usize
                },
                ..old(viewport).scroll
            },
            ..*old(viewport)
        }),
{
    if wrap_mode.is_wrapping() {
        viewport.scroll.horizontal_offset = 0;
        return;
    }
    let width = viewport.width as usize;
    if width == 0 {
        return;
    }
    let margin = margin_in(SCROLL_MARGIN_H, width);
    viewport.scroll.horizontal_offset = shifted(
        viewport.scroll.horizontal_offset,
        width,
        margin,
        cursor_col,
    );
}

/// A window moves only where it has to: it stays where what is asked for is a margin away from
/// both edges already. Else it moves by the least distance that brings it there: every start
/// that shows `at` a margin inside is at least as far away, and where none is, at the top, the
/// window starts at the top.
pub proof fn law_window_moves_least(start: int, size: int, margin: int, at: int, other: int)
    requires
        start >= 0,
        at >= 0,
        margin >= 0,
        2 * margin < size,
        other >= 0,
    ensures
        ({
            let s = window_start(start, size, margin, at);
            let far = if s < start {
                start - s
            } else {
                s - start
            };
            let other_far = if other < start {
                start - other
            } else {
                other - start
            };
            &&& start + margin <= at < start + size - margin ==> s == start
            &&& other + margin <= at < other + size - margin ==> far <= other_far
            &&& at >= margin ==> s + margin <= at < s + size - margin
            &&& at < margin ==> s == 0
        }),
{
}

/// The margins are three rows and five columns. In a pane that has no room for two of them there
/// is as much margin as half of the pane.
pub proof fn law_margins(height: int, width: int)
    requires
        height >= 0,
        width >= 0,
    ensures
        height >= 6 ==> margin_of(SCROLL_MARGIN as int, height) == 3,
        width >= 10 ==> margin_of(SCROLL_MARGIN_H as int, width) == 5,
        height < 6 ==> margin_of(SCROLL_MARGIN as int, height) == height / 2,
        width < 10 ==> margin_of(SCROLL_MARGIN_H as int, width) == width / 2,
{
}

/// Scrolling to what the window was scrolled to changes nothing more.
pub proof fn law_window_settles(start: int, size: int, most: int, at: int)
    requires
        start >= 0,
        size > 0,
        most >= 0,
        at >= 0,
        2 * margin_of(most, size) < size,
    ensures
        ({
            let margin = margin_of(most, size);
            let s = window_start(start, size, margin, at);
            window_start(s, size, margin, at) == s
        }),
{
}

/// Where lines wrap, a pane does not scroll as long as the cursor is in it and a margin above its
/// lower edge. Where it scrolls up, the cursor is a margin below the top, or the top is the
/// first row; where it scrolls down, the cursor is a margin above the lower edge.
pub proof fn law_wrapped_scrolls_least(
    rows: Seq<usize>,
    height: nat,
    top: (nat, nat),
    line: nat,
    sub: nat,
)
    requires
        height > 0,
        is_place(rows, top),
        is_place(rows, (line, sub)),
    ensures
        ({
            let new = wrapped_top(rows, height, top, line, sub);
            let t = row_number(rows, top);
            let s = row_number(rows, new);
            let at = row_number(rows, (line, sub));
            let margin: int = if height >= 6 {
                3
            } else {
                height as int / 2
            };
            &&& t <= at < t + height - margin ==> new == top
            &&& at < t ==> (if at < margin {
                s == 0
            } else {
                s == at - margin
            })
            &&& at >= t + height - margin ==> (if at < height - margin - 1 {
                s == 0
            } else {
                s == at - (height - margin - 1)
            })
        }),
{
    let margin = margin_of(SCROLL_MARGIN as int, height as int);
    law_rows_above(rows, line, sub, margin as nat);
    law_rows_above(rows, line, sub, (height - margin - 1) as nat);
    let t0 = top.0 as int;
    if line > t0 {
        lemma_row_sum_split(rows, 0, t0, line as int);
        lemma_row_sum_split(rows, t0, t0 + 1, line as int);
        assert(row_sum(rows, t0, t0 + 1) == row_sum(rows, t0, t0) + rows[t0] as nat);
    } else if line < t0 {
        lemma_row_sum_split(rows, 0, line as int, t0);
        lemma_row_sum_split(rows, line as int, line as int + 1, t0);
        assert(row_sum(rows, line as int, line as int + 1) == row_sum(rows, line as int, line as int)
            + rows[line as int] as nat);
    }
}

/// The rows of a run of lines are those of its first line and those of the rest; a run without
/// lines has none.
pub proof fn law_rows_add_up(rows: Seq<usize>, a: int, b: int)
    requires
        a <= b,
    ensures
        row_sum(rows, a, a) == 0,
        row_sum(rows, a, b + 1) == row_sum(rows, a, b) + rows[b],
        a < b ==> row_sum(rows, a, b) == rows[a] + row_sum(rows, a + 1, b),
{
    if a < b {
        lemma_row_sum_split(rows, a, a + 1, b);
        assert(row_sum(rows, a, a + 1) == row_sum(rows, a, a) + rows[a] as nat);
    }
}

} // verus!

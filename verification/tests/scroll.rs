use hume_editor::buffer::WrapMode;
use hume_editor::mouse::{
    handle_mouse, scroll_viewport_down, scroll_viewport_up, MouseAction, MouseEvent,
};
use hume_editor::pane_state::{Scroll, Viewport};
use hume_editor::scroll::{ensure_cursor_visible, ensure_cursor_visible_horizontal};
use hume_editor::text::Text;

fn viewport(top: usize, height: u16, width: u16) -> Viewport {
    Viewport {
        scroll: Scroll { top_line: top, top_row_offset: 0, horizontal_offset: 0 },
        width,
        height,
    }
}

// ── ensure_cursor_visible (no-wrap) ───────────────────────────────────────────

#[test]
fn no_wrap_cursor_visible_no_scroll_needed() {
    let r = Text::from("a\nb\nc\nd\ne\n");
    let mut v = viewport(0, 10, 80);
    ensure_cursor_visible(&mut v, &r, r.line_to_char(2), &WrapMode::Off, &vec![], 0);
    assert_eq!(v.scroll.top_line, 0);
}

#[test]
fn no_wrap_cursor_below_viewport_scrolls_down() {
    let r = Text::from("a\nb\nc\nd\ne\nf\ng\nh\n");
    let mut v = viewport(0, 5, 80);
    ensure_cursor_visible(&mut v, &r, r.line_to_char(7), &WrapMode::Off, &vec![], 0);
    let cursor_line = 7usize;
    assert!(cursor_line >= v.scroll.top_line);
    assert!(cursor_line < v.scroll.top_line + v.height as usize);
    assert_eq!(v.scroll.top_line, 5);
}

#[test]
fn no_wrap_cursor_above_viewport_scrolls_up() {
    let r = Text::from("a\nb\nc\nd\ne\nf\ng\nh\n");
    let mut v = viewport(5, 5, 80);
    ensure_cursor_visible(&mut v, &r, r.line_to_char(1), &WrapMode::Off, &vec![], 0);
    let cursor_line = 1usize;
    assert!(cursor_line >= v.scroll.top_line);
    assert!(cursor_line < v.scroll.top_line + v.height as usize);
    assert_eq!(v.scroll.top_line, 0);
}

// ── ensure_cursor_visible (wrap) ──────────────────────────────────────────────

const WRAP: WrapMode = WrapMode::Indent { width: 4 };

#[test]
fn wrapped_cursor_below_scrolls_by_rows() {
    // Four lines of three rows each; the pane has six rows.
    let r = Text::from("a\nb\nc\nd\n");
    let rows = vec![3, 3, 3, 3, 1];
    let mut v = viewport(0, 6, 80);
    ensure_cursor_visible(&mut v, &r, r.line_to_char(2), &WRAP, &rows, 1);
    // Row seven has to be two rows above the bottom margin of three.
    assert_eq!((v.scroll.top_line, v.scroll.top_row_offset), (1, 2));
}

#[test]
fn wrapped_cursor_above_scrolls_up_with_margin() {
    let r = Text::from("a\nb\nc\nd\n");
    let rows = vec![3, 3, 3, 3, 1];
    let mut v = viewport(3, 6, 80);
    ensure_cursor_visible(&mut v, &r, r.line_to_char(2), &WRAP, &rows, 1);
    assert_eq!((v.scroll.top_line, v.scroll.top_row_offset), (1, 1));
}

#[test]
fn wrapped_cursor_in_view_stays() {
    let r = Text::from("a\nb\nc\nd\n");
    let rows = vec![3, 3, 3, 3, 1];
    let mut v = viewport(1, 8, 80);
    ensure_cursor_visible(&mut v, &r, r.line_to_char(2), &WRAP, &rows, 1);
    assert_eq!((v.scroll.top_line, v.scroll.top_row_offset), (1, 0));
}

// ── horizontal ────────────────────────────────────────────────────────────────

#[test]
fn cursor_past_the_right_edge_scrolls_sideways() {
    let mut v = viewport(0, 10, 20);
    ensure_cursor_visible_horizontal(&mut v, &WrapMode::Off, 30);
    assert_eq!(v.scroll.horizontal_offset, 16);
    ensure_cursor_visible_horizontal(&mut v, &WrapMode::Off, 10);
    assert_eq!(v.scroll.horizontal_offset, 5);
    ensure_cursor_visible_horizontal(&mut v, &WRAP, 10);
    assert_eq!(v.scroll.horizontal_offset, 0);
}

// ── the wheel ─────────────────────────────────────────────────────────────────

#[test]
fn wheel_scrolls_three_lines() {
    let mut v = viewport(5, 10, 80);
    scroll_viewport_up(&mut v, &WrapMode::Off, &vec![]);
    assert_eq!(v.scroll.top_line, 2);
    scroll_viewport_up(&mut v, &WrapMode::Off, &vec![]);
    assert_eq!(v.scroll.top_line, 0);
    scroll_viewport_down(&mut v, &WrapMode::Off, &vec![], 15);
    assert_eq!(v.scroll.top_line, 3);
    scroll_viewport_down(&mut v, &WrapMode::Off, &vec![], 15);
    assert_eq!(v.scroll.top_line, 4);
}

#[test]
fn wheel_scrolls_three_rows_where_lines_wrap() {
    let rows = vec![2, 2, 2, 2, 1];
    let mut v = viewport(0, 3, 80);
    scroll_viewport_down(&mut v, &WRAP, &rows, 5);
    assert_eq!((v.scroll.top_line, v.scroll.top_row_offset), (1, 1));
    scroll_viewport_up(&mut v, &WRAP, &rows);
    assert_eq!((v.scroll.top_line, v.scroll.top_row_offset), (0, 0));
    // All rows fit: nothing to scroll.
    let mut v = viewport(0, 8, 80);
    scroll_viewport_down(&mut v, &WRAP, &rows, 5);
    assert_eq!((v.scroll.top_line, v.scroll.top_row_offset), (0, 0));
}

#[test]
fn cursors_follow_the_wheel_only_where_the_pane_moved() {
    let mut anchor = Some(3);
    let mut v = viewport(0, 10, 80);
    let none = vec![];
    let a = handle_mouse(MouseEvent::ScrollUp, &mut anchor, &mut v, &WrapMode::Off, &none, 30);
    assert_eq!(a, MouseAction::Nothing);
    let a = handle_mouse(MouseEvent::ScrollDown, &mut anchor, &mut v, &WrapMode::Off, &none, 30);
    assert_eq!(a, MouseAction::MoveDown { rows: 3 });
    let a = handle_mouse(MouseEvent::ScrollUp, &mut anchor, &mut v, &WrapMode::Off, &none, 30);
    assert_eq!(a, MouseAction::MoveUp { rows: 3 });
    let drag = MouseEvent::LeftDrag { column: 1, row: 2 };
    let a = handle_mouse(drag, &mut anchor, &mut v, &WrapMode::Off, &none, 30);
    assert_eq!(a, MouseAction::Drag { column: 1, row: 2 });
    handle_mouse(MouseEvent::LeftUp, &mut anchor, &mut v, &WrapMode::Off, &none, 30);
    assert_eq!(anchor, None);
    let a = handle_mouse(drag, &mut anchor, &mut v, &WrapMode::Off, &none, 30);
    assert_eq!(a, MouseAction::Nothing);
    // The status line is not part of the pane.
    let click = MouseEvent::LeftDown { column: 1, row: 10 };
    let a = handle_mouse(click, &mut anchor, &mut v, &WrapMode::Off, &none, 30);
    assert_eq!(a, MouseAction::Nothing);
}

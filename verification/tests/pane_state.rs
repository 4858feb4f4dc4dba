use hume_editor::buffer::Buffer;
use hume_editor::buffer_store::BufferId;
use hume_editor::pane_state::{
    fresh_from_buf, JumpEntry, JumpList, PaneBufferState, PaneTransient,
};
use hume_editor::selection::{Selection, SelectionSet};

#[test]
fn pane_buffer_state_default_is_valid() {
    let state = PaneBufferState::default();
    assert_eq!(state.selections.primary(), Selection::collapsed(0));
    assert!(state.edit_group.is_none());
    assert!(state.paste_group.is_none());
    assert!(state.search_cursor.match_count.is_none());
}

#[test]
fn pane_transient_default_is_empty() {
    let t = PaneTransient::default();
    assert!(t.pre_search_sels.is_none());
    assert!(t.pre_select_sels.is_none());
    assert!(!t.search_extend);
}

#[test]
fn fresh_from_buf_seeds_initial_sels() {
    let buf = Buffer::scratch();
    let expected = buf.initial_sels();
    let state = fresh_from_buf(&buf);
    assert_eq!(state.selections, expected);
    assert!(state.edit_group.is_none());
    assert!(state.paste_group.is_none());
    assert!(state.search_cursor.match_count.is_none());
}

fn entry(pos: usize, b: u64) -> JumpEntry {
    JumpEntry {
        selections: SelectionSet::single(Selection::collapsed(pos)),
        buffer: BufferId(b),
    }
}

#[test]
fn jump_list_goes_back_and_forth() {
    let mut list = JumpList::new(10);
    list.push(entry(1, 7));
    list.push(entry(2, 7));
    let back = list.backward(entry(3, 7)).unwrap();
    assert_eq!(back.selections.primary().head, 2);
    let back = list.backward(entry(2, 7)).unwrap();
    assert_eq!(back.selections.primary().head, 1);
    assert!(list.backward(entry(1, 7)).is_none());
    let ahead = list.forward().unwrap();
    assert_eq!(ahead.selections.primary().head, 2);
    let ahead = list.forward().unwrap();
    assert_eq!(ahead.selections.primary().head, 3);
    assert!(list.forward().is_none());
}

#[test]
fn pruned_buffers_leave_the_jump_list() {
    let mut list = JumpList::new(10);
    list.push(entry(1, 7));
    list.push(entry(2, 8));
    list.push(entry(3, 7));
    list.prune_buffer(BufferId(7));
    let back = list.backward(entry(9, 8)).unwrap();
    assert_eq!(back.buffer, BufferId(8));
    assert!(list.backward(entry(2, 8)).is_none());
}

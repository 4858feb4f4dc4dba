use hume_editor::buffer::Buffer;
use hume_editor::buffer_store::{BufferId, BufferStore};
use hume_editor::paths::{FilePath, Separators};
use hume_editor::selection::SelectionSet;
use hume_editor::slots::IdPool;
use hume_editor::text::Text;

const SLASH: Separators = Separators::Slash;

fn at(path: &str) -> FilePath {
    FilePath::new(path.to_string(), SLASH)
}

fn make_id(ids: &mut IdPool) -> BufferId {
    BufferId(ids.insert())
}

fn make_buf() -> Buffer {
    Buffer::new(Text::from("hello\n"), SelectionSet::default())
}

#[test]
fn open_and_get() {
    let (mut store, mut ids) = (BufferStore::new(), IdPool::new());
    let id = make_id(&mut ids);
    store.open(id, make_buf());
    assert_eq!(store.get(id).text().to_string(), "hello\n");
    assert_eq!(store.len(), 1);
}

#[test]
fn close_returns_mru_replacement() {
    let (mut store, mut ids) = (BufferStore::new(), IdPool::new());
    let a = make_id(&mut ids);
    let b = make_id(&mut ids);
    store.open(a, make_buf());
    store.open(b, make_buf());
    // b is MRU tail (most recent). closing b should suggest a.
    let replacement = store.close(b);
    assert_eq!(replacement, Some(a));
    assert_eq!(store.len(), 1);
}

#[test]
fn close_last_returns_none() {
    let (mut store, mut ids) = (BufferStore::new(), IdPool::new());
    let a = make_id(&mut ids);
    store.open(a, make_buf());
    assert_eq!(store.close(a), None);
}

#[test]
fn next_and_prev_wrap() {
    let (mut store, mut ids) = (BufferStore::new(), IdPool::new());
    let a = make_id(&mut ids);
    let b = make_id(&mut ids);
    let c = make_id(&mut ids);
    store.open(a, make_buf());
    store.open(b, make_buf());
    store.open(c, make_buf());
    assert_eq!(store.next(c), a, "next wraps to start");
    assert_eq!(store.prev(a), c, "prev wraps to end");
    assert_eq!(store.next(a), b);
    assert_eq!(store.prev(c), b);
}

#[test]
fn find_by_path_dedup() {
    let (mut store, mut ids) = (BufferStore::new(), IdPool::new());
    let id = make_id(&mut ids);
    let mut buf = make_buf();
    buf.path = Some(at("/tmp/foo.txt"));
    store.open(id, buf);
    assert_eq!(store.find_by_path("/tmp/foo.txt"), Some(id));
    assert_eq!(store.find_by_path("/tmp/bar.txt"), None);
}

#[test]
fn touch_mru_promotes_to_tail() {
    let (mut store, mut ids) = (BufferStore::new(), IdPool::new());
    let a = make_id(&mut ids);
    let b = make_id(&mut ids);
    store.open(a, make_buf());
    store.open(b, make_buf());
    // b is MRU tail. Touch a to make it most recent.
    store.touch_mru(a);
    assert_eq!(store.mru_excluding(a), Some(b));
}

#[test]
fn ids_are_given_out_again_with_another_version() {
    let mut ids = IdPool::new();
    let a = ids.insert();
    let b = ids.insert();
    assert_ne!(a, b);
    ids.remove(a);
    let c = ids.insert();
    assert_ne!(c, a);
    assert_eq!(c % 0x1_0000_0000, a % 0x1_0000_0000);
}

#[test]
fn unknown_ids_are_not_open() {
    let (mut store, mut ids) = (BufferStore::new(), IdPool::new());
    let a = make_id(&mut ids);
    store.open(a, make_buf());
    assert!(store.try_get(a).is_some());
    assert!(store.try_get(BufferId(0)).is_none());
    assert!(store.try_get(BufferId(0x1_ffff_ffff)).is_none());
    assert_eq!(store.ids(), vec![a]);
}

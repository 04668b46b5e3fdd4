use clipboard_manager::models::{compute_hash, ClipboardContent, ClipboardItem};
use clipboard_manager::storage::{copy_items, Storage};

fn entry(name: &str, pinned: bool) -> ClipboardItem {
    let mut item = ClipboardItem::with_stamp(
        ClipboardContent::Text(name.to_string()),
        String::from("09:08:07"),
        name.to_string(),
    );
    item.pinned = pinned;
    item
}

#[test]
fn new_mailbox_is_empty() {
    let mut storage = Storage::new();
    assert!(storage.take_pending().is_none());
}

#[test]
fn saved_snapshot_can_be_taken_once() {
    let mut storage = Storage::new();
    let items = vec![entry("a", true), entry("b", false)];
    storage.save_items_async(&items);
    let snapshot = storage.take_pending().unwrap();
    assert_eq!(snapshot.len(), 2);
    assert_eq!(snapshot[0].id, "a");
    assert!(snapshot[0].pinned);
    assert_eq!(snapshot[1].id, "b");
    assert!(!snapshot[1].pinned);
    assert_eq!(snapshot[0].content_hash, items[0].content_hash);
    assert!(storage.take_pending().is_none());
}

#[test]
fn later_snapshot_replaces_the_waiting_one() {
    let mut storage = Storage::new();
    storage.save_items_async(&[entry("first", false)]);
    storage.save_items_async(&[entry("second", false), entry("third", false)]);
    storage.save_items_async(&[entry("last", false)]);
    let snapshot = storage.take_pending().unwrap();
    assert_eq!(snapshot.len(), 1);
    assert_eq!(snapshot[0].id, "last");
    assert!(storage.take_pending().is_none());
}

#[test]
fn empty_snapshot_is_still_a_snapshot() {
    let mut storage = Storage::new();
    storage.save_items_async(&[entry("first", false)]);
    storage.save_items_async(&[]);
    let snapshot = storage.take_pending().unwrap();
    assert!(snapshot.is_empty());
}

#[test]
fn load_without_decoded_list_is_empty() {
    let storage = Storage::new();
    assert!(storage.load_items(None).is_empty());
}

#[test]
fn load_recomputes_every_fingerprint() {
    let storage = Storage::new();
    let mut first = entry("a", true);
    let mut second = entry("b", false);
    first.content_hash = 0;
    second.content_hash = 12345;
    let loaded = storage.load_items(Some(vec![first, second]));
    assert_eq!(loaded.len(), 2);
    assert_eq!(loaded[0].id, "a");
    assert!(loaded[0].pinned);
    assert_eq!(loaded[0].timestamp, "09:08:07");
    assert_eq!(
        loaded[0].content_hash,
        compute_hash(&ClipboardContent::Text(String::from("a")))
    );
    assert_eq!(loaded[1].id, "b");
    assert!(!loaded[1].pinned);
    assert_eq!(
        loaded[1].content_hash,
        compute_hash(&ClipboardContent::Text(String::from("b")))
    );
}

#[test]
fn load_keeps_the_order_it_was_given() {
    let storage = Storage::new();
    let loaded = storage.load_items(Some(vec![entry("u", false), entry("p", true)]));
    assert_eq!(loaded[0].id, "u");
    assert_eq!(loaded[1].id, "p");
}

#[test]
fn save_then_load_gives_the_list_back() {
    let mut storage = Storage::new();
    let items = vec![entry("a", true), entry("b", false), entry("c", false)];
    storage.save_items_async(&items);
    let written = storage.take_pending().unwrap();
    let decoded: Vec<ClipboardItem> = written
        .into_iter()
        .map(|item| ClipboardItem { content_hash: 0, ..item })
        .collect();
    let loaded = storage.load_items(Some(decoded));
    assert_eq!(loaded.len(), items.len());
    for (back, wanted) in loaded.iter().zip(items.iter()) {
        assert_eq!(back.content, wanted.content);
        assert_eq!(back.timestamp, wanted.timestamp);
        assert_eq!(back.pinned, wanted.pinned);
        assert_eq!(back.id, wanted.id);
        assert_eq!(back.content_hash, wanted.content_hash);
    }
}

#[test]
fn copy_items_copies_every_field() {
    let items = vec![entry("a", true), entry("b", false)];
    let copy = copy_items(&items);
    assert_eq!(copy.len(), 2);
    for (back, wanted) in copy.iter().zip(items.iter()) {
        assert_eq!(back.content, wanted.content);
        assert_eq!(back.timestamp, wanted.timestamp);
        assert_eq!(back.pinned, wanted.pinned);
        assert_eq!(back.id, wanted.id);
        assert_eq!(back.content_hash, wanted.content_hash);
    }
}

use copycat::hash::fnv1a;
use copycat::history::{ext_for, payload_file_name, ClipItem, HistoryStore, ItemKind, PayloadWrite};
use copycat::png::{image_from_png, RgbaImage};

const WRITTEN: PayloadWrite = PayloadWrite::Written { size_on_disk: None };

fn ids(store: &HistoryStore) -> Vec<u64> {
    store.items().iter().map(|it| it.id).collect()
}

/// Adds a text whose payload file is written, as the watcher does.
fn add(store: &mut HistoryStore, text: &str) -> Option<u64> {
    let pending = store.add_text(text, fnv1a(text.as_bytes()), 1000)?;
    store.finish_add(pending, WRITTEN)
}

#[test]
fn new_store_is_empty_and_starts_at_one() {
    let store = HistoryStore::new();
    assert!(store.items().is_empty());
    assert_eq!(store.next_id(), 1);
}

#[test]
fn from_index_reads_zero_next_id_as_one() {
    assert_eq!(HistoryStore::from_index(0, Vec::new()).next_id(), 1);
    assert_eq!(HistoryStore::from_index(7, Vec::new()).next_id(), 7);
}

#[test]
fn add_text_puts_entry_in_front() {
    let mut store = HistoryStore::new();
    assert_eq!(add(&mut store, "first"), Some(1));
    assert_eq!(add(&mut store, "second"), Some(2));
    assert_eq!(ids(&store), vec![2, 1]);
    let it = &store.items()[0];
    assert_eq!(it.kind, ItemKind::Text);
    assert_eq!(it.snippet.as_deref(), Some("second"));
    assert_eq!(it.size_bytes, 6);
    assert_eq!(it.timestamp, 1000);
    assert_eq!(it.hash, fnv1a(b"second"));
    assert!(it.image_dims.is_none());
    assert!(!it.pinned);
}

#[test]
fn add_text_hands_out_utf8_bytes_and_id() {
    let mut store = HistoryStore::new();
    let pending = store.add_text("привет", 42, 5).unwrap();
    assert_eq!(pending.id(), 1);
    assert_eq!(pending.kind(), ItemKind::Text);
    assert_eq!(pending.payload(), "привет".as_bytes());
    // Nothing is in the history until the payload file is settled.
    assert!(store.items().is_empty());
    assert_eq!(store.next_id(), 2);
    assert_eq!(store.finish_add(pending, PayloadWrite::Written { size_on_disk: Some(1) }), Some(1));
    // Text size is the UTF-8 length, whatever the file reports.
    assert_eq!(store.items()[0].size_bytes, 12);
}

#[test]
fn add_text_rejects_empty_and_duplicates() {
    let mut store = HistoryStore::new();
    // Rejected: nothing to write, and the id is not used up.
    assert!(store.add_text("", 1, 0).is_none());
    assert_eq!(store.next_id(), 1);
    assert_eq!(add(&mut store, "a"), Some(1));
    assert!(store.add_text("a", fnv1a(b"a"), 0).is_none());
    assert_eq!(ids(&store), vec![1]);
    assert_eq!(store.next_id(), 2);
}

#[test]
fn failed_write_uses_up_the_id() {
    let mut store = HistoryStore::new();
    let pending = store.add_text("x", 1, 0).unwrap();
    assert_eq!(store.finish_add(pending, PayloadWrite::Failed), None);
    assert!(store.items().is_empty());
    assert_eq!(store.next_id(), 2);
    let pending = store.add_text("x", 1, 0).unwrap();
    assert_eq!(store.finish_add(pending, WRITTEN), Some(2));
}

#[test]
fn snippet_keeps_two_hundred_chars() {
    let mut store = HistoryStore::new();
    let long: String = "ж".repeat(250);
    let pending = store.add_text(&long, 9, 0).unwrap();
    store.finish_add(pending, WRITTEN);
    let snippet = store.items()[0].snippet.clone().unwrap();
    assert_eq!(snippet.chars().count(), 200);
    assert_eq!(store.items()[0].size_bytes, 500);
}

#[test]
fn get_finds_added_entry() {
    let mut store = HistoryStore::new();
    add(&mut store, "one");
    add(&mut store, "two");
    assert_eq!(store.get(1).and_then(|it| it.snippet.clone()).as_deref(), Some("one"));
    assert!(store.get(3).is_none());
}

#[test]
fn delete_removes_and_returns_entry() {
    let mut store = HistoryStore::new();
    add(&mut store, "one");
    add(&mut store, "two");
    add(&mut store, "three");
    let removed = store.delete(2).unwrap();
    assert_eq!(removed.id, 2);
    assert_eq!(ids(&store), vec![3, 1]);
    assert!(store.get(2).is_none());
    assert!(store.delete(2).is_none());
    assert_eq!(ids(&store), vec![3, 1]);
}

#[test]
fn trim_drops_oldest_first() {
    let mut store = HistoryStore::new();
    for t in ["a", "b", "c", "d"] {
        add(&mut store, t);
    }
    let removed: Vec<u64> = store.trim_to(2).iter().map(|it| it.id).collect();
    assert_eq!(removed, vec![1, 2]);
    assert_eq!(ids(&store), vec![4, 3]);
    assert!(store.trim_to(5).is_empty());
    assert_eq!(ids(&store), vec![4, 3]);
}

#[test]
fn trim_keeps_pinned_entries_outside_the_limit() {
    let mut store = HistoryStore::new();
    for t in ["a", "b", "c", "d"] {
        add(&mut store, t);
    }
    assert!(store.set_pinned(1, true));
    assert!(!store.set_pinned(9, true));
    let removed: Vec<u64> = store.trim_to(1).iter().map(|it| it.id).collect();
    assert_eq!(removed, vec![2, 3]);
    assert_eq!(ids(&store), vec![4, 1]);
    assert!(store.items()[1].pinned);
}

#[test]
fn trim_to_zero_keeps_only_pinned() {
    let mut store = HistoryStore::new();
    add(&mut store, "a");
    add(&mut store, "b");
    store.set_pinned(2, true);
    store.trim_to(0);
    assert_eq!(ids(&store), vec![2]);
}

#[test]
fn payload_file_names() {
    assert_eq!(payload_file_name(1, ItemKind::Text), "0000000001.txt");
    assert_eq!(payload_file_name(1234567890, ItemKind::Image), "1234567890.png");
    assert_eq!(payload_file_name(12345678901, ItemKind::Text), "12345678901.txt");
    assert_eq!(ext_for(ItemKind::Text), "txt");
    assert_eq!(ext_for(ItemKind::Image), "png");
}

fn red_square() -> RgbaImage {
    let mut bytes = Vec::new();
    for _ in 0..4 {
        bytes.extend_from_slice(&[255, 0, 0, 255]);
    }
    RgbaImage { width: 2, height: 2, bytes }
}

#[test]
fn add_image_hands_out_png_and_round_trips() {
    let mut store = HistoryStore::new();
    let img = red_square();
    let pending = store.add_image(&img, fnv1a(&img.bytes), 7).unwrap();
    assert_eq!(pending.id(), 1);
    assert_eq!(pending.kind(), ItemKind::Image);
    let png = pending.payload().to_vec();
    // The payload is a PNG file, not the raw pixels.
    assert_eq!(&png[1..4], b"PNG");
    assert_eq!(store.finish_add(pending, WRITTEN), Some(1));
    let it: &ClipItem = &store.items()[0];
    assert_eq!(it.kind, ItemKind::Image);
    assert_eq!(it.image_dims, Some((2, 2)));
    assert_eq!(it.size_bytes, png.len() as u64);
    assert!(it.snippet.is_none());
    let back = image_from_png(&png).unwrap();
    assert_eq!((back.width, back.height), (2, 2));
    assert_eq!(back.bytes, img.bytes);
}

#[test]
fn add_image_uses_size_on_disk_when_known() {
    let mut store = HistoryStore::new();
    let img = red_square();
    let pending = store.add_image(&img, 3, 0).unwrap();
    store.finish_add(pending, PayloadWrite::Written { size_on_disk: Some(999) });
    assert_eq!(store.items()[0].size_bytes, 999);
}

#[test]
fn add_image_rejects_empty_and_duplicates() {
    let mut store = HistoryStore::new();
    let empty = RgbaImage { width: 0, height: 3, bytes: Vec::new() };
    assert!(store.add_image(&empty, 1, 0).is_none());
    assert_eq!(store.next_id(), 1);
    let img = red_square();
    let pending = store.add_image(&img, 5, 0).unwrap();
    assert_eq!(store.finish_add(pending, WRITTEN), Some(1));
    assert!(store.add_image(&img, 5, 0).is_none());
    // A text with the same hash is a duplicate too.
    assert!(store.add_text("other", 5, 0).is_none());
    assert_eq!(store.next_id(), 2);
    assert_eq!(ids(&store), vec![1]);
}

#[test]
fn image_from_png_rejects_garbage() {
    assert!(image_from_png(b"not a png").is_none());
}

use copycat::settings::{clamp_max_items, AppSettings, Theme};
use copycat::listing::{count_label, delete_checked_label, kind_label, preview_title, row_title, short_title, Selection};
use copycat::history::{ClipItem, ItemKind};
use copycat::hotkey::HotkeyState;
use global_hotkey::hotkey::HotKey;
use std::str::FromStr;
use copycat::paste::{cursor_from_query, cursor_pos, foreground_window, paste_plan, restore_and_paste, KeyStroke, VK_CONTROL, VK_V};
use copycat::autostart::{is_enabled, run_command};
use copycat::capture::{
    next_read, note_image, note_text, poll_interval_ms, record, remember_copied_image, remember_copied_text, CaptureKinds,
};
use copycat::history::{HistoryStore, PayloadWrite};
use copycat::hash::fnv1a;
use copycat::png::RgbaImage;

fn text_item(id: u64, snippet: &str) -> ClipItem {
    ClipItem {
        id,
        kind: ItemKind::Text,
        timestamp: 0,
        size_bytes: snippet.len() as u64,
        hash: id,
        snippet: Some(snippet.to_string()),
        image_dims: None,
        pinned: false,
    }
}

fn image_item(id: u64, dims: Option<(u32, u32)>, size: u64) -> ClipItem {
    ClipItem { id, kind: ItemKind::Image, timestamp: 0, size_bytes: size, hash: id, snippet: None, image_dims: dims, pinned: false }
}

#[test]
fn default_settings() {
    let s = AppSettings::default();
    assert_eq!(s.theme, Theme::Dark);
    assert_eq!(s.max_items, 100);
    assert_eq!(s.poll_interval_ms, 600);
    assert_eq!(s.hotkey, "Ctrl+Shift+V");
    assert!(s.hotkey_enabled && s.show_at_cursor && s.auto_paste && s.hide_after_copy);
    assert!(s.capture_text && s.capture_images);
}

#[test]
fn max_items_is_clamped() {
    assert_eq!(clamp_max_items(0), 1);
    assert_eq!(clamp_max_items(50), 50);
    assert_eq!(clamp_max_items(20_000), 10_000);
    let mut s = AppSettings::default();
    assert!(s.set_max_items(20_000));
    assert_eq!(s.max_items, 10_000);
    assert!(!s.set_max_items(10_001));
}

#[test]
fn max_items_field_commit() {
    let mut s = AppSettings::default();
    let mut input = String::from(" 250 ");
    assert!(s.commit_max_items_input(&mut input));
    assert_eq!(s.max_items, 250);
    assert_eq!(input, "250");

    let mut input = String::from("abc");
    assert!(!s.commit_max_items_input(&mut input));
    assert_eq!(input, "250");

    let mut input = String::from("0");
    assert!(!s.commit_max_items_input(&mut input));
    assert_eq!(input, "250");
    assert_eq!(s.max_items, 250);

    // Unchanged limit: the field keeps what was typed.
    let mut input = String::from(" 250");
    assert!(!s.commit_max_items_input(&mut input));
    assert_eq!(input, " 250");

    let mut input = String::from("99999");
    assert!(s.commit_max_items_input(&mut input));
    assert_eq!(s.max_items, 10_000);
    assert_eq!(input, "10000");
}

#[test]
fn hotkey_spec_follows_enabled_flag() {
    let mut s = AppSettings::default();
    assert_eq!(s.hotkey_spec(), Some("Ctrl+Shift+V"));
    s.hotkey_enabled = false;
    assert_eq!(s.hotkey_spec(), None);
}

#[test]
fn titles() {
    assert_eq!(kind_label(ItemKind::Text), "TXT");
    assert_eq!(kind_label(ItemKind::Image), "IMG");
    assert_eq!(row_title(&image_item(1, Some((640, 480)), 0)), "640×480");
    assert_eq!(row_title(&image_item(1, None, 0)), "картинка");
    let long = text_item(2, "line one\nline two is rather long, isn't it?");
    assert_eq!(row_title(&long), "line one\nline two is rather long, isn't it?");
    assert_eq!(short_title(&long), "line one line two is rather long…");
    assert_eq!(preview_title(&text_item(3, "hello")), "Текст · 5 B");
    assert_eq!(preview_title(&image_item(4, Some((2, 3)), 4096)), "Картинка · 2×3 · 4 КБ");
    assert_eq!(preview_title(&image_item(4, None, 4096)), "Картинка");
    assert_eq!(count_label(12), "12 шт.");
    assert_eq!(delete_checked_label(3), "Удалить выбранные (3)");
}

#[test]
fn selection_checks_and_delete_key() {
    let items = vec![text_item(3, "c"), text_item(2, "b"), text_item(1, "a")];
    let mut sel = Selection::new();
    assert!(sel.ids_for_delete_key().is_empty());
    sel.select(2);
    assert_eq!(sel.ids_for_delete_key(), vec![2]);
    assert!(!sel.all_checked(&items));
    sel.set_all_checked(&items, true);
    assert!(sel.all_checked(&items));
    assert_eq!(sel.checked_count(), 3);
    sel.set_checked(3, false);
    assert!(!sel.is_checked(3));
    let mut del = sel.ids_for_delete_key();
    del.sort();
    assert_eq!(del, vec![1, 2]);
    assert!(sel.forget(&del));
    assert_eq!(sel.selected(), None);
    assert_eq!(sel.checked_count(), 0);
    assert!(!sel.all_checked(&[]));
}

#[test]
fn selection_drops_missing_preview() {
    let items = vec![text_item(3, "c")];
    let mut sel = Selection::new();
    sel.select(3);
    assert!(!sel.drop_missing(&items));
    assert_eq!(sel.selected(), Some(3));
    sel.select(9);
    assert!(sel.drop_missing(&items));
    assert_eq!(sel.selected(), None);
    sel.set_checked(5, true);
    sel.set_checked(5, true);
    assert_eq!(sel.checked_count(), 1);
}

#[test]
fn hotkey_apply_parses_and_reports() {
    let mut hk = HotkeyState::new();
    let step = hk.begin_apply(Some("Ctrl+Shift+V"));
    assert!(step.unregister.is_none());
    let key = step.register.expect("parses");
    assert_eq!(key, HotKey::from_str("Ctrl+Shift+V").unwrap());
    hk.finish_apply("Ctrl+Shift+V", key, Ok(()));
    assert!(hk.error().is_none());
    let step = hk.begin_apply(Some("Ctrl+Nope"));
    assert!(step.unregister.is_some());
    assert!(step.register.is_none());
    assert!(hk.error().unwrap().starts_with("не разобрать «Ctrl+Nope»: "));
    let step = hk.begin_apply(Some("Alt+C"));
    assert!(step.unregister.is_none());
    assert_eq!(step.register, Some(HotKey::from_str("Alt+C").unwrap()));
    hk.finish_apply("Alt+C", step.register.unwrap(), Err("busy".to_string()));
    assert_eq!(hk.error(), Some("не зарегистрировать «Alt+C»: busy"));
    let step = hk.begin_apply(None);
    assert!(step.register.is_none() && step.unregister.is_none());
    assert!(hk.error().is_none());
}

#[test]
fn paste_plan_is_ctrl_v() {
    assert!(paste_plan(0).is_none());
    let keys = paste_plan(1234).unwrap();
    assert_eq!(
        keys,
        vec![
            KeyStroke { key: VK_CONTROL, up: false },
            KeyStroke { key: VK_V, up: false },
            KeyStroke { key: VK_V, up: true },
            KeyStroke { key: VK_CONTROL, up: true },
        ]
    );
    assert_eq!(cursor_from_query(1, 10, -5), Some((10, -5)));
    assert_eq!(cursor_from_query(0, 10, -5), None);
    assert_eq!(foreground_window(), 0);
    assert_eq!(cursor_pos(), None);
    restore_and_paste(5);
}

#[test]
fn autostart_fallback_and_command() {
    assert!(!is_enabled());
    assert!(copycat::autostart::set(true).is_ok());
    assert_eq!(run_command(r"C:\Program Files\CopyCat\copy-cat.exe"), "\"C:\\Program Files\\CopyCat\\copy-cat.exe\"");
}

#[test]
fn watcher_notes_only_new_contents() {
    assert_eq!(poll_interval_ms(10), 50);
    assert_eq!(poll_interval_ms(600), 600);
    let mut last = 0u64;
    assert_eq!(note_text(&mut last, ""), None);
    assert_eq!(note_text(&mut last, "hi"), Some(fnv1a(b"hi")));
    assert_eq!(last, fnv1a(b"hi"));
    assert_eq!(note_text(&mut last, "hi"), None);
    let img = RgbaImage { width: 1, height: 1, bytes: vec![1, 2, 3, 4] };
    assert_eq!(note_image(&mut last, &img), Some(fnv1a(&[1, 2, 3, 4])));
    assert_eq!(note_image(&mut last, &img), None);
}

/// Records a text as the watcher does: decide, write (here: `outcome`), settle.
fn record_text(store: &mut HistoryStore, text: &str, hash: u64, max: usize, outcome: PayloadWrite) -> Option<Vec<ClipItem>> {
    let pending = store.add_text(text, hash, 0)?;
    record(store, pending, outcome, max)
}

#[test]
fn record_text_adds_then_trims() {
    let mut store = HistoryStore::new();
    let ok = || PayloadWrite::Written { size_on_disk: None };
    assert_eq!(record_text(&mut store, "a", 1, 2, ok()).map(|v| v.len()), Some(0));
    assert_eq!(record_text(&mut store, "b", 2, 2, ok()).map(|v| v.len()), Some(0));
    let removed = record_text(&mut store, "c", 3, 2, ok()).unwrap();
    assert_eq!(removed.iter().map(|it| it.id).collect::<Vec<_>>(), vec![1]);
    // A known hash is refused before anything is written.
    assert!(store.add_text("c again", 3, 0).is_none());
    assert_eq!(store.items().len(), 2);
    assert_eq!(store.next_id(), 4);
}

#[test]
fn record_failed_write_changes_nothing() {
    let mut store = HistoryStore::new();
    record_text(&mut store, "a", 1, 1, PayloadWrite::Written { size_on_disk: None });
    assert!(record_text(&mut store, "b", 2, 1, PayloadWrite::Failed).is_none());
    assert_eq!(store.items().iter().map(|it| it.id).collect::<Vec<_>>(), vec![1]);
    assert_eq!(store.next_id(), 3);
}

#[test]
fn text_is_read_before_images() {
    let both = CaptureKinds { text: true, images: true };
    assert_eq!(next_read(both, None), Some(ItemKind::Text));
    // No text on the clipboard: an image is read next.
    assert_eq!(next_read(both, Some((ItemKind::Text, false))), Some(ItemKind::Image));
    // A text was read: the look ends, no image is read.
    assert_eq!(next_read(both, Some((ItemKind::Text, true))), None);
    assert_eq!(next_read(both, Some((ItemKind::Image, false))), None);
    assert_eq!(next_read(both, Some((ItemKind::Image, true))), None);
    let images = CaptureKinds { text: false, images: true };
    assert_eq!(next_read(images, None), Some(ItemKind::Image));
    let text = CaptureKinds { text: true, images: false };
    assert_eq!(next_read(text, Some((ItemKind::Text, false))), None);
    assert_eq!(next_read(CaptureKinds { text: false, images: false }, None), None);
}

#[test]
fn own_copies_are_not_noted_again() {
    let mut last = 0u64;
    remember_copied_text(&mut last, "copied");
    assert_eq!(note_text(&mut last, "copied"), None);
    assert_eq!(note_text(&mut last, "other"), Some(fnv1a(b"other")));
    remember_copied_image(&mut last, &[9, 9, 9, 9]);
    let img = RgbaImage { width: 1, height: 1, bytes: vec![9, 9, 9, 9] };
    assert_eq!(note_image(&mut last, &img), None);
}

#[test]
fn trimming_twice_is_trimming_once() {
    let mut store = HistoryStore::new();
    for (i, t) in ["a", "b", "c", "d", "e"].iter().enumerate() {
        let pending = store.add_text(t, i as u64, 0).unwrap();
        store.finish_add(pending, PayloadWrite::Written { size_on_disk: None });
    }
    store.set_pinned(2, true);
    let first = store.trim_to(2);
    assert_eq!(first.iter().map(|it| it.id).collect::<Vec<_>>(), vec![1, 3]);
    let again = store.trim_to(2);
    assert!(again.is_empty());
    assert_eq!(store.items().iter().map(|it| it.id).collect::<Vec<_>>(), vec![5, 4, 2]);
}

#[test]
fn record_image_adds_png_entry() {
    let mut store = HistoryStore::new();
    let img = RgbaImage { width: 1, height: 2, bytes: vec![0, 0, 0, 255, 255, 255, 255, 255] };
    let pending = store.add_image(&img, 77, 3).unwrap();
    let removed = record(&mut store, pending, PayloadWrite::Written { size_on_disk: Some(70) }, 10);
    assert_eq!(removed.map(|v| v.len()), Some(0));
    let it = &store.items()[0];
    assert_eq!(it.image_dims, Some((1, 2)));
    assert_eq!(it.size_bytes, 70);
    assert_eq!(it.timestamp, 3);
    let pending = store.add_image(&RgbaImage { width: 1, height: 1, bytes: vec![1, 1, 1, 1] }, 78, 3).unwrap();
    assert!(record(&mut store, pending, PayloadWrite::Failed, 10).is_none());
    assert_eq!(store.next_id(), 3);
    assert_eq!(store.items().len(), 1);
}

#[test]
fn reapplying_hands_back_the_new_hotkey() {
    let mut hk = HotkeyState::new();
    let old = hk.begin_apply(Some("Ctrl+Shift+V")).register.unwrap();
    hk.finish_apply("Ctrl+Shift+V", old, Ok(()));
    let step = hk.begin_apply(Some("Alt+X"));
    assert_eq!(step.unregister, Some(old));
    assert_eq!(step.register, Some(HotKey::from_str("Alt+X").unwrap()));
    assert_ne!(step.register, Some(old));
}

//! The decisions of the clipboard watcher: which clipboard contents are new,
//! and what recording them does to the history.
use vstd::prelude::*;
use crate::hash::{fnv1a, spec_fnv1a};
use crate::history::{
    entry_fresh, settled, trimmed, trimmed_away, ClipItem, HistoryStore, ItemKind, PayloadWrite,
    PendingEntry,
};
use crate::png::RgbaImage;

verus! {

/// The shortest pause between two looks at the clipboard, in milliseconds.
pub const MIN_POLL_MS: u64 = 50;

/// The pause between two looks at the clipboard for a configured interval:
/// never shorter than `MIN_POLL_MS`.
pub fn poll_interval_ms(configured: u64) -> (r: u64)
    ensures
        r == if configured < MIN_POLL_MS { MIN_POLL_MS } else { configured },
{
    if configured < MIN_POLL_MS { MIN_POLL_MS } else { configured }
}

/// What taking note of clipboard bytes does, given the last hash seen: the
/// hash of the bytes when it differs (it then becomes the last one seen),
/// `None` when it does not. Returns the result and the last hash seen after.
pub open spec fn note_outcome(last_seen: u64, bytes: Seq<u8>) -> (Option<u64>, u64) {
    let h = spec_fnv1a(bytes);
    if h == last_seen { (None, last_seen) } else { (Some(h), h) }
}

/// What taking note of a clipboard text does: an empty text is nothing new;
/// otherwise as `note_outcome` over its UTF-8 bytes.
pub open spec fn note_text_outcome(last_seen: u64, text: Seq<char>) -> (Option<u64>, u64) {
    if text.len() == 0 { (None, last_seen) } else { note_outcome(last_seen, vstd::utf8::encode_utf8(text)) }
}

/// Takes note of a text read from the clipboard. An empty text, or one whose
/// hash is the last one seen, is nothing new (`None`). Otherwise its hash
/// becomes the last one seen and is returned.
pub fn note_text(last_seen_hash: &mut u64, text: &str) -> (r: Option<u64>)
    ensures
        (r, *final(last_seen_hash)) == note_text_outcome(*old(last_seen_hash), text@),
{
    if text.is_empty() {
        return None;
    }
    note_bytes(last_seen_hash, text.as_bytes())
}

/// Takes note of an image read from the clipboard: when the hash of its
/// pixels is not the last one seen, it becomes the last one seen and is
/// returned.
pub fn note_image(last_seen_hash: &mut u64, image: &RgbaImage) -> (r: Option<u64>)
    ensures
        (r, *final(last_seen_hash)) == note_outcome(*old(last_seen_hash), image.bytes@),
{
    note_bytes(last_seen_hash, image.bytes.as_slice())
}

fn note_bytes(last_seen_hash: &mut u64, bytes: &[u8]) -> (r: Option<u64>)
    ensures
        (r, *final(last_seen_hash)) == note_outcome(*old(last_seen_hash), bytes@),
{
    let h = fnv1a(bytes);
    if h == *last_seen_hash {
        return None;
    }
    *last_seen_hash = h;
    Some(h)
}

/// Remembers a text that the program itself put on the clipboard, so that
/// the watcher does not record it again.
pub fn remember_copied_text(last_seen_hash: &mut u64, text: &str)
    ensures
        *final(last_seen_hash) == spec_fnv1a(vstd::utf8::encode_utf8(text@)),
{
    *last_seen_hash = fnv1a(text.as_bytes());
}

/// Remembers RGBA pixels that the program itself put on the clipboard, so
/// that the watcher does not record them again.
pub fn remember_copied_image(last_seen_hash: &mut u64, rgba: &[u8])
    ensures
        *final(last_seen_hash) == spec_fnv1a(rgba@),
{
    *last_seen_hash = fnv1a(rgba);
}

/// The same clipboard contents are noted as new at most once in a row.
pub proof fn law_noted_once(last_seen: u64, bytes: Seq<u8>, text: Seq<char>)
    ensures
        note_outcome(note_outcome(last_seen, bytes).1, bytes).0 is None,
        note_text_outcome(note_text_outcome(last_seen, text).1, text).0 is None,
{
}

/// What the program copies to the clipboard itself is not noted as new.
pub proof fn law_own_copy_not_recorded(text: Seq<char>, rgba: Seq<u8>)
    ensures
        note_text_outcome(spec_fnv1a(vstd::utf8::encode_utf8(text)), text).0 is None,
        note_outcome(spec_fnv1a(rgba), rgba).0 is None,
{
}

/// Settles a new entry from the clipboard with what became of writing its
/// payload file and, when the entry went in, trims the history to
/// `max_items`. Returns the entries trimmed away (whose payload files are to
/// be removed, and the index saved) when an entry went in, `None` when the
/// write failed.
pub fn record(
    store: &mut HistoryStore,
    pending: PendingEntry,
    outcome: PayloadWrite,
    max_items: usize,
) -> (r: Option<Vec<ClipItem>>)
    ensures
        final(store).next_id_spec() == old(store).next_id_spec(),
        old(store).wf() && entry_fresh(old(store).next_id_spec(), old(store)@.1, pending.item_spec())
            ==> final(store).wf(),
        ({
            let added = settled(old(store)@.1, pending.item_spec(), outcome);
            match outcome {
                PayloadWrite::Failed => r is None && final(store)@.1 == old(store)@.1,
                PayloadWrite::Written { .. } => {
                    &&& r matches Some(removed)
                    &&& removed@ == trimmed_away(added, max_items as nat)
                    &&& final(store)@.1 == trimmed(added, max_items as nat)
                },
            }
        }),
{
    match store.finish_add(pending, outcome) {
        None => None,
        Some(_) => Some(store.trim_to(max_items)),
    }
}

/// Which clipboard contents the watcher records.
#[derive(Debug, Clone, Copy, PartialEq, Eq, Structural)]
pub struct CaptureKinds {
    pub text: bool,
    pub images: bool,
}

/// What the watcher reads from the clipboard next. `last` is the read just
/// made and whether it got contents (`None` at the start of a look): text
/// first, then an image; a read that got contents ends the look, whatever
/// they hold, so no image is read once a text was.
pub open spec fn spec_next_read(kinds: CaptureKinds, last: Option<(ItemKind, bool)>) -> Option<ItemKind> {
    match last {
        None => if kinds.text {
            Some(ItemKind::Text)
        } else if kinds.images {
            Some(ItemKind::Image)
        } else {
            None
        },
        Some((_, true)) => None,
        Some((ItemKind::Text, false)) => if kinds.images { Some(ItemKind::Image) } else { None },
        Some((ItemKind::Image, false)) => None,
    }
}

/// What the watcher reads from the clipboard next; see `spec_next_read`.
pub fn next_read(kinds: CaptureKinds, last: Option<(ItemKind, bool)>) -> (r: Option<ItemKind>)
    ensures
        r == spec_next_read(kinds, last),
{
    match last {
        None => if kinds.text {
            Some(ItemKind::Text)
        } else if kinds.images {
            Some(ItemKind::Image)
        } else {
            None
        },
        Some((_, true)) => None,
        Some((ItemKind::Text, false)) => if kinds.images { Some(ItemKind::Image) } else { None },
        Some((ItemKind::Image, false)) => None,
    }
}

/// How a look at the clipboard goes: with text capture on, a look starts by
/// reading text, whatever the image setting; with only image capture on, by
/// reading an image; a kind is read only when its capture is on, never twice
/// in one look, and never after a read that got contents; after a text read
/// that got nothing, an image is read exactly when image capture is on.
pub proof fn law_look_reads_text_first(kinds: CaptureKinds, last: Option<(ItemKind, bool)>, kind: ItemKind)
    ensures
        kinds.text ==> spec_next_read(kinds, None) == Some(ItemKind::Text),
        !kinds.text && kinds.images ==> spec_next_read(kinds, None) == Some(ItemKind::Image),
        !kinds.text && !kinds.images ==> spec_next_read(kinds, None) is None,
        spec_next_read(kinds, last) == Some(ItemKind::Text) ==> kinds.text,
        spec_next_read(kinds, last) == Some(ItemKind::Image) ==> kinds.images,
        spec_next_read(kinds, Some((kind, true))) is None,
        spec_next_read(kinds, Some((kind, false))) != Some(kind),
        spec_next_read(kinds, Some((ItemKind::Image, false))) is None,
        (spec_next_read(kinds, Some((ItemKind::Text, false))) == Some(ItemKind::Image)) == kinds.images,
{
}

} // verus!

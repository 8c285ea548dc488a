//! The clipboard history: an index of entries, newest first, whose bodies
//! (text or PNG) live in payload files named after the entry's id.
use vstd::prelude::*;
use crate::png::{encode_png_rgba8, png_rgba8_encoding, RgbaImage};
use crate::text::{
    digits_value, first_chars, lemma_decimal_digits, push_str, spec_decimal, zero_padded,
    zero_padded_decimal,
};

verus! {

/// How many characters of a text entry the index keeps for the list.
pub const SNIPPET_CHARS: usize = 200;

/// What an entry holds.
#[derive(Debug, Clone, Copy, PartialEq, Eq, Structural)]
pub enum ItemKind {
    Text,
    Image,
}

/// One entry of the history index.
#[derive(Debug, Clone)]
pub struct ClipItem {
    pub id: u64,
    pub kind: ItemKind,
    /// Seconds since the Unix epoch at which the entry was captured.
    pub timestamp: u64,
    /// Size of the body: UTF-8 bytes of a text, bytes of the PNG file of an image.
    pub size_bytes: u64,
    /// FNV-1a of the captured bytes; no two entries share one.
    pub hash: u64,
    /// The first characters of a text, for the list.
    pub snippet: Option<String>,
    /// Width and height of an image, in pixels.
    pub image_dims: Option<(u32, u32)>,
    /// A pinned entry does not count toward the history limit and is never trimmed.
    pub pinned: bool,
}

/// What became of writing an entry's body to its payload file.
pub enum PayloadWrite {
    Failed,
    /// Written; `size_on_disk` is the file's length where it could be read back.
    Written { size_on_disk: Option<u64> },
}

/// The file extension of an entry's payload file.
pub open spec fn spec_ext_for(kind: ItemKind) -> Seq<char> {
    match kind {
        ItemKind::Text => seq!['t', 'x', 't'],
        ItemKind::Image => seq!['p', 'n', 'g'],
    }
}

/// The name of the payload file of entry `id`: the id in ten zero-padded
/// digits, a dot, and the extension.
pub open spec fn spec_payload_file_name(id: u64, kind: ItemKind) -> Seq<char> {
    zero_padded(spec_decimal(id as nat), 10) + seq!['.'] + spec_ext_for(kind)
}

/// The extension of the payload file of an entry of kind `kind`.
pub fn ext_for(kind: ItemKind) -> (r: &'static str)
    ensures
        r@ == spec_ext_for(kind),
{
    match kind {
        ItemKind::Text => {
            proof {
                reveal_strlit("txt");
            }
            "txt"
        },
        ItemKind::Image => {
            proof {
                reveal_strlit("png");
            }
            "png"
        },
    }
}

/// The name of the payload file of entry `id` (`{id:010}.{ext}`).
pub fn payload_file_name(id: u64, kind: ItemKind) -> (r: String)
    ensures
        r@ == spec_payload_file_name(id, kind),
{
    let mut name = zero_padded_decimal(id, 10);
    proof {
        reveal_strlit(".");
    }
    push_str(&mut name, ".");
    push_str(&mut name, ext_for(kind));
    name
}

// ---------- the model ----------

/// Entries are ordered newest first: ids strictly decrease along the list.
pub open spec fn newest_first(items: Seq<ClipItem>) -> bool {
    forall|i: int, j: int| 0 <= i < j < items.len() ==> #[trigger] items[i].id > #[trigger] items[j].id
}

/// No two entries share a hash.
pub open spec fn distinct_hashes(items: Seq<ClipItem>) -> bool {
    forall|i: int, j: int|
        0 <= i < items.len() && 0 <= j < items.len() && i != j ==> #[trigger] items[i].hash
            != #[trigger] items[j].hash
}

/// Every entry's id was issued before `next_id`.
pub open spec fn ids_below(items: Seq<ClipItem>, next_id: u64) -> bool {
    forall|i: int| 0 <= i < items.len() ==> #[trigger] items[i].id < next_id
}

/// The invariant of a history that this library built: newest first, no
/// duplicate hashes, and every id below the next one to issue.
pub open spec fn history_wf(next_id: u64, items: Seq<ClipItem>) -> bool {
    &&& newest_first(items)
    &&& distinct_hashes(items)
    &&& ids_below(items, next_id)
}

/// Whether some entry has hash `hash`.
pub open spec fn has_hash_in(items: Seq<ClipItem>, hash: u64) -> bool {
    exists|k: int| 0 <= k < items.len() && #[trigger] items[k].hash == hash
}

/// Whether some entry has id `id`.
pub open spec fn has_id_in(items: Seq<ClipItem>, id: u64) -> bool {
    exists|k: int| 0 <= k < items.len() && #[trigger] items[k].id == id
}

/// `k` is the position of the first entry with id `id`.
pub open spec fn first_with_id(items: Seq<ClipItem>, id: u64, k: int) -> bool {
    &&& 0 <= k < items.len()
    &&& items[k].id == id
    &&& forall|j: int| 0 <= j < k ==> #[trigger] items[j].id != id
}

/// The characters of a text that its entry keeps as a snippet.
pub open spec fn snippet_of(text: Seq<char>) -> Seq<char> {
    text.take(if text.len() <= SNIPPET_CHARS { text.len() as int } else { SNIPPET_CHARS as int })
}

/// `it` is the entry that captures `text`.
pub open spec fn is_text_item(it: ClipItem, id: u64, text: &str, hash: u64, timestamp: u64) -> bool {
    &&& it.id == id
    &&& it.kind == ItemKind::Text
    &&& it.timestamp == timestamp
    &&& it.size_bytes == vstd::utf8::encode_utf8(text@).len()
    &&& it.hash == hash
    &&& it.snippet matches Some(s) && s@ == snippet_of(text@)
    &&& it.image_dims is None
    &&& !it.pinned
}

/// `it` is the entry that captures an image of `width` x `height` pixels whose
/// PNG file has `size` bytes.
pub open spec fn is_image_item(
    it: ClipItem,
    id: u64,
    width: u32,
    height: u32,
    size: u64,
    hash: u64,
    timestamp: u64,
) -> bool {
    &&& it.id == id
    &&& it.kind == ItemKind::Image
    &&& it.timestamp == timestamp
    &&& it.size_bytes == size
    &&& it.hash == hash
    &&& it.snippet is None
    &&& it.image_dims == Some((width, height))
    &&& !it.pinned
}

/// An entry that may go in front of a history `(next, items)` without
/// breaking its invariant: its id was issued and is above every present id,
/// and its hash is new.
pub open spec fn entry_fresh(next: u64, items: Seq<ClipItem>, item: ClipItem) -> bool {
    &&& item.id < next
    &&& ids_below(items, item.id)
    &&& !has_hash_in(items, item.hash)
}

/// The entry that a pending `item` becomes once its payload file is written:
/// an image is sized as the file on disk where that length is known; a text
/// keeps its UTF-8 length.
pub open spec fn placed_item(item: ClipItem, size_on_disk: Option<u64>) -> ClipItem {
    match size_on_disk {
        Some(n) if item.kind == ItemKind::Image => ClipItem { size_bytes: n, ..item },
        _ => item,
    }
}

/// The history `items` after a pending `item` was settled with `outcome`.
pub open spec fn settled(items: Seq<ClipItem>, item: ClipItem, outcome: PayloadWrite) -> Seq<ClipItem> {
    match outcome {
        PayloadWrite::Failed => items,
        PayloadWrite::Written { size_on_disk } => seq![placed_item(item, size_on_disk)] + items,
    }
}

/// Number of unpinned entries.
pub open spec fn unpinned_count(items: Seq<ClipItem>) -> nat
    decreases items.len(),
{
    if items.len() == 0 {
        0
    } else {
        unpinned_count(items.drop_last()) + if items.last().pinned { 0nat } else { 1nat }
    }
}

/// Trimming to `max` keeps entry `i` when it is pinned or when fewer than
/// `max` unpinned entries are newer than it.
pub open spec fn kept_by_trim(items: Seq<ClipItem>, max: nat, i: int) -> bool {
    items[i].pinned || unpinned_count(items.take(i)) < max
}

/// The entries from position `i` on that trimming keeps, in order.
pub open spec fn trim_kept_from(items: Seq<ClipItem>, max: nat, i: int) -> Seq<ClipItem>
    decreases items.len() - i,
{
    if i < 0 || i >= items.len() {
        Seq::empty()
    } else if kept_by_trim(items, max, i) {
        seq![items[i]] + trim_kept_from(items, max, i + 1)
    } else {
        trim_kept_from(items, max, i + 1)
    }
}

/// The entries from position `i` on that trimming drops, oldest first.
pub open spec fn trim_dropped_from(items: Seq<ClipItem>, max: nat, i: int) -> Seq<ClipItem>
    decreases items.len() - i,
{
    if i < 0 || i >= items.len() {
        Seq::empty()
    } else if kept_by_trim(items, max, i) {
        trim_dropped_from(items, max, i + 1)
    } else {
        trim_dropped_from(items, max, i + 1).push(items[i])
    }
}

/// The history left after trimming to `max` unpinned entries.
pub open spec fn trimmed(items: Seq<ClipItem>, max: nat) -> Seq<ClipItem> {
    trim_kept_from(items, max, 0)
}

/// The entries that trimming to `max` drops, oldest first.
pub open spec fn trimmed_away(items: Seq<ClipItem>, max: nat) -> Seq<ClipItem> {
    trim_dropped_from(items, max, 0)
}

/// An entry accepted for recording whose payload file is still to be
/// written: `payload` goes to the file named after the entry's id and kind.
pub struct PendingEntry {
    item: ClipItem,
    payload: Vec<u8>,
}

impl PendingEntry {
    /// The entry as it will stand in the history.
    pub closed spec fn item_spec(&self) -> ClipItem {
        self.item
    }

    /// The bytes to write to the entry's payload file.
    pub closed spec fn payload_spec(&self) -> Seq<u8> {
        self.payload@
    }

    /// The id of the entry, which names its payload file.
    pub fn id(&self) -> (r: u64)
        ensures
            r == self.item_spec().id,
    {
        self.item.id
    }

    /// The kind of the entry, which gives its payload file's extension.
    pub fn kind(&self) -> (r: ItemKind)
        ensures
            r == self.item_spec().kind,
    {
        self.item.kind
    }

    /// The bytes to write to the entry's payload file.
    pub fn payload(&self) -> (r: &[u8])
        ensures
            r@ == self.payload_spec(),
    {
        self.payload.as_slice()
    }
}

// ---------- the store ----------

/// The history index: the next id to issue and the entries, newest first.
pub struct HistoryStore {
    next_id: u64,
    items: Vec<ClipItem>,
}

impl View for HistoryStore {
    /// The next id to issue, and the entries, newest first.
    type V = (u64, Seq<ClipItem>);

    closed spec fn view(&self) -> (u64, Seq<ClipItem>) {
        (self.next_id, self.items@)
    }
}

impl HistoryStore {
    /// The next id that an entry will get.
    pub open spec fn next_id_spec(&self) -> u64 {
        self@.0
    }

    /// The store's invariant (see `history_wf`).
    pub open spec fn wf(&self) -> bool {
        history_wf(self.next_id_spec(), self@.1)
    }

    /// An empty history whose first entry gets id 1.
    pub fn new() -> (s: Self)
        ensures
            s.next_id_spec() == 1,
            s@.1 == Seq::<ClipItem>::empty(),
            s.wf(),
    {
        HistoryStore { next_id: 1, items: Vec::new() }
    }

    /// The history described by a stored index. A stored next id of 0 is
    /// read as 1, so that ids start at 1. An index that was well formed when
    /// it was written (as `next_id` and `items` give it) opens well formed;
    /// the index is not checked.
    pub fn from_index(next_id: u64, items: Vec<ClipItem>) -> (s: Self)
        ensures
            s.next_id_spec() == if next_id == 0 { 1 } else { next_id },
            s@.1 == items@,
            history_wf(next_id, items@) ==> s.wf(),
    {
        HistoryStore { next_id: if next_id == 0 { 1 } else { next_id }, items }
    }

    /// The next id that an entry will get, as the index stores it.
    pub fn next_id(&self) -> (r: u64)
        ensures
            r == self.next_id_spec(),
    {
        self.next_id
    }

    /// The entries, newest first.
    pub fn items(&self) -> (r: &[ClipItem])
        ensures
            r@ == self@.1,
    {
        self.items.as_slice()
    }

    /// The first entry with id `id`, if any.
    pub fn get(&self, id: u64) -> (r: Option<&ClipItem>)
        ensures
            match r {
                Some(it) => exists|k: int| first_with_id(self@.1, id, k) && *it == self@.1[k],
                None => !has_id_in(self@.1, id),
            },
    {
        match self.position(id) {
            Some(k) => Some(&self.items[k]),
            None => None,
        }
    }

    fn position(&self, id: u64) -> (r: Option<usize>)
        ensures
            match r {
                Some(k) => first_with_id(self@.1, id, k as int),
                None => !has_id_in(self@.1, id),
            },
    {
        let n = self.items.len();
        let mut i: usize = 0;
        while i < n
            invariant
                n == self@.1.len(),
                i <= n,
                forall|j: int| 0 <= j < i ==> #[trigger] self@.1[j].id != id,
            decreases n - i,
        {
            if self.items[i].id == id {
                return Some(i);
            }
            i = i + 1;
        }
        None
    }

    /// Whether some entry has hash `hash`.
    pub fn has_hash(&self, hash: u64) -> (r: bool)
        ensures
            r == has_hash_in(self@.1, hash),
    {
        let n = self.items.len();
        let mut i: usize = 0;
        while i < n
            invariant
                n == self@.1.len(),
                i <= n,
                forall|j: int| 0 <= j < i ==> #[trigger] self@.1[j].hash != hash,
            decreases n - i,
        {
            if self.items[i].hash == hash {
                return true;
            }
            i = i + 1;
        }
        false
    }

    /// Puts a new entry in front. Keeps the invariant where the entry's id is
    /// above every present one and its hash is new.
    fn push_front(&mut self, item: ClipItem)
        ensures
            final(self)@.1 == seq![item] + old(self)@.1,
            final(self).next_id_spec() == old(self).next_id_spec(),
            old(self).wf() && entry_fresh(old(self).next_id_spec(), old(self)@.1, item) ==> final(self).wf(),
    {
        self.items.insert(0, item);
        assert(self.items@ =~= seq![item] + old(self)@.1);
        proof {
            if old(self).wf() && entry_fresh(old(self).next_id_spec(), old(self)@.1, item) {
                let s = self@.1;
                assert forall|i: int, j: int| 0 <= i < j < s.len() implies #[trigger] s[i].id > #[trigger] s[j].id by {
                    if i > 0 {
                        assert(s[i] == old(self)@.1[i - 1]);
                    }
                    assert(s[j] == old(self)@.1[j - 1]);
                }
                assert forall|i: int, j: int|
                    0 <= i < s.len() && 0 <= j < s.len() && i != j implies #[trigger] s[i].hash
                        != #[trigger] s[j].hash by {
                    if i > 0 && j > 0 {
                        assert(s[i] == old(self)@.1[i - 1]);
                        assert(s[j] == old(self)@.1[j - 1]);
                    } else if i == 0 {
                        assert(s[j] == old(self)@.1[j - 1]);
                    } else {
                        assert(s[i] == old(self)@.1[i - 1]);
                    }
                }
            }
        }
    }

    /// Decides whether a text is recorded: an empty text, or one whose hash
    /// is already in the history, is not (`None`, nothing changes, nothing is
    /// to be written). Otherwise the text takes the next id and comes back as
    /// a pending entry whose payload (the text's UTF-8 bytes) is to be written
    /// to its payload file before `finish_add` puts it in front.
    pub fn add_text(&mut self, text: &str, hash: u64, timestamp: u64) -> (r: Option<PendingEntry>)
        requires
            text@.len() > 0 && !has_hash_in(old(self)@.1, hash) ==> old(self).next_id_spec() < u64::MAX,
        ensures
            final(self)@.1 == old(self)@.1,
            old(self).wf() ==> final(self).wf(),
            text@.len() == 0 || has_hash_in(old(self)@.1, hash) ==> {
                &&& r is None
                &&& final(self).next_id_spec() == old(self).next_id_spec()
            },
            text@.len() > 0 && !has_hash_in(old(self)@.1, hash) ==> {
                &&& final(self).next_id_spec() == old(self).next_id_spec() + 1
                &&& r matches Some(p)
                &&& is_text_item(p.item_spec(), old(self).next_id_spec(), text, hash, timestamp)
                &&& p.payload_spec() == vstd::utf8::encode_utf8(text@)
                &&& old(self).wf() ==> entry_fresh(final(self).next_id_spec(), final(self)@.1, p.item_spec())
            },
    {
        if text.is_empty() || self.has_hash(hash) {
            return None;
        }
        let id = self.next_id;
        self.next_id = self.next_id + 1;
        let payload = text.as_bytes_vec();
        let snippet = first_chars(text, SNIPPET_CHARS);
        let item = ClipItem {
            id,
            kind: ItemKind::Text,
            timestamp,
            size_bytes: payload.len() as u64,
            hash,
            snippet: Some(snippet),
            image_dims: None,
            pinned: false,
        };
        proof {
            lemma_ids_below_grow(self@.1, id, self.next_id);
        }
        Some(PendingEntry { item, payload })
    }

    /// Decides whether an image is recorded: one without pixels, or one whose
    /// hash is already in the history, is not (`None`, nothing changes,
    /// nothing is to be written). Otherwise the image takes the next id and is
    /// encoded as PNG, dimensions taken as `u32`; where encoding fails nothing
    /// is to be written, and the id stays used up. Otherwise it comes back as
    /// a pending entry whose payload (the PNG) is to be written to its payload
    /// file before `finish_add` puts it in front.
    pub fn add_image(&mut self, image: &RgbaImage, hash: u64, timestamp: u64) -> (r: Option<PendingEntry>)
        requires
            image.width != 0 && image.height != 0 && !has_hash_in(old(self)@.1, hash) ==> {
                &&& old(self).next_id_spec() < u64::MAX
                &&& image.bytes@.len() == (image.width as u32) as int * (image.height as u32) as int * 4
            },
        ensures
            final(self)@.1 == old(self)@.1,
            old(self).wf() ==> final(self).wf(),
            image.width == 0 || image.height == 0 || has_hash_in(old(self)@.1, hash) ==> {
                &&& r is None
                &&& final(self).next_id_spec() == old(self).next_id_spec()
            },
            image.width != 0 && image.height != 0 && !has_hash_in(old(self)@.1, hash) ==> {
                let w = image.width as u32;
                let h = image.height as u32;
                let png = png_rgba8_encoding(image.bytes@, w, h);
                &&& final(self).next_id_spec() == old(self).next_id_spec() + 1
                &&& png is None ==> r is None
                &&& png is Some ==> {
                    &&& r matches Some(p)
                    &&& p.payload_spec() == png->0
                    &&& is_image_item(p.item_spec(), old(self).next_id_spec(), w, h, png->0.len() as u64, hash, timestamp)
                    &&& old(self).wf() ==> entry_fresh(final(self).next_id_spec(), final(self)@.1, p.item_spec())
                }
            },
    {
        if image.width == 0 || image.height == 0 || self.has_hash(hash) {
            return None;
        }
        let id = self.next_id;
        self.next_id = self.next_id + 1;
        proof {
            lemma_ids_below_grow(self@.1, id, self.next_id);
        }
        #[verifier::truncate]
        let w = image.width as u32;
        #[verifier::truncate]
        let h = image.height as u32;
        let payload = match encode_png_rgba8(image.bytes.as_slice(), w, h) {
            Some(png) => png,
            None => return None,
        };
        let item = ClipItem {
            id,
            kind: ItemKind::Image,
            timestamp,
            size_bytes: payload.len() as u64,
            hash,
            snippet: None,
            image_dims: Some((w, h)),
            pinned: false,
        };
        Some(PendingEntry { item, payload })
    }

    /// Settles a pending entry with what became of writing its payload file:
    /// where the write failed nothing changes; otherwise the entry (an image
    /// sized as the file on disk where that is known) goes in front. Returns
    /// the id of the new entry. The invariant is kept where the entry came
    /// from `add_text` or `add_image` on this history with nothing in between.
    pub fn finish_add(&mut self, pending: PendingEntry, outcome: PayloadWrite) -> (r: Option<u64>)
        ensures
            final(self).next_id_spec() == old(self).next_id_spec(),
            final(self)@.1 == settled(old(self)@.1, pending.item_spec(), outcome),
            r == match outcome {
                PayloadWrite::Failed => None,
                PayloadWrite::Written { .. } => Some(pending.item_spec().id),
            },
            old(self).wf() && entry_fresh(old(self).next_id_spec(), old(self)@.1, pending.item_spec())
                ==> final(self).wf(),
    {
        match outcome {
            PayloadWrite::Failed => None,
            PayloadWrite::Written { size_on_disk } => {
                let mut item = pending.item;
                if item.kind == ItemKind::Image {
                    if let Some(n) = size_on_disk {
                        item.size_bytes = n;
                    }
                }
                let id = item.id;
                self.push_front(item);
                Some(id)
            },
        }
    }

    /// Removes the first entry with id `id` and returns it, so that its
    /// payload file can be removed too. Nothing changes where no entry has
    /// that id.
    pub fn delete(&mut self, id: u64) -> (r: Option<ClipItem>)
        ensures
            final(self).next_id_spec() == old(self).next_id_spec(),
            old(self).wf() ==> final(self).wf(),
            match r {
                Some(it) => exists|k: int| {
                    &&& first_with_id(old(self)@.1, id, k)
                    &&& it == old(self)@.1[k]
                    &&& final(self)@.1 == old(self)@.1.remove(k)
                },
                None => !has_id_in(old(self)@.1, id) && final(self)@.1 == old(self)@.1,
            },
    {
        match self.position(id) {
            None => None,
            Some(k) => {
                let it = self.items.remove(k);
                proof {
                    let s = self@.1;
                    let o = old(self)@.1;
                    assert(s =~= o.remove(k as int));
                    if old(self).wf() {
                        assert forall|i: int, j: int| 0 <= i < j < s.len() implies #[trigger] s[i].id > #[trigger] s[j].id by {
                            let oi = if i < k { i } else { i + 1 };
                            let oj = if j < k { j } else { j + 1 };
                            assert(s[i] == o[oi]);
                            assert(s[j] == o[oj]);
                        }
                        assert forall|i: int, j: int|
                            0 <= i < s.len() && 0 <= j < s.len() && i != j implies #[trigger] s[i].hash
                                != #[trigger] s[j].hash by {
                            let oi = if i < k { i } else { i + 1 };
                            let oj = if j < k { j } else { j + 1 };
                            assert(s[i] == o[oi]);
                            assert(s[j] == o[oj]);
                        }
                        assert forall|i: int| 0 <= i < s.len() implies #[trigger] s[i].id < self.next_id by {
                            let oi = if i < k { i } else { i + 1 };
                            assert(s[i] == o[oi]);
                        }
                    }
                }
                Some(it)
            },
        }
    }

    /// Pins or unpins the first entry with id `id`. Returns whether there was one.
    pub fn set_pinned(&mut self, id: u64, pinned: bool) -> (r: bool)
        ensures
            final(self).next_id_spec() == old(self).next_id_spec(),
            old(self).wf() ==> final(self).wf(),
            r == has_id_in(old(self)@.1, id),
            !r ==> final(self)@.1 == old(self)@.1,
            r ==> exists|k: int| {
                &&& first_with_id(old(self)@.1, id, k)
                &&& final(self)@.1 == old(self)@.1.update(k, ClipItem { pinned, ..old(self)@.1[k] })
            },
    {
        match self.position(id) {
            None => false,
            Some(k) => {
                let mut it = self.items.remove(k);
                it.pinned = pinned;
                self.items.insert(k, it);
                proof {
                    let o = old(self)@.1;
                    let s = self@.1;
                    assert(s =~= o.update(k as int, ClipItem { pinned, ..o[k as int] }));
                    assert(forall|i: int| 0 <= i < s.len() ==> #[trigger] s[i].id == o[i].id && s[i].hash == o[i].hash);
                }
                true
            },
        }
    }

    /// Trims the history so that at most `max_items` unpinned entries remain:
    /// the oldest unpinned entries go, pinned ones always stay. Returns the
    /// entries that went, oldest first, so that their payload files can be
    /// removed too.
    pub fn trim_to(&mut self, max_items: usize) -> (removed: Vec<ClipItem>)
        ensures
            final(self).next_id_spec() == old(self).next_id_spec(),
            final(self)@.1 == trimmed(old(self)@.1, max_items as nat),
            removed@ == trimmed_away(old(self)@.1, max_items as nat),
            old(self).wf() ==> final(self).wf(),
    {
        let ghost o = old(self)@.1;
        let ghost max = max_items as nat;
        let n = self.items.len();
        // Unpinned entries in front of position `i`.
        let mut before: usize = 0;
        let mut i: usize = 0;
        while i < n
            invariant
                n == o.len(),
                o == self@.1,
                i <= n,
                before == unpinned_count(o.take(i as int)),
                before <= i,
            decreases n - i,
        {
            assert(o.take(i + 1).drop_last() =~= o.take(i as int));
            if !self.items[i].pinned {
                before = before + 1;
            }
            i = i + 1;
        }
        let mut removed: Vec<ClipItem> = Vec::new();
        // Walk back from the oldest entry; entries at `i` and beyond are done.
        while i > 0
            invariant
                n == o.len(),
                i <= n,
                before == unpinned_count(o.take(i as int)),
                self@.1 == o.take(i as int) + trim_kept_from(o, max, i as int),
                removed@ == trim_dropped_from(o, max, i as int),
                self.next_id == old(self).next_id,
                max == max_items as nat,
            decreases i,
        {
            let k = i - 1;
            assert(o.take(i as int).drop_last() =~= o.take(k as int));
            assert(self@.1[k as int] == o[k as int]);
            let pinned = self.items[k].pinned;
            assert(pinned == o[k as int].pinned);
            let prior: usize = if pinned { before } else { before - 1 };
            assert(prior == unpinned_count(o.take(k as int)));
            assert(prior < max_items <==> unpinned_count(o.take(k as int)) < max);
            if pinned || prior < max_items {
                assert(kept_by_trim(o, max, k as int));
                assert(self@.1 =~= o.take(k as int) + trim_kept_from(o, max, k as int));
            } else {
                let it = self.items.remove(k);
                removed.push(it);
                assert(!kept_by_trim(o, max, k as int));
                assert(self@.1 =~= o.take(k as int) + trim_kept_from(o, max, k as int));
            }
            before = prior;
            i = k;
        }
        assert(o.take(0) =~= Seq::<ClipItem>::empty());
        assert(self@.1 =~= trimmed(o, max));
        proof {
            if old(self).wf() {
                lemma_trim_kept_wf(o, max, 0, self.next_id);
            }
        }
        removed
    }
}

// ---------- laws ----------

proof fn lemma_ids_below_grow(items: Seq<ClipItem>, a: u64, b: u64)
    requires
        a <= b,
    ensures
        ids_below(items, a) ==> ids_below(items, b),
{
}

proof fn lemma_trim_kept_members(items: Seq<ClipItem>, max: nat, i: int)
    requires
        0 <= i,
    ensures
        forall|x: int| 0 <= x < trim_kept_from(items, max, i).len() ==> exists|j: int|
            i <= j < items.len() && #[trigger] trim_kept_from(items, max, i)[x] == items[j],
    decreases items.len() - i,
{
    if i < items.len() {
        lemma_trim_kept_members(items, max, i + 1);
        let rest = trim_kept_from(items, max, i + 1);
        let s = trim_kept_from(items, max, i);
        if kept_by_trim(items, max, i) {
            assert forall|x: int| 0 <= x < s.len() implies exists|j: int|
                i <= j < items.len() && #[trigger] s[x] == items[j] by {
                if x == 0 {
                    assert(s[0] == items[i]);
                } else {
                    assert(s[x] == rest[x - 1]);
                }
            }
        }
    }
}

proof fn lemma_trim_kept_wf(items: Seq<ClipItem>, max: nat, i: int, next_id: u64)
    requires
        0 <= i,
        history_wf(next_id, items),
    ensures
        history_wf(next_id, trim_kept_from(items, max, i)),
    decreases items.len() - i,
{
    if i < items.len() {
        lemma_trim_kept_wf(items, max, i + 1, next_id);
        lemma_trim_kept_members(items, max, i + 1);
        let rest = trim_kept_from(items, max, i + 1);
        let s = trim_kept_from(items, max, i);
        if kept_by_trim(items, max, i) {
            assert forall|a: int, b: int| 0 <= a < b < s.len() implies #[trigger] s[a].id > #[trigger] s[b].id by {
                assert(s[b] == rest[b - 1]);
                let jb = choose|j: int| i + 1 <= j < items.len() && rest[b - 1] == items[j];
                if a == 0 {
                    assert(s[0] == items[i]);
                } else {
                    assert(s[a] == rest[a - 1]);
                }
            }
            assert forall|a: int, b: int|
                0 <= a < s.len() && 0 <= b < s.len() && a != b implies #[trigger] s[a].hash
                    != #[trigger] s[b].hash by {
                if a == 0 {
                    assert(s[b] == rest[b - 1]);
                    let jb = choose|j: int| i + 1 <= j < items.len() && rest[b - 1] == items[j];
                    assert(items[jb].hash != items[i].hash);
                } else if b == 0 {
                    assert(s[a] == rest[a - 1]);
                    let ja = choose|j: int| i + 1 <= j < items.len() && rest[a - 1] == items[j];
                    assert(items[ja].hash != items[i].hash);
                } else {
                    assert(s[a] == rest[a - 1]);
                    assert(s[b] == rest[b - 1]);
                }
            }
            assert forall|a: int| 0 <= a < s.len() implies #[trigger] s[a].id < next_id by {
                if a == 0 {
                    assert(s[0] == items[i]);
                } else {
                    assert(s[a] == rest[a - 1]);
                }
            }
        }
    }
}

proof fn lemma_unpinned_prepend(x: ClipItem, r: Seq<ClipItem>)
    ensures
        unpinned_count(seq![x] + r) == unpinned_count(r) + if x.pinned { 0nat } else { 1nat },
    decreases r.len(),
{
    let s = seq![x] + r;
    if r.len() > 0 {
        assert(s.drop_last() =~= seq![x] + r.drop_last());
        assert(s.last() == r.last());
        lemma_unpinned_prepend(x, r.drop_last());
    } else {
        assert(s.drop_last() =~= Seq::<ClipItem>::empty());
        assert(s.last() == x);
        assert(unpinned_count(Seq::<ClipItem>::empty()) == 0);
    }
}

proof fn lemma_unpinned_step(items: Seq<ClipItem>, i: int)
    requires
        0 <= i < items.len(),
    ensures
        unpinned_count(items.take(i + 1)) == unpinned_count(items.take(i)) + if items[i].pinned { 0nat } else { 1nat },
{
    assert(items.take(i + 1).drop_last() =~= items.take(i));
}

proof fn lemma_unpinned_prefix_le(items: Seq<ClipItem>, i: int)
    requires
        0 <= i <= items.len(),
    ensures
        unpinned_count(items.take(i)) <= unpinned_count(items),
    decreases items.len() - i,
{
    if i < items.len() {
        lemma_unpinned_step(items, i);
        lemma_unpinned_prefix_le(items, i + 1);
    } else {
        assert(items.take(i) =~= items);
    }
}

proof fn lemma_trim_kept_count(items: Seq<ClipItem>, max: nat, i: int)
    requires
        0 <= i <= items.len(),
    ensures
        ({
            let total = unpinned_count(items);
            let before = unpinned_count(items.take(i));
            let cap = if total <= max { total } else { max };
            let used = if before <= max { before } else { max };
            unpinned_count(trim_kept_from(items, max, i)) == cap - used
        }),
    decreases items.len() - i,
{
    if i == items.len() {
        assert(items.take(i) =~= items);
    } else {
        lemma_trim_kept_count(items, max, i + 1);
        lemma_unpinned_step(items, i);
        lemma_unpinned_prefix_le(items, i + 1);
        if kept_by_trim(items, max, i) {
            lemma_unpinned_prepend(items[i], trim_kept_from(items, max, i + 1));
        }
    }
}

proof fn lemma_trim_keeps_pinned(items: Seq<ClipItem>, max: nat, i: int)
    requires
        0 <= i,
    ensures
        forall|j: int| i <= j < items.len() && items[j].pinned ==> trim_kept_from(items, max, i).contains(
            #[trigger] items[j],
        ),
        forall|x: int| 0 <= x < trim_dropped_from(items, max, i).len() ==> !(#[trigger] trim_dropped_from(
            items,
            max,
            i,
        )[x]).pinned,
    decreases items.len() - i,
{
    if i < items.len() {
        lemma_trim_keeps_pinned(items, max, i + 1);
        let rest = trim_kept_from(items, max, i + 1);
        let s = trim_kept_from(items, max, i);
        let d = trim_dropped_from(items, max, i);
        let drest = trim_dropped_from(items, max, i + 1);
        assert forall|j: int| i <= j < items.len() && items[j].pinned implies s.contains(#[trigger] items[j]) by {
            if j == i {
                assert(s[0] == items[i]);
            } else {
                assert(rest.contains(items[j]));
                let x = choose|x: int| 0 <= x < rest.len() && rest[x] == items[j];
                if kept_by_trim(items, max, i) {
                    assert(s[x + 1] == rest[x]);
                }
            }
        }
        assert forall|x: int| 0 <= x < d.len() implies !(#[trigger] d[x]).pinned by {
            if !kept_by_trim(items, max, i) && x == d.len() - 1 {
                assert(d[x] == items[i]);
            } else {
                assert(d[x] == drest[x]);
            }
        }
    }
}

/// Trimming to `max` leaves exactly `min(unpinned, max)` unpinned entries,
/// keeps every pinned entry, and drops only unpinned ones.
pub proof fn law_trim_limit(items: Seq<ClipItem>, max: nat)
    ensures
        unpinned_count(trimmed(items, max)) == if unpinned_count(items) <= max { unpinned_count(items) } else { max },
        forall|j: int| 0 <= j < items.len() && items[j].pinned ==> trimmed(items, max).contains(#[trigger] items[j]),
        forall|x: int| 0 <= x < trimmed_away(items, max).len() ==> !(#[trigger] trimmed_away(items, max)[x]).pinned,
{
    lemma_trim_kept_count(items, max, 0);
    assert(items.take(0) =~= Seq::<ClipItem>::empty());
    lemma_trim_keeps_pinned(items, max, 0);
}

proof fn lemma_trim_within_limit(items: Seq<ClipItem>, max: nat, i: int)
    requires
        0 <= i <= items.len(),
        unpinned_count(items) <= max,
    ensures
        trim_kept_from(items, max, i) == items.skip(i),
        trim_dropped_from(items, max, i) == Seq::<ClipItem>::empty(),
    decreases items.len() - i,
{
    if i == items.len() {
        assert(items.skip(i) =~= Seq::<ClipItem>::empty());
    } else {
        lemma_trim_within_limit(items, max, i + 1);
        lemma_unpinned_step(items, i);
        lemma_unpinned_prefix_le(items, i + 1);
        assert(kept_by_trim(items, max, i));
        assert(items.skip(i) =~= seq![items[i]] + items.skip(i + 1));
    }
}

/// A history with at most `max` unpinned entries is left as it is by
/// trimming to `max`.
pub proof fn law_trim_within_limit(items: Seq<ClipItem>, max: nat)
    requires
        unpinned_count(items) <= max,
    ensures
        trimmed(items, max) == items,
        trimmed_away(items, max) == Seq::<ClipItem>::empty(),
{
    lemma_trim_within_limit(items, max, 0);
    assert(items.skip(0) =~= items);
}

proof fn lemma_zeros_value(k: nat)
    ensures
        digits_value(Seq::new(k, |i: int| '0')) == 0,
    decreases k,
{
    if k > 0 {
        assert(Seq::new(k, |i: int| '0').drop_last() =~= Seq::new((k - 1) as nat, |i: int| '0'));
        lemma_zeros_value((k - 1) as nat);
    }
}

proof fn lemma_leading_zeros_value(k: nat, s: Seq<char>)
    ensures
        digits_value(Seq::new(k, |i: int| '0') + s) == digits_value(s),
    decreases s.len(),
{
    let z = Seq::new(k, |i: int| '0');
    if s.len() == 0 {
        assert(z + s =~= z);
        lemma_zeros_value(k);
    } else {
        assert((z + s).drop_last() =~= z + s.drop_last());
        assert((z + s).last() == s.last());
        lemma_leading_zeros_value(k, s.drop_last());
    }
}

proof fn lemma_padded_value(n: nat)
    ensures
        digits_value(zero_padded(spec_decimal(n), 10)) == n,
{
    lemma_decimal_digits(n);
    let d = spec_decimal(n);
    if d.len() < 10 {
        lemma_leading_zeros_value((10 - d.len()) as nat, d);
    }
}

/// Every entry has a payload file of its own: two entries get the same file
/// name only if they have the same id and kind.
pub proof fn law_payload_names_distinct(id1: u64, kind1: ItemKind, id2: u64, kind2: ItemKind)
    requires
        spec_payload_file_name(id1, kind1) == spec_payload_file_name(id2, kind2),
    ensures
        id1 == id2,
        kind1 == kind2,
{
    let p1 = zero_padded(spec_decimal(id1 as nat), 10);
    let p2 = zero_padded(spec_decimal(id2 as nat), 10);
    let f1 = spec_payload_file_name(id1, kind1);
    let f2 = spec_payload_file_name(id2, kind2);
    assert(spec_ext_for(kind1).len() == 3 && spec_ext_for(kind2).len() == 3);
    assert(f1.len() == p1.len() + 4);
    assert(p1.len() == p2.len());
    assert(p1 =~= f1.take(p1.len() as int));
    assert(p2 =~= f2.take(p2.len() as int));
    lemma_padded_value(id1 as nat);
    lemma_padded_value(id2 as nat);
    assert(spec_ext_for(kind1) =~= f1.skip(p1.len() as int + 1));
    assert(spec_ext_for(kind2) =~= f2.skip(p2.len() as int + 1));
    if kind1 != kind2 {
        assert(spec_ext_for(kind1)[0] != spec_ext_for(kind2)[0]);
    }
}

/// Trimming to a limit a second time changes nothing.
pub proof fn law_trim_idempotent(items: Seq<ClipItem>, max: nat)
    ensures
        trimmed(trimmed(items, max), max) == trimmed(items, max),
{
    law_trim_limit(items, max);
    law_trim_within_limit(trimmed(items, max), max);
}

/// In a well-formed history, deleting the entry with id `id` leaves no entry
/// with that id, and every other id is still there exactly when it was before.
pub proof fn law_delete_forgets_only_its_id(items: Seq<ClipItem>, next_id: u64, id: u64, k: int, other: u64)
    requires
        history_wf(next_id, items),
        first_with_id(items, id, k),
        other != id,
    ensures
        !has_id_in(items.remove(k), id),
        has_id_in(items.remove(k), other) == has_id_in(items, other),
{
    let s = items.remove(k);
    if has_id_in(s, id) {
        let j = choose|j: int| 0 <= j < s.len() && #[trigger] s[j].id == id;
        let oj = if j < k { j } else { j + 1 };
        assert(s[j] == items[oj]);
    }
    if has_id_in(items, other) {
        let j = choose|j: int| 0 <= j < items.len() && #[trigger] items[j].id == other;
        let sj = if j < k { j } else { j - 1 };
        assert(s[sj] == items[j]);
    }
    if has_id_in(s, other) {
        let j = choose|j: int| 0 <= j < s.len() && #[trigger] s[j].id == other;
        let oj = if j < k { j } else { j + 1 };
        assert(s[j] == items[oj]);
    }
}

/// Once an entry is settled with its payload file written, its hash is in the
/// history, so the same contents are refused by `add_text` and `add_image`.
pub proof fn law_recorded_hash_is_known(items: Seq<ClipItem>, item: ClipItem, size_on_disk: Option<u64>)
    ensures
        has_hash_in(settled(items, item, PayloadWrite::Written { size_on_disk }), item.hash),
{
    let s = settled(items, item, PayloadWrite::Written { size_on_disk });
    assert(s[0] == placed_item(item, size_on_disk));
    assert(s[0].hash == item.hash);
}

/// The entry recorded for a text shows the text's beginning: its snippet is
/// the first 200 characters of the text (the whole text when shorter), each
/// in its place; the entry is a text entry, unpinned, with no dimensions.
pub proof fn law_text_entry_snippet_is_prefix(it: ClipItem, id: u64, text: &str, hash: u64, timestamp: u64)
    requires
        is_text_item(it, id, text, hash, timestamp),
    ensures
        it.kind == ItemKind::Text,
        !it.pinned,
        it.image_dims is None,
        it.snippet is Some,
        it.snippet->0@.len() == if text@.len() <= 200 { text@.len() } else { 200 },
        forall|i: int| 0 <= i < it.snippet->0@.len() ==> #[trigger] it.snippet->0@[i] == text@[i],
{
}

/// Whatever recording a text or an image puts into the history is unpinned,
/// whether or not the file's size on disk is known; so a history made of
/// one recorded entry is emptied by trimming to 0.
pub proof fn law_recorded_entries_unpinned(
    it: ClipItem,
    id: u64,
    text: &str,
    width: u32,
    height: u32,
    size: u64,
    hash: u64,
    timestamp: u64,
    size_on_disk: Option<u64>,
)
    requires
        is_text_item(it, id, text, hash, timestamp) || is_image_item(it, id, width, height, size, hash, timestamp),
    ensures
        !it.pinned,
        !placed_item(it, size_on_disk).pinned,
        trimmed(settled(Seq::empty(), it, PayloadWrite::Written { size_on_disk }), 0) == Seq::<ClipItem>::empty(),
        trimmed_away(settled(Seq::empty(), it, PayloadWrite::Written { size_on_disk }), 0) == seq![placed_item(it, size_on_disk)],
{
    let s = settled(Seq::empty(), it, PayloadWrite::Written { size_on_disk });
    assert(s =~= seq![placed_item(it, size_on_disk)]);
    assert(s.take(0) =~= Seq::<ClipItem>::empty());
    assert(!kept_by_trim(s, 0, 0));
    assert(trim_kept_from(s, 0, 1) == Seq::<ClipItem>::empty());
    assert(trim_dropped_from(s, 0, 1) == Seq::<ClipItem>::empty());
    assert(trim_dropped_from(s, 0, 0) =~= seq![placed_item(it, size_on_disk)]);
}

/// An entry just put in front is what a lookup of its id finds first.
pub proof fn law_new_entry_found_first(items: Seq<ClipItem>, it: ClipItem)
    ensures
        first_with_id(seq![it] + items, it.id, 0),
        forall|k: int| first_with_id(seq![it] + items, it.id, k) ==> k == 0,
{
    let s = seq![it] + items;
    assert(s[0] == it);
    assert forall|k: int| first_with_id(s, it.id, k) implies k == 0 by {
        if k > 0 {
            assert(s[0].id != it.id);
        }
    }
}

} // verus!

//! What the window shows of the history, and the selection and check marks
//! that the user sets on it.
use vstd::prelude::*;
use crate::history::{ClipItem, ItemKind};
use crate::text::{push_decimal, push_str, spec_decimal, spec_truncate_chars, truncate_chars};

verus! {

broadcast use vstd::seq_lib::group_seq_properties;

/// Characters of an entry's title shown in the list; the full title is in the
/// tooltip and the preview.
pub const MAX_TITLE_CHARS: usize = 32;

/// The tag shown in front of an entry in the list.
pub open spec fn spec_kind_label(kind: ItemKind) -> Seq<char> {
    match kind {
        ItemKind::Text => "TXT"@,
        ItemKind::Image => "IMG"@,
    }
}

/// The tag shown in front of an entry in the list.
pub fn kind_label(kind: ItemKind) -> (r: &'static str)
    ensures
        r@ == spec_kind_label(kind),
{
    match kind {
        ItemKind::Text => "TXT",
        ItemKind::Image => "IMG",
    }
}

/// `w×h`.
pub open spec fn spec_dims(w: u32, h: u32) -> Seq<char> {
    spec_decimal(w as nat) + "×"@ + spec_decimal(h as nat)
}

/// The full title of an entry: a text's snippet, an image's size in pixels.
pub open spec fn spec_row_title(item: ClipItem) -> Seq<char> {
    match item.kind {
        ItemKind::Text => match item.snippet {
            Some(s) => s@,
            None => Seq::empty(),
        },
        ItemKind::Image => match item.image_dims {
            Some((w, h)) => spec_dims(w, h),
            None => "картинка"@,
        },
    }
}

fn push_dims(s: &mut String, w: u32, h: u32)
    ensures
        final(s)@ == old(s)@ + spec_dims(w, h),
{
    push_decimal(s, w as u64);
    push_str(s, "×");
    push_decimal(s, h as u64);
    assert(final(s)@ =~= old(s)@ + spec_dims(w, h));
}

/// The full title of an entry, as the list's tooltip shows it.
pub fn row_title(item: &ClipItem) -> (r: String)
    ensures
        r@ == spec_row_title(*item),
{
    match item.kind {
        ItemKind::Text => match &item.snippet {
            Some(s) => s.clone(),
            None => String::new(),
        },
        ItemKind::Image => match item.image_dims {
            Some((w, h)) => {
                let mut s = String::new();
                push_dims(&mut s, w, h);
                assert(s@ =~= spec_dims(w, h));
                s
            },
            None => "картинка".to_owned(),
        },
    }
}

/// The title of an entry as the list shows it: on one line, cut to
/// `MAX_TITLE_CHARS` characters.
pub fn short_title(item: &ClipItem) -> (r: String)
    ensures
        r@ == spec_truncate_chars(spec_row_title(*item), MAX_TITLE_CHARS as nat),
{
    let full = row_title(item);
    truncate_chars(full.as_str(), MAX_TITLE_CHARS)
}

/// The heading of the preview of an entry.
pub open spec fn spec_preview_title(item: ClipItem) -> Seq<char> {
    match item.kind {
        ItemKind::Text => "Текст · "@ + spec_decimal(item.size_bytes as nat) + " B"@,
        ItemKind::Image => match item.image_dims {
            Some((w, h)) => "Картинка · "@ + spec_dims(w, h) + " · "@ + spec_decimal((item.size_bytes / 1024) as nat)
                + " КБ"@,
            None => "Картинка"@,
        },
    }
}

/// The heading of the preview of an entry: kind and size.
pub fn preview_title(item: &ClipItem) -> (r: String)
    ensures
        r@ == spec_preview_title(*item),
{
    let mut s = String::new();
    match item.kind {
        ItemKind::Text => {
            push_str(&mut s, "Текст · ");
            push_decimal(&mut s, item.size_bytes);
            push_str(&mut s, " B");
        },
        ItemKind::Image => match item.image_dims {
            Some((w, h)) => {
                push_str(&mut s, "Картинка · ");
                push_dims(&mut s, w, h);
                push_str(&mut s, " · ");
                push_decimal(&mut s, item.size_bytes / 1024);
                push_str(&mut s, " КБ");
            },
            None => {
                push_str(&mut s, "Картинка");
            },
        },
    }
    assert(s@ =~= spec_preview_title(*item));
    s
}

/// The count shown in the top bar, such as `12 шт.`.
pub fn count_label(count: usize) -> (r: String)
    ensures
        r@ == spec_decimal(count as nat) + " шт."@,
{
    let mut s = String::new();
    push_decimal(&mut s, count as u64);
    push_str(&mut s, " шт.");
    assert(s@ =~= spec_decimal(count as nat) + " шт."@);
    s
}

/// The caption of the button that deletes the checked entries.
pub fn delete_checked_label(count: usize) -> (r: String)
    ensures
        r@ == "Удалить выбранные ("@ + spec_decimal(count as nat) + ")"@,
{
    let mut s = String::new();
    push_str(&mut s, "Удалить выбранные (");
    push_decimal(&mut s, count as u64);
    push_str(&mut s, ")");
    assert(s@ =~= "Удалить выбранные ("@ + spec_decimal(count as nat) + ")"@);
    s
}

/// Appending an id that a duplicate-free list lacks keeps it duplicate-free.
proof fn lemma_push_fresh_no_duplicates(s: Seq<u64>, x: u64)
    requires
        s.no_duplicates(),
        !s.contains(x),
    ensures
        s.push(x).no_duplicates(),
{
    let t = s.push(x);
    assert forall|a: int, b: int| 0 <= a < t.len() && 0 <= b < t.len() && a != b implies t[a] != t[b] by {
        if a < s.len() && b < s.len() {
            assert(t[a] == s[a] && t[b] == s[b]);
        } else if a < s.len() {
            assert(t[a] == s[a] && t[b] == x);
        } else if b < s.len() {
            assert(t[b] == s[b] && t[a] == x);
        }
    }
}

// ---------- selection and check marks ----------

/// The ids of `items`, in order.
pub open spec fn ids_of(items: Seq<ClipItem>) -> Seq<u64> {
    items.map_values(|it: ClipItem| it.id)
}

/// The preview's entry after it is checked against `items`: kept when it is
/// in the list, cleared when it is not.
pub open spec fn kept_selection(selected: Option<u64>, items: Seq<ClipItem>) -> Option<u64> {
    match selected {
        Some(id) => if ids_of(items).contains(id) { selected } else { None },
        None => None,
    }
}

/// The preview's entry after the entries `deleted` are forgotten.
pub open spec fn selection_after_forget(selected: Option<u64>, deleted: Seq<u64>) -> Option<u64> {
    match selected {
        Some(id) => if deleted.contains(id) { None } else { selected },
        None => None,
    }
}

/// The preview shows nothing, or an entry of `items`.
pub open spec fn selection_in(selected: Option<u64>, items: Seq<ClipItem>) -> bool {
    match selected {
        Some(id) => ids_of(items).contains(id),
        None => true,
    }
}

/// The entry shown in the preview and the entries checked for deletion.
pub struct Selection {
    selected: Option<u64>,
    checked: Vec<u64>,
}

impl Selection {
    /// The entry shown in the preview.
    pub closed spec fn selected_spec(&self) -> Option<u64> {
        self.selected
    }

    /// The checked entries.
    pub closed spec fn checked_spec(&self) -> Set<u64> {
        self.checked@.to_set()
    }

    /// The list of checked ids holds no id twice.
    #[verifier::type_invariant]
    spec fn wf(&self) -> bool {
        self.checked@.no_duplicates()
    }

    /// Nothing selected, nothing checked.
    pub fn new() -> (s: Self)
        ensures
            s.selected_spec() is None,
            s.checked_spec() == Set::<u64>::empty(),
    {
        let s = Selection { selected: None, checked: Vec::new() };
        assert(s.checked@.to_set() =~= Set::<u64>::empty());
        s
    }

    /// The entry shown in the preview.
    pub fn selected(&self) -> (r: Option<u64>)
        ensures
            r == self.selected_spec(),
    {
        self.selected
    }

    /// Shows entry `id` in the preview.
    pub fn select(&mut self, id: u64)
        ensures
            final(self).selected_spec() == Some(id),
            final(self).checked_spec() == old(self).checked_spec(),
    {
        proof {
            use_type_invariant(&*self);
        }
        self.selected = Some(id);
    }

    /// Whether entry `id` is checked.
    pub fn is_checked(&self, id: u64) -> (r: bool)
        ensures
            r == self.checked_spec().contains(id),
    {
        let n = self.checked.len();
        let mut i: usize = 0;
        while i < n
            invariant
                n == self.checked@.len(),
                i <= n,
                forall|j: int| 0 <= j < i ==> self.checked@[j] != id,
            decreases n - i,
        {
            if self.checked[i] == id {
                assert(self.checked@.to_set().contains(self.checked@[i as int]));
                return true;
            }
            i = i + 1;
        }
        false
    }

    /// How many entries are checked.
    pub fn checked_count(&self) -> (r: usize)
        ensures
            r == self.checked_spec().len(),
    {
        proof {
            use_type_invariant(self);
            self.checked@.unique_seq_to_set();
        }
        self.checked.len()
    }

    /// The checked ids, each once.
    pub fn checked_ids(&self) -> (r: Vec<u64>)
        ensures
            r@.to_set() == self.checked_spec(),
            r@.no_duplicates(),
    {
        proof {
            use_type_invariant(self);
        }
        self.checked.clone()
    }

    /// Checks or unchecks entry `id`.
    pub fn set_checked(&mut self, id: u64, on: bool)
        ensures
            final(self).selected_spec() == old(self).selected_spec(),
            on ==> final(self).checked_spec() == old(self).checked_spec().insert(id),
            !on ==> final(self).checked_spec() == old(self).checked_spec().remove(id),
    {
        proof {
            use_type_invariant(&*self);
        }
        if on {
            if !self.is_checked(id) {
                let mut ids: Vec<u64> = Vec::new();
                std::mem::swap(&mut ids, &mut self.checked);
                let ghost ids0 = ids@;
                ids.push(id);
                proof {
                    lemma_push_fresh_no_duplicates(ids0, id);
                }
                self.checked = ids;
            }
            assert(self.checked@.to_set() =~= old(self).checked@.to_set().insert(id));
        } else {
            self.uncheck(id);
        }
    }

    fn uncheck(&mut self, id: u64)
        ensures
            final(self).selected_spec() == old(self).selected_spec(),
            final(self).checked_spec() == old(self).checked_spec().remove(id),
    {
        proof {
            use_type_invariant(&*self);
        }
        let ghost before = self.checked@;
        let mut kept: Vec<u64> = Vec::new();
        let n = self.checked.len();
        let mut i: usize = 0;
        while i < n
            invariant
                n == before.len(),
                before == self.checked@,
                i <= n,
                before.no_duplicates(),
                kept@.no_duplicates(),
                forall|x: u64| kept@.contains(x) <==> (before.take(i as int).contains(x) && x != id),
            decreases n - i,
        {
            let x = self.checked[i];
            let ghost t = before.take(i as int);
            let ghost t1 = before.take(i + 1);
            assert(t1 =~= t.push(x));
            proof {
                if x != id && before.no_duplicates() {
                    assert(!t.contains(x)) by {
                        if t.contains(x) {
                            let j = choose|j: int| 0 <= j < t.len() && t[j] == x;
                            assert(before[j] == before[i as int]);
                        }
                    }
                }
            }
            let ghost k0 = kept@;
            if x != id {
                kept.push(x);
                proof {
                    if before.no_duplicates() {
                        lemma_push_fresh_no_duplicates(k0, x);
                    }
                }
            }
            proof {
                assert forall|y: u64| kept@.contains(y) <==> (t1.contains(y) && y != id) by {
                    if t1.contains(y) {
                        let j = choose|j: int| 0 <= j < t1.len() && t1[j] == y;
                        if j < i {
                            assert(t[j] == y);
                        }
                    }
                    if t.contains(y) {
                        let j = choose|j: int| 0 <= j < t.len() && t[j] == y;
                        assert(t1[j] == y);
                    }
                    if y == x {
                        assert(t1[i as int] == y);
                    }
                    if kept@.contains(y) && y == x && x != id {
                        assert(t1[i as int] == y);
                    }
                }
            }
            i = i + 1;
        }
        assert(before.take(n as int) =~= before);
        assert(kept@.to_set() =~= before.to_set().remove(id));
        self.checked = kept;
    }

    /// Whether every entry of `items` is checked (and there is at least one),
    /// as the "select all" box shows it.
    pub fn all_checked(&self, items: &[ClipItem]) -> (r: bool)
        ensures
            r == (items@.len() > 0 && forall|i: int| 0 <= i < items@.len() ==> self.checked_spec().contains(
                #[trigger] items@[i].id,
            )),
    {
        if items.len() == 0 {
            return false;
        }
        let n = items.len();
        let mut i: usize = 0;
        while i < n
            invariant
                n == items@.len(),
                i <= n,
                forall|j: int| 0 <= j < i ==> self.checked_spec().contains(#[trigger] items@[j].id),
            decreases n - i,
        {
            if !self.is_checked(items[i].id) {
                return false;
            }
            i = i + 1;
        }
        true
    }

    /// The "select all" box: checks every entry of `items`, or none.
    pub fn set_all_checked(&mut self, items: &[ClipItem], on: bool)
        ensures
            final(self).selected_spec() == old(self).selected_spec(),
            on ==> final(self).checked_spec() == ids_of(items@).to_set(),
            !on ==> final(self).checked_spec() == Set::<u64>::empty(),
    {
        let mut ids: Vec<u64> = Vec::new();
        if on {
            let n = items.len();
            let mut i: usize = 0;
            while i < n
                invariant
                    n == items@.len(),
                    i <= n,
                    ids@.no_duplicates(),
                    ids@.to_set() == ids_of(items@.take(i as int)).to_set(),
                decreases n - i,
            {
                let id = items[i].id;
                assert(ids_of(items@.take(i + 1)) =~= ids_of(items@.take(i as int)).push(id));
                let mut present = false;
                let m = ids.len();
                let mut j: usize = 0;
                while j < m
                    invariant
                        m == ids@.len(),
                        j <= m,
                        !present ==> forall|k: int| 0 <= k < j ==> ids@[k] != id,
                        present ==> ids@.contains(id),
                    decreases m - j,
                {
                    if ids[j] == id {
                        present = true;
                    }
                    j = j + 1;
                }
                let ghost ids0 = ids@;
                proof {
                    ids_of(items@.take(i as int)).lemma_push_to_set_commute(id);
                }
                if !present {
                    ids.push(id);
                    proof {
                        ids0.lemma_push_to_set_commute(id);
                        lemma_push_fresh_no_duplicates(ids0, id);
                    }
                } else {
                    assert(ids0.to_set().contains(id));
                }
                assert(ids@.to_set() =~= ids_of(items@.take(i + 1)).to_set());
                i = i + 1;
            }
            assert(items@.take(n as int) =~= items@);
        }
        assert(!on ==> ids@.to_set() =~= Set::<u64>::empty());
        self.checked = ids;
    }

    /// Forgets the preview when its entry is no longer in `items`. Returns
    /// whether it did (the preview is then to be dropped).
    pub fn drop_missing(&mut self, items: &[ClipItem]) -> (dropped: bool)
        ensures
            final(self).checked_spec() == old(self).checked_spec(),
            dropped == (old(self).selected_spec() is Some && !ids_of(items@).contains(old(self).selected_spec()->0)),
            final(self).selected_spec() == if dropped { None } else { old(self).selected_spec() },
            final(self).selected_spec() == kept_selection(old(self).selected_spec(), items@),
    {
        match self.selected {
            None => false,
            Some(id) => {
                let n = items.len();
                let mut i: usize = 0;
                while i < n
                    invariant
                        n == items@.len(),
                        i <= n,
                        forall|j: int| 0 <= j < i ==> #[trigger] items@[j].id != id,
                        old(self).selected == Some(id),
                        *self == *old(self),
                    decreases n - i,
                {
                    if items[i].id == id {
                        assert(ids_of(items@)[i as int] == id);
                        assert(ids_of(items@).contains(id));
                        return false;
                    }
                    i = i + 1;
                }
                assert(!ids_of(items@).contains(id)) by {
                    if ids_of(items@).contains(id) {
                        let j = choose|j: int| 0 <= j < n && ids_of(items@)[j] == id;
                        assert(items@[j].id == id);
                    }
                }
                proof {
                    use_type_invariant(&*self);
                }
                self.selected = None;
                true
            },
        }
    }

    /// What the Delete key deletes: the checked entries when there are any,
    /// otherwise the entry in the preview, if any.
    pub fn ids_for_delete_key(&self) -> (r: Vec<u64>)
        ensures
            self.checked_spec() != Set::<u64>::empty() ==> {
                &&& r@.to_set() == self.checked_spec()
                &&& r@.no_duplicates()
            },
            self.checked_spec() == Set::<u64>::empty() ==> r@ == match self.selected_spec() {
                Some(id) => seq![id],
                None => Seq::<u64>::empty(),
            },
    {
        proof {
            use_type_invariant(self);
            if self.checked@.len() > 0 {
                assert(self.checked@.to_set().contains(self.checked@[0]));
            } else {
                assert(self.checked@.to_set() =~= Set::<u64>::empty());
            }
        }
        if self.checked.len() > 0 {
            self.checked.clone()
        } else {
            match self.selected {
                Some(id) => {
                    let mut v = Vec::new();
                    v.push(id);
                    v
                },
                None => Vec::new(),
            }
        }
    }

    /// Clears the marks of deleted entries: they are unchecked, and the
    /// preview is dropped when it showed one of them. Returns whether it was.
    pub fn forget(&mut self, ids: &[u64]) -> (preview_dropped: bool)
        ensures
            final(self).checked_spec() == old(self).checked_spec().difference(ids@.to_set()),
            preview_dropped == (old(self).selected_spec() is Some && ids@.contains(old(self).selected_spec()->0)),
            final(self).selected_spec() == if preview_dropped { None } else { old(self).selected_spec() },
            final(self).selected_spec() == selection_after_forget(old(self).selected_spec(), ids@),
    {
        let mut dropped = false;
        let n = ids.len();
        let mut i: usize = 0;
        while i < n
            invariant
                n == ids@.len(),
                i <= n,
                self.checked_spec() == old(self).checked_spec().difference(ids@.take(i as int).to_set()),
                dropped == (old(self).selected_spec() is Some && ids@.take(i as int).contains(old(self).selected_spec()->0)),
                self.selected_spec() == if dropped { None } else { old(self).selected_spec() },
            decreases n - i,
        {
            let id = ids[i];
            self.uncheck(id);
            if self.selected == Some(id) {
                proof {
                    use_type_invariant(&*self);
                }
                self.selected = None;
                dropped = true;
            }
            proof {
                let t = ids@.take(i as int);
                let t1 = ids@.take(i + 1);
                assert(t1 =~= t.push(id));
                assert(t1.to_set() =~= t.to_set().insert(id));
                assert(self.checked_spec() =~= old(self).checked_spec().difference(t1.to_set()));
                if let Some(s) = old(self).selected_spec() {
                    assert(t1.contains(s) == (t.contains(s) || s == id)) by {
                        if t1.contains(s) && s != id {
                            let j = choose|j: int| 0 <= j < t1.len() && t1[j] == s;
                            assert(t[j] == s);
                        }
                        if t.contains(s) {
                            let j = choose|j: int| 0 <= j < t.len() && t[j] == s;
                            assert(t1[j] == s);
                        }
                        if s == id {
                            assert(t1[i as int] == s);
                        }
                    }
                }
            }
            i = i + 1;
        }
        assert(ids@.take(n as int) =~= ids@);
        dropped
    }
}


/// Over one frame of the window the preview never points at a missing entry:
/// once checked against the list it shows nothing or an entry of the list, and
/// it was cleared (so the preview is to be dropped) exactly when its entry was
/// missing; a click on a row selects an entry of the list; and after entries
/// are deleted from a list that showed the preview's entry and forgotten, the
/// preview shows nothing or an entry that is still there.
pub proof fn law_selection_stays_in_list(
    selected: Option<u64>,
    items: Seq<ClipItem>,
    clicked: int,
    deleted: Seq<u64>,
    after: Seq<ClipItem>,
)
    ensures
        selection_in(kept_selection(selected, items), items),
        (selected is Some && kept_selection(selected, items) is None) == (selected is Some
            && !ids_of(items).contains(selected->0)),
        0 <= clicked < items.len() ==> selection_in(Some(items[clicked].id), items),
        selection_in(selected, items) && (forall|id: u64|
            ids_of(items).contains(id) && !deleted.contains(id) ==> #[trigger] ids_of(after).contains(id))
            ==> selection_in(selection_after_forget(selected, deleted), after),
{
    if 0 <= clicked < items.len() {
        assert(ids_of(items)[clicked] == items[clicked].id);
    }
}

} // verus!

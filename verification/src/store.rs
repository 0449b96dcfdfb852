//! The persistence layer: a single-writer store holding the item table,
//! its search-shadow table in lockstep, and the settings table.
//!
//! Well-formedness captures the store's invariants: rows ordered by
//! recency, at most one row per id and per content hash, and a shadow
//! row exactly for every item row.  Every mutation is one call that
//! updates item and shadow together, so a caller never observes a row
//! without its shadow counterpart or the reverse.  The store keeps no
//! item-to-group association table: nothing in the core creates or
//! reads group memberships, so deletions cascade to the shadow row and
//! nothing further.

use vstd::prelude::*;
use crate::models::{
    shadow_of, stored_of_new, bumped, with_favorite, with_thumbnail, NewClipboardItem, Setting,
    ShadowModel, ShadowRow, StoreError, StoredItem, StoredItemModel,
};
use crate::text::str_eq;

verus! {

// ---------- sequence views ----------

/// The mathematical values of a sequence of viewable values.
pub open spec fn views_of<T: View>(v: Seq<T>) -> Seq<T::V> {
    Seq::new(v.len(), |i: int| v[i]@)
}

proof fn lemma_views_insert<T: View>(v: Seq<T>, p: int, x: T)
    requires
        0 <= p <= v.len(),
    ensures
        views_of(v.insert(p, x)) == views_of(v).insert(p, x@),
{
    v.insert_ensures(p, x);
    views_of(v).insert_ensures(p, x@);
    assert(views_of(v.insert(p, x)) =~= views_of(v).insert(p, x@));
}

pub proof fn lemma_views_push<T: View>(v: Seq<T>, x: T)
    ensures
        views_of(v.push(x)) == views_of(v).push(x@),
{
    assert(views_of(v.push(x)) =~= views_of(v).push(x@));
}

proof fn lemma_views_remove<T: View>(v: Seq<T>, p: int)
    requires
        0 <= p < v.len(),
    ensures
        views_of(v.remove(p)) == views_of(v).remove(p),
{
    v.remove_ensures(p);
    views_of(v).remove_ensures(p);
    assert(views_of(v.remove(p)) =~= views_of(v).remove(p));
}

// ---------- row-sequence predicates ----------

/// Rows are ordered by recency: newest (largest `updated_at`) first.
pub open spec fn sorted_desc(s: Seq<StoredItemModel>) -> bool {
    forall|i: int, j: int| 0 <= i <= j < s.len() ==> s[i].updated_at >= s[j].updated_at
}

/// No two rows share an id.
pub open spec fn unique_ids(s: Seq<StoredItemModel>) -> bool {
    forall|i: int, j: int| 0 <= i < j < s.len() ==> s[i].id != s[j].id
}

/// No two rows share a content hash: the hash is the dedup key.
pub open spec fn unique_hashes(s: Seq<StoredItemModel>) -> bool {
    forall|i: int, j: int| 0 <= i < j < s.len() ==> s[i].content_hash != s[j].content_hash
}

/// Some row carries this id.
pub open spec fn has_id(s: Seq<StoredItemModel>, id: Seq<char>) -> bool {
    exists|i: int| 0 <= i < s.len() && s[i].id == id
}

/// Some row carries this content hash.
pub open spec fn has_hash(s: Seq<StoredItemModel>, h: Seq<char>) -> bool {
    exists|i: int| 0 <= i < s.len() && s[i].content_hash == h
}

/// The index of the row carrying this id.
pub open spec fn idx_of_id(s: Seq<StoredItemModel>, id: Seq<char>) -> int {
    choose|i: int| 0 <= i < s.len() && s[i].id == id
}

/// The index of the row carrying this content hash.
pub open spec fn idx_of_hash(s: Seq<StoredItemModel>, h: Seq<char>) -> int {
    choose|i: int| 0 <= i < s.len() && s[i].content_hash == h
}

/// No two settings entries share a key.
pub open spec fn unique_keys(s: Seq<(Seq<char>, Seq<char>)>) -> bool {
    forall|i: int, j: int| 0 <= i < j < s.len() ==> s[i].0 != s[j].0
}

// ---------- transitions ----------

/// A dedup bump: the row carrying hash `h` moves to the position its
/// refreshed recency calls for, everything else stays; the shadow row
/// moves with it, unchanged.
pub open spec fn bump_transition(
    pre: Seq<StoredItemModel>,
    post: Seq<StoredItemModel>,
    pre_sh: Seq<ShadowModel>,
    post_sh: Seq<ShadowModel>,
    h: Seq<char>,
    now: u64,
) -> bool {
    let j = idx_of_hash(pre, h);
    &&& has_hash(pre, h)
    &&& exists|p: int|
        {
            &&& 0 <= p <= pre.len() - 1
            &&& post == #[trigger] pre.remove(j).insert(p, bumped(pre[j], now))
            &&& post_sh == pre_sh.remove(j).insert(p, shadow_of(pre[j]))
        }
}

/// An insertion: a fresh row made from the payload appears, with its
/// shadow row, at the position its recency calls for.
pub open spec fn insert_transition(
    pre: Seq<StoredItemModel>,
    post: Seq<StoredItemModel>,
    pre_sh: Seq<ShadowModel>,
    post_sh: Seq<ShadowModel>,
    n: crate::models::NewItemModel,
    id: Seq<char>,
    now: u64,
) -> bool {
    &&& !has_id(pre, id)
    &&& exists|p: int|
        {
            &&& 0 <= p <= pre.len()
            &&& post == #[trigger] pre.insert(p, stored_of_new(n, id, now))
            &&& post_sh == pre_sh.insert(p, shadow_of(stored_of_new(n, id, now)))
        }
}

// ---------- the store ----------

/// The clipboard-history store: item rows newest-first, shadow rows in
/// lockstep, and the settings key-value table.
pub struct Store {
    pub items: Vec<StoredItem>,
    pub shadow: Vec<ShadowRow>,
    pub settings: Vec<Setting>,
}

impl Store {
    /// The store's item rows, newest first.
    pub open spec fn rows(self) -> Seq<StoredItemModel> {
        views_of(self.items@)
    }

    /// The store's shadow rows, in lockstep with the item rows.
    pub open spec fn shadows(self) -> Seq<ShadowModel> {
        views_of(self.shadow@)
    }

    /// The store's settings entries.
    pub open spec fn settings_model(self) -> Seq<(Seq<char>, Seq<char>)> {
        views_of(self.settings@)
    }

    /// The store's invariants: recency order, unique ids, unique hashes,
    /// a shadow row exactly for each item row, and unique settings keys.
    pub open spec fn wf(self) -> bool {
        &&& sorted_desc(self.rows())
        &&& unique_ids(self.rows())
        &&& unique_hashes(self.rows())
        &&& self.shadows().len() == self.rows().len()
        &&& (forall|i: int|
            0 <= i < self.rows().len() ==> self.shadows()[i] == shadow_of(self.rows()[i]))
        &&& unique_keys(self.settings_model())
    }

    /// An empty store.
    pub fn new() -> (s: Store)
        ensures
            s.wf(),
            s.rows() == Seq::<StoredItemModel>::empty(),
            s.settings_model() == Seq::<(Seq<char>, Seq<char>)>::empty(),
    {
        let s = Store { items: Vec::new(), shadow: Vec::new(), settings: Vec::new() };
        proof {
            assert(s.rows() =~= Seq::<StoredItemModel>::empty());
            assert(s.settings_model() =~= Seq::<(Seq<char>, Seq<char>)>::empty());
        }
        s
    }

    /// Whether some row carries this id.
    pub fn contains_id(&self, id: &str) -> (r: bool)
        ensures
            r == has_id(self.rows(), id@),
    {
        let mut i: usize = 0;
        while i < self.items.len()
            invariant
                i <= self.items@.len(),
                forall|j: int| 0 <= j < i ==> self.rows()[j].id != id@,
            decreases self.items@.len() - i,
        {
            if str_eq(self.items[i].id.as_str(), id) {
                proof {
                    assert(self.rows()[i as int].id == id@);
                }
                return true;
            }
            i = i + 1;
        }
        false
    }

    /// Whether some row carries this content hash.
    pub fn contains_hash(&self, hash: &str) -> (r: bool)
        ensures
            r == has_hash(self.rows(), hash@),
    {
        let mut i: usize = 0;
        while i < self.items.len()
            invariant
                i <= self.items@.len(),
                forall|j: int| 0 <= j < i ==> self.rows()[j].content_hash != hash@,
            decreases self.items@.len() - i,
        {
            if str_eq(self.items[i].content_hash.as_str(), hash) {
                proof {
                    assert(self.rows()[i as int].content_hash == hash@);
                }
                return true;
            }
            i = i + 1;
        }
        false
    }

    /// The position where a row stamped `ts` belongs: after every strictly
    /// newer row, before every row at most as recent.
    fn insert_pos(&self, ts: u64) -> (p: usize)
        requires
            sorted_desc(self.rows()),
        ensures
            p <= self.rows().len(),
            forall|i: int| 0 <= i < p ==> self.rows()[i].updated_at > ts,
            forall|i: int| p <= i < self.rows().len() ==> self.rows()[i].updated_at <= ts,
    {
        let mut i: usize = 0;
        while i < self.items.len()
            invariant
                sorted_desc(self.rows()),
                i <= self.items@.len(),
                forall|j: int| 0 <= j < i ==> self.rows()[j].updated_at > ts,
            decreases self.items@.len() - i,
        {
            if self.items[i].updated_at <= ts {
                proof {
                    assert forall|k: int| i <= k < self.rows().len() implies
                        self.rows()[k].updated_at <= ts by {
                        assert(self.rows()[i as int].updated_at >= self.rows()[k].updated_at);
                    }
                }
                return i;
            }
            i = i + 1;
        }
        i
    }

    /// Insert a fresh row and its shadow row at the position its recency
    /// calls for, in one step.
    fn insert_sorted(&mut self, row: StoredItem, srow: ShadowRow) -> (p: usize)
        requires
            old(self).wf(),
            !has_id(old(self).rows(), row@.id),
            !has_hash(old(self).rows(), row@.content_hash),
            srow@ == shadow_of(row@),
        ensures
            final(self).wf(),
            0 <= p <= old(self).rows().len(),
            final(self).rows() == old(self).rows().insert(p as int, row@),
            final(self).shadows() == old(self).shadows().insert(p as int, shadow_of(row@)),
            forall|i: int| 0 <= i < p ==> old(self).rows()[i].updated_at > row@.updated_at,
            forall|i: int|
                p <= i < old(self).rows().len() ==> old(self).rows()[i].updated_at
                    <= row@.updated_at,
            final(self).settings_model() == old(self).settings_model(),
    {
        let ghost pre = *self;
        let p = self.insert_pos(row.updated_at);
        proof {
            lemma_views_insert(self.items@, p as int, row);
            lemma_views_insert(self.shadow@, p as int, srow);
            pre.rows().insert_ensures(p as int, row@);
            pre.shadows().insert_ensures(p as int, srow@);
        }
        self.items.insert(p, row);
        self.shadow.insert(p, srow);
        proof {
            let rs = pre.rows().insert(p as int, row@);
            assert(self.rows() == rs);
            assert(self.settings_model() =~= pre.settings_model());
            // recency order is kept around the chosen position
            assert forall|i: int, j: int| 0 <= i <= j < rs.len() implies rs[i].updated_at
                >= rs[j].updated_at by {
                let n = pre.rows().len();
                if i < p && j < p {
                } else if i < p && j == p {
                } else if i < p && j > p {
                } else if i == p && j == p {
                } else if i == p && j > p {
                } else {
                    assert(rs[i] == pre.rows()[i - 1]);
                    assert(rs[j] == pre.rows()[j - 1]);
                }
            }
            // ids and hashes stay unique: the new row's are fresh
            assert forall|i: int, j: int| 0 <= i < j < rs.len() implies rs[i].id != rs[j].id
                && rs[i].content_hash != rs[j].content_hash by {
                if i == p {
                    assert(rs[j] == pre.rows()[j - 1]);
                    if rs[j].id == row@.id {
                        assert(has_id(pre.rows(), row@.id));
                    }
                    if rs[j].content_hash == row@.content_hash {
                        assert(has_hash(pre.rows(), row@.content_hash));
                    }
                } else if j == p {
                    assert(rs[i] == pre.rows()[i]);
                    if rs[i].id == row@.id {
                        assert(has_id(pre.rows(), row@.id));
                    }
                    if rs[i].content_hash == row@.content_hash {
                        assert(has_hash(pre.rows(), row@.content_hash));
                    }
                } else {
                    let i0 = if i < p {
                        i
                    } else {
                        i - 1
                    };
                    let j0 = if j < p {
                        j
                    } else {
                        j - 1
                    };
                    assert(rs[i] == pre.rows()[i0]);
                    assert(rs[j] == pre.rows()[j0]);
                }
            }
            // every shadow row still mirrors its item row
            assert forall|i: int| 0 <= i < rs.len() implies self.shadows()[i] == shadow_of(
                rs[i],
            ) by {
                if i < p {
                } else if i == p {
                } else {
                    assert(rs[i] == pre.rows()[i - 1]);
                    assert(self.shadows()[i] == pre.shadows()[i - 1]);
                }
            }
        }
        p
    }

    /// Removing a row keeps order and uniqueness, and leaves no row with
    /// the removed row's id or hash.
    proof fn lemma_remove_keeps(pre: Seq<StoredItemModel>, j: int)
        requires
            sorted_desc(pre),
            unique_ids(pre),
            unique_hashes(pre),
            0 <= j < pre.len(),
        ensures
            sorted_desc(pre.remove(j)),
            unique_ids(pre.remove(j)),
            unique_hashes(pre.remove(j)),
            !has_id(pre.remove(j), pre[j].id),
            !has_hash(pre.remove(j), pre[j].content_hash),
    {
        let rs = pre.remove(j);
        pre.remove_ensures(j);
        assert forall|a: int, b: int| 0 <= a <= b < rs.len() implies rs[a].updated_at
            >= rs[b].updated_at by {
            let a0 = if a < j { a } else { a + 1 };
            let b0 = if b < j { b } else { b + 1 };
            assert(rs[a] == pre[a0]);
            assert(rs[b] == pre[b0]);
        }
        assert forall|a: int, b: int| 0 <= a < b < rs.len() implies rs[a].id != rs[b].id
            && rs[a].content_hash != rs[b].content_hash by {
            let a0 = if a < j { a } else { a + 1 };
            let b0 = if b < j { b } else { b + 1 };
            assert(rs[a] == pre[a0]);
            assert(rs[b] == pre[b0]);
        }
        assert forall|i: int| 0 <= i < rs.len() implies rs[i].id != pre[j].id
            && rs[i].content_hash != pre[j].content_hash by {
            let i0 = if i < j { i } else { i + 1 };
            assert(rs[i] == pre[i0]);
        }
        if has_id(rs, pre[j].id) {
            let w = choose|i: int| 0 <= i < rs.len() && rs[i].id == pre[j].id;
            assert(false);
        }
        if has_hash(rs, pre[j].content_hash) {
            let w = choose|i: int| 0 <= i < rs.len() && rs[i].content_hash == pre[j].content_hash;
            assert(false);
        }
    }

    /// Put a row taken out at index `j` back in, possibly with changed
    /// recency, favorite flag or thumbnail; id, hash and shadow
    /// projection must be the removed row's.
    fn reinsert_removed(
        &mut self,
        row: StoredItem,
        srow: ShadowRow,
        Ghost(pre): Ghost<Store>,
        Ghost(j): Ghost<int>,
    ) -> (p: usize)
        requires
            pre.wf(),
            0 <= j < pre.rows().len(),
            old(self).rows() == pre.rows().remove(j),
            old(self).shadows() == pre.shadows().remove(j),
            old(self).settings_model() == pre.settings_model(),
            row@.id == pre.rows()[j].id,
            row@.content_hash == pre.rows()[j].content_hash,
            srow@ == shadow_of(row@),
        ensures
            final(self).wf(),
            0 <= p <= pre.rows().len() - 1,
            final(self).rows() == pre.rows().remove(j).insert(p as int, row@),
            final(self).shadows() == pre.shadows().remove(j).insert(p as int, shadow_of(row@)),
            final(self).settings_model() == pre.settings_model(),
    {
        proof {
            let rs = old(self).rows();
            Self::lemma_remove_keeps(pre.rows(), j);
            pre.rows().remove_ensures(j);
            pre.shadows().remove_ensures(j);
            assert forall|i: int| 0 <= i < rs.len() implies old(self).shadows()[i] == shadow_of(
                rs[i],
            ) by {
                let i0 = if i < j { i } else { i + 1 };
                assert(rs[i] == pre.rows()[i0]);
                assert(old(self).shadows()[i] == pre.shadows()[i0]);
            }
            assert(old(self).wf());
        }
        self.insert_sorted(row, srow)
    }

    /// The index of the row carrying this hash, if any.
    fn find_hash_idx(&self, hash: &str) -> (r: Option<usize>)
        ensures
            match r {
                Some(j) => j < self.rows().len() && self.rows()[j as int].content_hash == hash@
                    && has_hash(self.rows(), hash@),
                None => !has_hash(self.rows(), hash@),
            },
    {
        let mut i: usize = 0;
        while i < self.items.len()
            invariant
                i <= self.items@.len(),
                forall|k: int| 0 <= k < i ==> self.rows()[k].content_hash != hash@,
            decreases self.items@.len() - i,
        {
            if str_eq(self.items[i].content_hash.as_str(), hash) {
                proof {
                    assert(self.rows()[i as int].content_hash == hash@);
                }
                return Some(i);
            }
            i = i + 1;
        }
        None
    }

    /// Look up an item by content hash; if found, refresh its recency
    /// timestamp and return its id in the same step, so a duplicate
    /// submission collapses onto the existing row.
    pub fn find_and_bump_by_hash(&mut self, hash: &str, now: u64) -> (r: Option<String>)
        requires
            old(self).wf(),
        ensures
            final(self).wf(),
            r is Some <==> has_hash(old(self).rows(), hash@),
            r is None ==> *final(self) == *old(self),
            r is Some ==> {
                let j = idx_of_hash(old(self).rows(), hash@);
                &&& 0 <= j < old(self).rows().len()
                &&& old(self).rows()[j].content_hash == hash@
                &&& r->Some_0@ == old(self).rows()[j].id
                &&& bump_transition(
                    old(self).rows(),
                    final(self).rows(),
                    old(self).shadows(),
                    final(self).shadows(),
                    hash@,
                    now,
                )
            },
            final(self).settings_model() == old(self).settings_model(),
    {
        let ghost pre = *self;
        let found = self.find_hash_idx(hash);
        let j: usize = match found {
            None => {
                return None;
            },
            Some(j) => j,
        };
        proof {
            assert(pre.rows()[j as int].content_hash == hash@);
            assert(has_hash(pre.rows(), hash@));
            // the found index is the unique one carrying the hash
            let jj = idx_of_hash(pre.rows(), hash@);
            assert(0 <= jj < pre.rows().len() && pre.rows()[jj].content_hash == hash@);
            if jj != j as int {
                assert(false);
            }
            lemma_views_remove(self.items@, j as int);
            lemma_views_remove(self.shadow@, j as int);
            pre.rows().remove_ensures(j as int);
            pre.shadows().remove_ensures(j as int);
        }
        let mut row = self.items.remove(j);
        let srow = self.shadow.remove(j);
        let rid = row.id.clone();
        row.updated_at = now;
        proof {
            assert(row@ == bumped(pre.rows()[j as int], now));
            assert(srow@ == pre.shadows()[j as int]);
            assert(pre.shadows()[j as int] == shadow_of(pre.rows()[j as int]));
            assert(srow@ == shadow_of(row@));
        }
        let p = self.reinsert_removed(row, srow, Ghost(pre), Ghost(j as int));
        proof {
            assert(final(self).rows() == old(self).rows().remove(j as int).insert(
                p as int,
                bumped(old(self).rows()[j as int], now),
            ));
        }
        Some(rid)
    }

    /// Insert a new item under the given id: within one step the item
    /// row and its shadow row appear together, or neither does.  An id
    /// already in use fails the write and changes nothing.
    pub fn insert_item_with_id(&mut self, id: String, new: NewClipboardItem, now: u64) -> (r:
        Result<String, StoreError>)
        requires
            old(self).wf(),
            !has_hash(old(self).rows(), new.content_hash@),
        ensures
            final(self).wf(),
            r is Ok <==> !has_id(old(self).rows(), id@),
            r is Err ==> *final(self) == *old(self) && r == Err::<String, StoreError>(
                StoreError::Storage,
            ),
            r is Ok ==> {
                &&& r->Ok_0@ == id@
                &&& insert_transition(
                    old(self).rows(),
                    final(self).rows(),
                    old(self).shadows(),
                    final(self).shadows(),
                    new@,
                    id@,
                    now,
                )
            },
            final(self).settings_model() == old(self).settings_model(),
    {
        if self.contains_id(id.as_str()) {
            return Err(StoreError::Storage);
        }
        let file_name_shadow: String = match &new.file_name {
            Some(f) => f.clone(),
            None => String::new(),
        };
        let srow = ShadowRow {
            item_id: id.clone(),
            plain_text: new.plain_text.clone(),
            file_name: file_name_shadow,
            source_app_name: new.source_app_name.clone(),
        };
        let row = StoredItem {
            id: id.clone(),
            content_type: new.content_type,
            plain_text: new.plain_text,
            rich_content: new.rich_content,
            thumbnail: new.thumbnail,
            image_path: new.image_path,
            file_path: new.file_path,
            file_name: new.file_name,
            source_app: new.source_app,
            source_app_name: new.source_app_name,
            content_size: new.content_size,
            content_hash: new.content_hash,
            is_favorited: false,
            created_at: now,
            updated_at: now,
        };
        proof {
            assert(row@ == stored_of_new(new@, id@, now));
            assert(srow@ == shadow_of(row@));
        }
        let p = self.insert_sorted(row, srow);
        proof {
            assert(final(self).rows() == old(self).rows().insert(
                p as int,
                stored_of_new(new@, id@, now),
            ));
        }
        Ok(id)
    }

    /// Insert a new item under a fresh random id.  The id generator
    /// gives no uniqueness pledge, so a collision surfaces as a failed
    /// write, exactly as a duplicate key would in a table.
    pub fn insert_item(&mut self, new: NewClipboardItem, now: u64) -> (r: Result<
        String,
        StoreError,
    >)
        requires
            old(self).wf(),
            !has_hash(old(self).rows(), new.content_hash@),
        ensures
            final(self).wf(),
            r is Err ==> *final(self) == *old(self) && r == Err::<String, StoreError>(
                StoreError::Storage,
            ),
            r is Ok ==> insert_transition(
                old(self).rows(),
                final(self).rows(),
                old(self).shadows(),
                final(self).shadows(),
                new@,
                r->Ok_0@,
                now,
            ),
            final(self).settings_model() == old(self).settings_model(),
    {
        let id = new_uuid();
        self.insert_item_with_id(id, new, now)
    }

    /// The index of the row carrying this id, if any.
    fn find_id_idx(&self, id: &str) -> (r: Option<usize>)
        ensures
            match r {
                Some(j) => j < self.rows().len() && self.rows()[j as int].id == id@ && has_id(
                    self.rows(),
                    id@,
                ),
                None => !has_id(self.rows(), id@),
            },
    {
        let mut i: usize = 0;
        while i < self.items.len()
            invariant
                i <= self.items@.len(),
                forall|k: int| 0 <= k < i ==> self.rows()[k].id != id@,
            decreases self.items@.len() - i,
        {
            if str_eq(self.items[i].id.as_str(), id) {
                proof {
                    assert(self.rows()[i as int].id == id@);
                }
                return Some(i);
            }
            i = i + 1;
        }
        None
    }

    /// Delete an item: its row and its shadow row go together in one
    /// step.  Deleting an absent id changes nothing.
    pub fn delete_item(&mut self, id: &str)
        requires
            old(self).wf(),
        ensures
            final(self).wf(),
            !has_id(old(self).rows(), id@) ==> *final(self) == *old(self),
            has_id(old(self).rows(), id@) ==> {
                let j = idx_of_id(old(self).rows(), id@);
                &&& 0 <= j < old(self).rows().len()
                &&& old(self).rows()[j].id == id@
                &&& final(self).rows() == old(self).rows().remove(j)
                &&& final(self).shadows() == old(self).shadows().remove(j)
            },
            final(self).settings_model() == old(self).settings_model(),
    {
        let ghost pre = *self;
        let j: usize = match self.find_id_idx(id) {
            None => {
                return ;
            },
            Some(j) => j,
        };
        proof {
            let jj = idx_of_id(pre.rows(), id@);
            assert(0 <= jj < pre.rows().len() && pre.rows()[jj].id == id@);
            if jj != j as int {
                assert(false);
            }
            lemma_views_remove(self.items@, j as int);
            lemma_views_remove(self.shadow@, j as int);
            Self::lemma_remove_keeps(pre.rows(), j as int);
            pre.rows().remove_ensures(j as int);
            pre.shadows().remove_ensures(j as int);
        }
        let _row = self.items.remove(j);
        let _srow = self.shadow.remove(j);
        proof {
            let rs = self.rows();
            assert forall|i: int| 0 <= i < rs.len() implies self.shadows()[i] == shadow_of(
                rs[i],
            ) by {
                let i0 = if i < j as int {
                    i
                } else {
                    i + 1
                };
                assert(rs[i] == pre.rows()[i0]);
                assert(self.shadows()[i] == pre.shadows()[i0]);
            }
            assert(self.settings_model() =~= pre.settings_model());
        }
    }

    /// Toggle an item's favorite flag, refreshing its recency; an absent
    /// id is reported as such.
    pub fn toggle_favorite(&mut self, id: &str, now: u64) -> (r: Result<bool, StoreError>)
        requires
            old(self).wf(),
        ensures
            final(self).wf(),
            r is Ok <==> has_id(old(self).rows(), id@),
            r is Err ==> *final(self) == *old(self) && r == Err::<bool, StoreError>(
                StoreError::NotFound,
            ),
            r is Ok ==> {
                let j = idx_of_id(old(self).rows(), id@);
                let updated = with_favorite(old(self).rows()[j], r->Ok_0, now);
                &&& 0 <= j < old(self).rows().len()
                &&& r->Ok_0 == !old(self).rows()[j].is_favorited
                &&& exists|p: int|
                    {
                        &&& 0 <= p <= old(self).rows().len() - 1
                        &&& #[trigger] final(self).rows() == old(self).rows().remove(j).insert(
                            p,
                            updated,
                        )
                        &&& final(self).shadows() == old(self).shadows().remove(j).insert(
                            p,
                            shadow_of(updated),
                        )
                    }
            },
            final(self).settings_model() == old(self).settings_model(),
    {
        let ghost pre = *self;
        let j: usize = match self.find_id_idx(id) {
            None => {
                return Err(StoreError::NotFound);
            },
            Some(j) => j,
        };
        proof {
            let jj = idx_of_id(pre.rows(), id@);
            assert(0 <= jj < pre.rows().len() && pre.rows()[jj].id == id@);
            if jj != j as int {
                assert(false);
            }
            lemma_views_remove(self.items@, j as int);
            lemma_views_remove(self.shadow@, j as int);
            pre.rows().remove_ensures(j as int);
            pre.shadows().remove_ensures(j as int);
        }
        let mut row = self.items.remove(j);
        let srow = self.shadow.remove(j);
        let new_flag = !row.is_favorited;
        row.is_favorited = new_flag;
        row.updated_at = now;
        proof {
            assert(row@ == with_favorite(pre.rows()[j as int], new_flag, now));
            assert(srow@ == pre.shadows()[j as int]);
            assert(pre.shadows()[j as int] == shadow_of(pre.rows()[j as int]));
            assert(srow@ == shadow_of(row@));
        }
        let p = self.reinsert_removed(row, srow, Ghost(pre), Ghost(j as int));
        proof {
            let updated = with_favorite(pre.rows()[j as int], new_flag, now);
            assert(exists|q: int|
                {
                    &&& 0 <= q <= pre.rows().len() - 1
                    &&& #[trigger] final(self).rows() == pre.rows().remove(j as int).insert(
                        q,
                        updated,
                    )
                    &&& final(self).shadows() == pre.shadows().remove(j as int).insert(
                        q,
                        shadow_of(updated),
                    )
                }) by {
                assert(final(self).rows() == pre.rows().remove(j as int).insert(
                    p as int,
                    updated,
                ));
            }
        }
        Ok(new_flag)
    }

    /// Fill in an item's thumbnail, refreshing its recency; an absent id
    /// is reported as such.
    pub fn update_thumbnail(&mut self, id: &str, thumbnail: Vec<u8>, now: u64) -> (r: Result<
        (),
        StoreError,
    >)
        requires
            old(self).wf(),
        ensures
            final(self).wf(),
            r is Ok <==> has_id(old(self).rows(), id@),
            r is Err ==> *final(self) == *old(self) && r == Err::<(), StoreError>(
                StoreError::NotFound,
            ),
            r is Ok ==> {
                let j = idx_of_id(old(self).rows(), id@);
                let updated = with_thumbnail(old(self).rows()[j], thumbnail@, now);
                &&& 0 <= j < old(self).rows().len()
                &&& exists|p: int|
                    {
                        &&& 0 <= p <= old(self).rows().len() - 1
                        &&& #[trigger] final(self).rows() == old(self).rows().remove(j).insert(
                            p,
                            updated,
                        )
                        &&& final(self).shadows() == old(self).shadows().remove(j).insert(
                            p,
                            shadow_of(updated),
                        )
                    }
            },
            final(self).settings_model() == old(self).settings_model(),
    {
        let ghost pre = *self;
        let j: usize = match self.find_id_idx(id) {
            None => {
                return Err(StoreError::NotFound);
            },
            Some(j) => j,
        };
        proof {
            let jj = idx_of_id(pre.rows(), id@);
            assert(0 <= jj < pre.rows().len() && pre.rows()[jj].id == id@);
            if jj != j as int {
                assert(false);
            }
            lemma_views_remove(self.items@, j as int);
            lemma_views_remove(self.shadow@, j as int);
            pre.rows().remove_ensures(j as int);
            pre.shadows().remove_ensures(j as int);
        }
        let mut row = self.items.remove(j);
        let srow = self.shadow.remove(j);
        row.thumbnail = Some(thumbnail);
        row.updated_at = now;
        proof {
            assert(thumbnail.deep_view() =~= thumbnail@);
            assert(row@ == with_thumbnail(pre.rows()[j as int], thumbnail@, now));
            assert(srow@ == pre.shadows()[j as int]);
            assert(pre.shadows()[j as int] == shadow_of(pre.rows()[j as int]));
            assert(srow@ == shadow_of(row@));
        }
        let p = self.reinsert_removed(row, srow, Ghost(pre), Ghost(j as int));
        proof {
            let updated = with_thumbnail(pre.rows()[j as int], thumbnail@, now);
            assert(final(self).rows() == old(self).rows().remove(j as int).insert(
                p as int,
                updated,
            ));
            assert(final(self).shadows() == old(self).shadows().remove(j as int).insert(
                p as int,
                shadow_of(updated),
            ));
        }
        Ok(())
    }
}

/// Relies on `uuid::Uuid::new_v4` and its hyphenated string form: a
/// fresh random identifier, 36 characters long; nothing is assumed about
/// which identifier comes back.
#[verifier::external_body]
fn new_uuid() -> (r: String)
    ensures
        r@.len() == 36,
{
    uuid::Uuid::new_v4().to_string()
}

} // verus!

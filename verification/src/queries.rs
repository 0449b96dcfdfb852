//! Read accessors over the store: listing, favorites, lazy thumbnail
//! and detail lookups, image-path projections, and settings.

use vstd::prelude::*;
use vstd::utf8::{decode_utf8, valid_utf8};
use crate::content::ContentType;
use crate::models::{
    listing_of, ClipboardItem, ItemDetail, ItemDetailModel, Setting, StoredItemModel,
};
use crate::store::{has_id, idx_of_id, views_of, Store};
use crate::store::lemma_views_push;
use crate::text::str_eq;
use vstd::pervasive::VecAdditionalExecFns;

verus! {

// ---------- listing ----------

/// Whether a row passes the listing filters: an optional content-type
/// filter and, for the favorites view, the favorite flag.
pub open spec fn matches_filter(m: StoredItemModel, ct: Option<ContentType>, fav_only: bool) -> bool {
    &&& (ct is None || m.content_type == ct->0)
    &&& (!fav_only || m.is_favorited)
}

/// The listing of the first `n` rows: those passing the filters, in
/// order, projected to listing rows.
pub open spec fn listed_prefix(
    s: Seq<StoredItemModel>,
    ct: Option<ContentType>,
    fav_only: bool,
    n: int,
) -> Seq<crate::models::ItemModel>
    decreases n,
{
    if n <= 0 {
        Seq::empty()
    } else {
        listed_prefix(s, ct, fav_only, n - 1) + if matches_filter(s[n - 1], ct, fav_only) {
            seq![listing_of(s[n - 1])]
        } else {
            Seq::empty()
        }
    }
}

/// The full listing of a row sequence under the filters.
pub open spec fn listed(
    s: Seq<StoredItemModel>,
    ct: Option<ContentType>,
    fav_only: bool,
) -> Seq<crate::models::ItemModel> {
    listed_prefix(s, ct, fav_only, s.len() as int)
}

/// The page of a sequence selected by an offset and a limit, clipped to
/// the sequence's length.
pub open spec fn window<A>(s: Seq<A>, offset: int, limit: int) -> Seq<A> {
    let lo = if offset > s.len() {
        s.len() as int
    } else {
        offset
    };
    let hi = if offset + limit > s.len() {
        s.len() as int
    } else {
        offset + limit
    };
    s.subrange(lo, hi)
}

impl Store {
    /// All rows passing the filters, newest first, as listing rows.
    fn collect_listed(&self, ct: Option<ContentType>, fav_only: bool) -> (r: Vec<ClipboardItem>)
        ensures
            views_of(r@) == listed(self.rows(), ct, fav_only),
    {
        let mut all: Vec<ClipboardItem> = Vec::new();
        let mut i: usize = 0;
        proof {
            assert(views_of(all@) =~= listed_prefix(self.rows(), ct, fav_only, 0));
        }
        while i < self.items.len()
            invariant
                i <= self.items@.len(),
                views_of(all@) == listed_prefix(self.rows(), ct, fav_only, i as int),
            decreases self.items@.len() - i,
        {
            let it = &self.items[i];
            let keep: bool = (match ct {
                None => true,
                Some(c) => c == it.content_type,
            }) && (!fav_only || it.is_favorited);
            proof {
                assert(keep == matches_filter(self.rows()[i as int], ct, fav_only));
            }
            if keep {
                let li = crate::models::listing_item(it);
                proof {
                    lemma_views_push(all@, li);
                }
                all.push(li);
                proof {
                    assert(views_of(all@) =~= listed_prefix(self.rows(), ct, fav_only, i + 1));
                }
            } else {
                proof {
                    assert(views_of(all@) =~= listed_prefix(self.rows(), ct, fav_only, i + 1));
                }
            }
            i = i + 1;
        }
        all
    }

    /// Rows ordered by recency, optionally filtered by content type,
    /// paged by offset and limit; thumbnails excluded.
    pub fn get_items(&self, content_type: Option<ContentType>, limit: usize, offset: usize) -> (r:
        Vec<ClipboardItem>)
        ensures
            views_of(r@) == window(
                listed(self.rows(), content_type, false),
                offset as int,
                limit as int,
            ),
    {
        let all = self.collect_listed(content_type, false);
        page(all, limit, offset)
    }

    /// Favorited rows ordered by recency, optionally filtered by content
    /// type, paged by offset and limit; thumbnails excluded.
    pub fn get_favorited_items(
        &self,
        content_type: Option<ContentType>,
        limit: usize,
        offset: usize,
    ) -> (r: Vec<ClipboardItem>)
        ensures
            views_of(r@) == window(
                listed(self.rows(), content_type, true),
                offset as int,
                limit as int,
            ),
    {
        let all = self.collect_listed(content_type, true);
        page(all, limit, offset)
    }
}

/// The page of a listing selected by an offset and a limit.
fn page(all: Vec<ClipboardItem>, limit: usize, offset: usize) -> (r: Vec<ClipboardItem>)
    ensures
        views_of(r@) == window(views_of(all@), offset as int, limit as int),
{
    let n = all.len();
    let lo = if offset > n {
        n
    } else {
        offset
    };
    let remaining = n - lo;
    let cnt = if limit > remaining {
        remaining
    } else {
        limit
    };
    let hi = lo + cnt;
    let mut out: Vec<ClipboardItem> = Vec::new();
    let mut k = lo;
    proof {
        assert(views_of(out@) =~= views_of(all@).subrange(lo as int, lo as int));
    }
    while k < hi
        invariant
            lo <= k <= hi <= all@.len(),
            views_of(out@) == views_of(all@).subrange(lo as int, k as int),
        decreases hi - k,
    {
        let c = all[k].clone();
        proof {
            lemma_views_push(out@, c);
        }
        out.push(c);
        proof {
            assert(views_of(out@) =~= views_of(all@).subrange(lo as int, k + 1 as int));
        }
        k = k + 1;
    }
    proof {
        assert(views_of(out@) == window(views_of(all@), offset as int, limit as int));
    }
    out
}

// ---------- single-row accessors ----------

impl Store {
    /// The thumbnail blob of an item, if the item exists and has one.
    pub fn get_thumbnail(&self, id: &str) -> (r: Option<Vec<u8>>)
        requires
            self.wf(),
        ensures
            r.deep_view() == if has_id(self.rows(), id@) {
                self.rows()[idx_of_id(self.rows(), id@)].thumbnail
            } else {
                None::<Seq<u8>>
            },
    {
        match self.index_of_id(id) {
            None => None,
            Some(j) => crate::models::clone_opt_bytes(&self.items[j].thumbnail),
        }
    }

    /// The image path of an item, if the item exists and has one.
    pub fn get_image_path_by_id(&self, id: &str) -> (r: Option<String>)
        requires
            self.wf(),
        ensures
            r.deep_view() == if has_id(self.rows(), id@) {
                self.rows()[idx_of_id(self.rows(), id@)].image_path
            } else {
                None::<Seq<char>>
            },
    {
        match self.index_of_id(id) {
            None => None,
            Some(j) => crate::models::clone_opt_string(&self.items[j].image_path),
        }
    }

    /// The fields a paste needs, by id: content type, plain text, rich
    /// content, image path and file path.
    pub fn get_item_by_id(&self, id: &str) -> (r: Option<
        (ContentType, String, Option<Vec<u8>>, Option<String>, Option<String>),
    >)
        requires
            self.wf(),
        ensures
            r is Some <==> has_id(self.rows(), id@),
            r is Some ==> {
                let m = self.rows()[idx_of_id(self.rows(), id@)];
                let t = r->0;
                &&& t.0 == m.content_type
                &&& t.1@ == m.plain_text
                &&& t.2.deep_view() == m.rich_content
                &&& t.3.deep_view() == m.image_path
                &&& t.4.deep_view() == m.file_path
            },
    {
        match self.index_of_id(id) {
            None => None,
            Some(j) => {
                let it = &self.items[j];
                Some(
                    (
                        it.content_type,
                        it.plain_text.clone(),
                        crate::models::clone_opt_bytes(&it.rich_content),
                        crate::models::clone_opt_string(&it.image_path),
                        crate::models::clone_opt_string(&it.file_path),
                    ),
                )
            },
        }
    }

    /// Full item detail for preview, with the rich-content blob decoded
    /// to text.
    pub fn get_item_detail(&self, id: &str) -> (r: Option<ItemDetail>)
        requires
            self.wf(),
        ensures
            r is Some <==> has_id(self.rows(), id@),
            r is Some ==> r->0@ == detail_of(self.rows()[idx_of_id(self.rows(), id@)]),
    {
        match self.index_of_id(id) {
            None => None,
            Some(j) => {
                let it = &self.items[j];
                let rich: Option<String> = match &it.rich_content {
                    None => None,
                    Some(b) => {
                        proof {
                            assert(b.deep_view() =~= b@);
                        }
                        Some(utf8_lossy(b.as_slice()))
                    },
                };
                Some(
                    ItemDetail {
                        id: it.id.clone(),
                        content_type: it.content_type,
                        plain_text: it.plain_text.clone(),
                        rich_content: rich,
                        image_path: crate::models::clone_opt_string(&it.image_path),
                        file_path: crate::models::clone_opt_string(&it.file_path),
                        file_name: crate::models::clone_opt_string(&it.file_name),
                        content_size: it.content_size,
                    },
                )
            },
        }
    }

    /// The index of the row carrying this id, if any.
    pub fn index_of_id(&self, id: &str) -> (r: Option<usize>)
        requires
            self.wf(),
        ensures
            match r {
                Some(j) => j == idx_of_id(self.rows(), id@) && j < self.rows().len()
                    && self.rows()[j as int].id == id@ && has_id(self.rows(), id@),
                None => !has_id(self.rows(), id@),
            },
    {
        let mut i: usize = 0;
        while i < self.items.len()
            invariant
                self.wf(),
                i <= self.items@.len(),
                forall|k: int| 0 <= k < i ==> self.rows()[k].id != id@,
            decreases self.items@.len() - i,
        {
            if str_eq(self.items[i].id.as_str(), id) {
                proof {
                    assert(self.rows()[i as int].id == id@);
                    let jj = idx_of_id(self.rows(), id@);
                    assert(0 <= jj < self.rows().len() && self.rows()[jj].id == id@);
                    if jj != i as int {
                        assert(false);
                    }
                }
                return Some(i);
            }
            i = i + 1;
        }
        None
    }
}

// ---------- rich-content decoding ----------

/// What `String::from_utf8_lossy` returns: a function of the bytes
/// alone.
pub uninterp spec fn lossy_of(bytes: Seq<u8>) -> Seq<char>;

/// Relies on `String::from_utf8_lossy`: the result depends on the bytes
/// alone, and valid UTF-8 decodes unchanged.
#[verifier::external_body]
pub(crate) fn utf8_lossy(bytes: &[u8]) -> (r: String)
    ensures
        r@ == lossy_of(bytes@),
        valid_utf8(bytes@) ==> r@ == decode_utf8(bytes@),
{
    String::from_utf8_lossy(bytes).to_string()
}

/// The detail projection of a stored row, with the rich-content blob
/// decoded to text.
pub open spec fn detail_of(m: StoredItemModel) -> ItemDetailModel {
    ItemDetailModel {
        id: m.id,
        content_type: m.content_type,
        plain_text: m.plain_text,
        rich_content: match m.rich_content {
            None => None,
            Some(b) => Some(lossy_of(b)),
        },
        image_path: m.image_path,
        file_path: m.file_path,
        file_name: m.file_name,
        content_size: m.content_size,
    }
}

// ---------- settings ----------

/// The value stored under a settings key, if any.
pub open spec fn setting_of(s: Seq<(Seq<char>, Seq<char>)>, key: Seq<char>) -> Option<Seq<char>> {
    if exists|i: int| 0 <= i < s.len() && s[i].0 == key {
        Some(s[choose|i: int| 0 <= i < s.len() && s[i].0 == key].1)
    } else {
        None
    }
}

impl Store {
    /// Read a setting by key.
    pub fn get_setting(&self, key: &str) -> (r: Option<String>)
        requires
            self.wf(),
        ensures
            r.deep_view() == setting_of(self.settings_model(), key@),
    {
        let mut i: usize = 0;
        while i < self.settings.len()
            invariant
                self.wf(),
                i <= self.settings@.len(),
                forall|k: int| 0 <= k < i ==> self.settings_model()[k].0 != key@,
            decreases self.settings@.len() - i,
        {
            if str_eq(self.settings[i].key.as_str(), key) {
                proof {
                    assert(self.settings_model()[i as int].0 == key@);
                }
                let v = self.settings[i].value.clone();
                proof {
                    let jj = choose|k: int|
                        0 <= k < self.settings_model().len() && self.settings_model()[k].0 == key@;
                    if jj != i as int {
                        assert(false);
                    }
                }
                return Some(v);
            }
            i = i + 1;
        }
        proof {
            if exists|k: int|
                0 <= k < self.settings_model().len() && self.settings_model()[k].0 == key@ {
                let w = choose|k: int|
                    0 <= k < self.settings_model().len() && self.settings_model()[k].0 == key@;
                assert(false);
            }
        }
        None
    }

    /// The index of the settings entry with this key, if any.
    fn find_setting_idx(&self, key: &str) -> (r: Option<usize>)
        ensures
            match r {
                Some(i) => i < self.settings_model().len() && self.settings_model()[i as int].0
                    == key@,
                None => forall|k: int|
                    0 <= k < self.settings_model().len() ==> self.settings_model()[k].0 != key@,
            },
    {
        let mut i: usize = 0;
        while i < self.settings.len()
            invariant
                i <= self.settings@.len(),
                forall|k: int| 0 <= k < i ==> self.settings_model()[k].0 != key@,
            decreases self.settings@.len() - i,
        {
            if str_eq(self.settings[i].key.as_str(), key) {
                proof {
                    assert(self.settings_model()[i as int].0 == key@);
                }
                return Some(i);
            }
            i = i + 1;
        }
        None
    }

    /// Write a setting: update the value under an existing key, or add
    /// the pair.
    pub fn set_setting(&mut self, key: String, value: String)
        requires
            old(self).wf(),
        ensures
            final(self).wf(),
            final(self).rows() == old(self).rows(),
            final(self).shadows() == old(self).shadows(),
            setting_of(final(self).settings_model(), key@) == Some(value@),
            forall|k: Seq<char>|
                k != key@ ==> #[trigger] setting_of(final(self).settings_model(), k) == setting_of(
                    old(self).settings_model(),
                    k,
                ),
    {
        let ghost pre = *self;
        let found = self.find_setting_idx(key.as_str());
        let ghost kv = key@;
        let ghost vv = value@;
        let entry = Setting { key, value };
        match found {
            Some(i) => {
                self.settings.set(i, entry);
                proof {
                    assert(self.settings_model() =~= pre.settings_model().update(
                        i as int,
                        (kv, vv),
                    ));
                    lemma_setting_update(pre, *self, i as int, kv, vv);
                }
            },
            None => {
                proof {
                    lemma_views_push(self.settings@, entry);
                }
                self.settings.push(entry);
                proof {
                    lemma_setting_append(pre, *self, kv, vv);
                }
            },
        }
    }

    /// All settings entries as key-value pairs.
    pub fn get_all_settings(&self) -> (r: Vec<(String, String)>)
        ensures
            r@.len() == self.settings_model().len(),
            forall|i: int|
                0 <= i < r@.len() ==> (#[trigger] r@[i].0@, r@[i].1@) == self.settings_model()[i],
    {
        let mut out: Vec<(String, String)> = Vec::new();
        let mut i: usize = 0;
        while i < self.settings.len()
            invariant
                i <= self.settings@.len(),
                out@.len() == i,
                forall|k: int|
                    0 <= k < i ==> (#[trigger] out@[k].0@, out@[k].1@) == self.settings_model()[k],
            decreases self.settings@.len() - i,
        {
            let s = &self.settings[i];
            out.push((s.key.clone(), s.value.clone()));
            i = i + 1;
        }
        out
    }
}

proof fn lemma_setting_update(pre: Store, post: Store, i: int, key: Seq<char>, value: Seq<char>)
    requires
        pre.wf(),
        0 <= i < pre.settings_model().len(),
        pre.settings_model()[i].0 == key,
        post.settings_model() == pre.settings_model().update(i, (key, value)),
        post.rows() == pre.rows(),
        post.shadows() == pre.shadows(),
    ensures
        post.wf(),
        setting_of(post.settings_model(), key) == Some(value),
        forall|k: Seq<char>|
            k != key ==> #[trigger] setting_of(post.settings_model(), k) == setting_of(
                pre.settings_model(),
                k,
            ),
{
    let sm = post.settings_model();
    let pm = pre.settings_model();
    assert forall|a: int, b: int| 0 <= a < b < sm.len() implies sm[a].0 != sm[b].0 by {
        assert(pm[a].0 == if a == i {
            key
        } else {
            sm[a].0
        });
    }
    assert(sm[i].0 == key);
    let w = choose|k: int| 0 <= k < sm.len() && sm[k].0 == key;
    assert(sm[w].0 == key);
    if w != i {
        assert(pm[w].0 == sm[w].0);
        assert(pm[i].0 == key);
        assert(false);
    }
    assert forall|k: Seq<char>| k != key implies #[trigger] setting_of(sm, k) == setting_of(
        pm,
        k,
    ) by {
        lemma_setting_frame(pm, sm, i, k);
    }
}

proof fn lemma_setting_frame(
    pm: Seq<(Seq<char>, Seq<char>)>,
    sm: Seq<(Seq<char>, Seq<char>)>,
    i: int,
    k: Seq<char>,
)
    requires
        crate::store::unique_keys(pm),
        sm.len() == pm.len(),
        0 <= i < pm.len(),
        forall|a: int| 0 <= a < pm.len() && a != i ==> pm[a] == sm[a],
        k != pm[i].0,
        k != sm[i].0,
    ensures
        setting_of(sm, k) == setting_of(pm, k),
{
    if exists|a: int| 0 <= a < sm.len() && sm[a].0 == k {
        let a = choose|a: int| 0 <= a < sm.len() && sm[a].0 == k;
        assert(pm[a].0 == k);
        assert(exists|b: int| 0 <= b < pm.len() && pm[b].0 == k);
    }
    if exists|a: int| 0 <= a < pm.len() && pm[a].0 == k {
        let a = choose|a: int| 0 <= a < pm.len() && pm[a].0 == k;
        assert(sm[a].0 == k);
        assert(exists|b: int| 0 <= b < sm.len() && sm[b].0 == k);
    }
    if setting_of(sm, k) is Some {
        let a = choose|a: int| 0 <= a < sm.len() && sm[a].0 == k;
        let b = choose|b: int| 0 <= b < pm.len() && pm[b].0 == k;
        assert(pm[a].0 == k);
        if a != b {
            assert(false);
        }
        assert(sm[a] == pm[a]);
    }
}

proof fn lemma_setting_append(pre: Store, post: Store, key: Seq<char>, value: Seq<char>)
    requires
        pre.wf(),
        forall|k: int| 0 <= k < pre.settings_model().len() ==> pre.settings_model()[k].0 != key,
        post.settings_model() == pre.settings_model().push((key, value)),
        post.rows() == pre.rows(),
        post.shadows() == pre.shadows(),
    ensures
        post.wf(),
        setting_of(post.settings_model(), key) == Some(value),
        forall|k: Seq<char>|
            k != key ==> #[trigger] setting_of(post.settings_model(), k) == setting_of(
                pre.settings_model(),
                k,
            ),
{
    let sm = post.settings_model();
    let pm = pre.settings_model();
    assert forall|a: int, b: int| 0 <= a < b < sm.len() implies sm[a].0 != sm[b].0 by {
        if b == sm.len() - 1 {
            assert(sm[a] == pm[a]);
        } else {
            assert(sm[a] == pm[a]);
            assert(sm[b] == pm[b]);
        }
    }
    assert(sm[sm.len() - 1].0 == key);
    let w = choose|k: int| 0 <= k < sm.len() && sm[k].0 == key;
    if w != sm.len() - 1 {
        assert(sm[w] == pm[w]);
        assert(false);
    }
    assert forall|k: Seq<char>| k != key implies #[trigger] setting_of(sm, k) == setting_of(
        pm,
        k,
    ) by {
        if exists|a: int| 0 <= a < sm.len() && sm[a].0 == k {
            let a = choose|a: int| 0 <= a < sm.len() && sm[a].0 == k;
            assert(a != sm.len() - 1);
            assert(sm[a] == pm[a]);
            assert(exists|b: int| 0 <= b < pm.len() && pm[b].0 == k);
            let b = choose|b: int| 0 <= b < pm.len() && pm[b].0 == k;
            assert(pm[b] == sm[b]);
        } else {
            if exists|a: int| 0 <= a < pm.len() && pm[a].0 == k {
                let a = choose|a: int| 0 <= a < pm.len() && pm[a].0 == k;
                assert(sm[a] == pm[a]);
                assert(false);
            }
        }
    }
}

} // verus!

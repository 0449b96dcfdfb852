//! Laws of the store, stated over the spec functions its contracts use:
//! duplicate ingestion collapses onto one row, deletion silences search,
//! clearing the history spares exactly the favorites, and the retention
//! boundaries fall where the policies say.

use vstd::prelude::*;
use crate::hashing::sha256_hex;
use crate::models::{
    bumped, shadow_of, stored_of_new, NewItemModel, ShadowModel, StoredItemModel,
};
use crate::retention::{
    condemned, fav_pred, favorites_only, kept_prefix, nonfav_rank, retain_pred, retained,
    RetentionPolicy, SECONDS_PER_DAY,
};
use crate::search::{phrase_hits, phrase_hits_prefix, search_spec, shadow_matches, take_up_to};
use crate::content::ContentType;
use crate::queries::listed;
use crate::store::{
    bump_transition, has_hash, idx_of_hash, insert_transition, unique_hashes, unique_ids,
};

verus! {

// ---------- hashing ----------

/// The content hash is deterministic: equal byte sequences give equal
/// digests.
pub proof fn lemma_hash_deterministic(a: Seq<u8>, b: Seq<u8>)
    requires
        a == b,
    ensures
        sha256_hex(a) == sha256_hex(b),
{
}

// ---------- duplicate ingestion ----------

/// Ingesting identical bytes twice yields exactly one stored row: after
/// a fresh ingestion stores the bytes under some id, a second ingestion
/// of the same bytes performs a bump, not an insert — the row count is
/// unchanged, the id the bump resolves is the id the insert returned,
/// and the row's recency timestamp becomes the second ingestion's time,
/// strictly later than before whenever time moved forward.
pub proof fn lemma_duplicate_ingest_collapses(
    s0: Seq<StoredItemModel>,
    s1: Seq<StoredItemModel>,
    s2: Seq<StoredItemModel>,
    sh0: Seq<ShadowModel>,
    sh1: Seq<ShadowModel>,
    sh2: Seq<ShadowModel>,
    payload: NewItemModel,
    content: Seq<u8>,
    id1: Seq<char>,
    now1: u64,
    now2: u64,
)
    requires
        payload.content_hash == sha256_hex(content),
        !has_hash(s0, sha256_hex(content)),
        unique_hashes(s1),
        insert_transition(s0, s1, sh0, sh1, payload, id1, now1),
        bump_transition(s1, s2, sh1, sh2, sha256_hex(content), now2),
    ensures
        s2.len() == s1.len(),
        s1[idx_of_hash(s1, sha256_hex(content))].id == id1,
        has_hash(s2, sha256_hex(content)),
        s2[idx_of_hash(s2, sha256_hex(content))] == bumped(
            s1[idx_of_hash(s1, sha256_hex(content))],
            now2,
        ),
        s2[idx_of_hash(s2, sha256_hex(content))].updated_at == now2,
        s1[idx_of_hash(s1, sha256_hex(content))].updated_at == now1,
        now2 > now1 ==> s2[idx_of_hash(s2, sha256_hex(content))].updated_at > s1[idx_of_hash(
            s1,
            sha256_hex(content),
        )].updated_at,
{
    let h = sha256_hex(content);
    let row = stored_of_new(payload, id1, now1);
    let p = choose|p: int|
        {
            &&& 0 <= p <= s0.len()
            &&& s1 == #[trigger] s0.insert(p, row)
            &&& sh1 == sh0.insert(p, shadow_of(row))
        };
    s0.insert_ensures(p, row);
    assert(s1[p] == row);
    assert(s1[p].content_hash == h);
    assert(has_hash(s1, h));
    let j = idx_of_hash(s1, h);
    assert(0 <= j < s1.len() && s1[j].content_hash == h);
    if j != p {
        assert(false);
    }
    assert(s1[j].id == id1);
    assert(s1[j].updated_at == now1);
    let q = choose|q: int|
        {
            &&& 0 <= q <= s1.len() - 1
            &&& s2 == #[trigger] s1.remove(j).insert(q, bumped(s1[j], now2))
            &&& sh2 == sh1.remove(j).insert(q, shadow_of(s1[j]))
        };
    s1.remove_ensures(j);
    s1.remove(j).insert_ensures(q, bumped(s1[j], now2));
    assert(s2.len() == s1.len());
    assert(s2[q] == bumped(s1[j], now2));
    assert(s2[q].content_hash == h);
    assert(has_hash(s2, h));
    // the hash occurs nowhere else: every other row comes from s1 without j
    assert forall|i: int| 0 <= i < s2.len() && i != q implies s2[i].content_hash != h by {
        let i0 = if i < q {
            i
        } else {
            i - 1
        };
        assert(s2[i] == s1.remove(j)[i0]);
        let i1 = if i0 < j {
            i0
        } else {
            i0 + 1
        };
        assert(s1.remove(j)[i0] == s1[i1]);
    }
    let j2 = idx_of_hash(s2, h);
    assert(0 <= j2 < s2.len() && s2[j2].content_hash == h);
    if j2 != q {
        assert(false);
    }
    assert(s2[j2].updated_at == now2);
}

/// A dedup bump strictly advances the row's recency whenever the clock
/// moved: the bumped row is the old row with its timestamp set to `now`,
/// the row count is unchanged, and every other row is carried over.
pub proof fn lemma_bump_strictly_advances(
    s1: Seq<StoredItemModel>,
    s2: Seq<StoredItemModel>,
    sh1: Seq<ShadowModel>,
    sh2: Seq<ShadowModel>,
    h: Seq<char>,
    now: u64,
)
    requires
        unique_hashes(s1),
        bump_transition(s1, s2, sh1, sh2, h, now),
    ensures
        s2.len() == s1.len(),
        has_hash(s2, h),
        s2[idx_of_hash(s2, h)] == bumped(s1[idx_of_hash(s1, h)], now),
        s2[idx_of_hash(s2, h)].updated_at == now,
        s1[idx_of_hash(s1, h)].updated_at < now ==> s2[idx_of_hash(s2, h)].updated_at > s1[
            idx_of_hash(s1, h)
        ].updated_at,
{
    let j = idx_of_hash(s1, h);
    let q = choose|q: int|
        {
            &&& 0 <= q <= s1.len() - 1
            &&& s2 == #[trigger] s1.remove(j).insert(q, bumped(s1[j], now))
            &&& sh2 == sh1.remove(j).insert(q, shadow_of(s1[j]))
        };
    s1.remove_ensures(j);
    s1.remove(j).insert_ensures(q, bumped(s1[j], now));
    assert(s2.len() == s1.len());
    assert(s2[q] == bumped(s1[j], now));
    assert(s2[q].content_hash == h);
    assert(has_hash(s2, h));
    assert forall|i: int| 0 <= i < s2.len() && i != q implies s2[i].content_hash != h by {
        let i0 = if i < q {
            i
        } else {
            i - 1
        };
        assert(s2[i] == s1.remove(j)[i0]);
        let i1 = if i0 < j {
            i0
        } else {
            i0 + 1
        };
        assert(s1.remove(j)[i0] == s1[i1]);
    }
    let j2 = idx_of_hash(s2, h);
    assert(0 <= j2 < s2.len() && s2[j2].content_hash == h);
    if j2 != q {
        assert(false);
    }
}

// ---------- selection membership ----------

/// A row stands in a selected subsequence exactly when the selector
/// keeps its index; row ids must be unique for the backward direction.
pub proof fn lemma_kept_membership(
    s: Seq<StoredItemModel>,
    keep: spec_fn(Seq<StoredItemModel>, int) -> bool,
    n: int,
    i: int,
)
    requires
        unique_ids(s),
        0 <= i < n <= s.len(),
    ensures
        kept_prefix(s, keep, n).contains(s[i]) <==> keep(s, i),
    decreases n,
{
    let cur = kept_prefix(s, keep, n);
    let prev = kept_prefix(s, keep, n - 1);
    lemma_kept_from_prefix(s, keep, n);
    if i < n - 1 {
        lemma_kept_membership(s, keep, n - 1, i);
        if keep(s, i) {
            let k = choose|k: int| 0 <= k < prev.len() && prev[k] == s[i];
            if keep(s, n - 1) {
                assert(cur[k] == s[i]);
            } else {
                assert(cur =~= prev);
            }
            assert(cur.contains(s[i]));
        } else {
            if cur.contains(s[i]) {
                let k = choose|k: int| 0 <= k < cur.len() && cur[k] == s[i];
                if keep(s, n - 1) && k == cur.len() - 1 {
                    // the appended row would be a second row with this id
                    assert(cur[k] == s[n - 1]);
                    assert(s[n - 1].id == s[i].id);
                    assert(false);
                } else {
                    assert(cur[k] == prev[k]);
                    assert(prev.contains(s[i]));
                    assert(false);
                }
            }
        }
    } else {
        // i == n - 1
        if keep(s, i) {
            assert(cur[cur.len() - 1] == s[i]);
            assert(cur.contains(s[i]));
        } else {
            assert(cur =~= prev);
            if cur.contains(s[i]) {
                let k = choose|k: int| 0 <= k < prev.len() && prev[k] == s[i];
                lemma_kept_source(s, keep, n - 1, k);
                let j = choose|j: int|
                    0 <= j < n - 1 && #[trigger] prev[k] == s[j] && keep(s, j);
                assert(s[j].id == s[i].id);
                assert(false);
            }
        }
    }
}

/// Every row of a selected subsequence comes from the prefix selected
/// over.
proof fn lemma_kept_source(
    s: Seq<StoredItemModel>,
    keep: spec_fn(Seq<StoredItemModel>, int) -> bool,
    n: int,
    k: int,
)
    requires
        0 <= n <= s.len(),
        0 <= k < kept_prefix(s, keep, n).len(),
    ensures
        exists|j: int| 0 <= j < n && #[trigger] kept_prefix(s, keep, n)[k] == s[j] && keep(s, j),
    decreases n,
{
    let cur = kept_prefix(s, keep, n);
    let prev = kept_prefix(s, keep, n - 1);
    if n > 0 {
        if keep(s, n - 1) && k == cur.len() - 1 {
            assert(cur[k] == s[n - 1]);
        } else {
            assert(cur[k] == prev[k]);
            lemma_kept_source(s, keep, n - 1, k);
            let j = choose|j: int| 0 <= j < n - 1 && prev[k] == s[j] && keep(s, j);
            assert(cur[k] == s[j]);
        }
    }
}

proof fn lemma_kept_from_prefix(
    s: Seq<StoredItemModel>,
    keep: spec_fn(Seq<StoredItemModel>, int) -> bool,
    n: int,
)
    requires
        0 < n <= s.len(),
    ensures
        keep(s, n - 1) ==> kept_prefix(s, keep, n) == kept_prefix(s, keep, n - 1) + seq![
            s[n - 1],
        ],
        !keep(s, n - 1) ==> kept_prefix(s, keep, n) == kept_prefix(s, keep, n - 1),
{
    if !keep(s, n - 1) {
        assert(kept_prefix(s, keep, n) =~= kept_prefix(s, keep, n - 1));
    }
}

// ---------- clearing the history ----------

/// The count of non-favorited rows among the first `n`.
pub open spec fn nonfav_total(s: Seq<StoredItemModel>) -> int {
    nonfav_rank(s, s.len() as int)
}

proof fn lemma_fav_only_len(s: Seq<StoredItemModel>, n: int)
    requires
        0 <= n <= s.len(),
    ensures
        kept_prefix(s, fav_pred(), n).len() == n - nonfav_rank(s, n),
    decreases n,
{
    if n > 0 {
        lemma_fav_only_len(s, n - 1);
    }
}

/// Clearing the history removes every non-favorited row and nothing
/// else: each favorited row stays, each non-favorited row goes, and the
/// removed count is exactly the number of non-favorited rows.
pub proof fn lemma_clear_history_exact(s: Seq<StoredItemModel>, i: int)
    requires
        unique_ids(s),
        0 <= i < s.len(),
    ensures
        favorites_only(s).contains(s[i]) <==> s[i].is_favorited,
        s.len() - favorites_only(s).len() == nonfav_total(s),
{
    lemma_kept_membership(s, fav_pred(), s.len() as int, i);
    lemma_fav_only_len(s, s.len() as int);
}

// ---------- retention by count ----------

/// Cleanup under a "count" policy of K keeps, among the non-favorited
/// rows, exactly the K most recently updated — the first K in recency
/// order — and removes the rest: with N non-favorited rows and N > K,
/// exactly K non-favorited rows survive and N − K rows go.
pub proof fn lemma_cleanup_count_exact(s: Seq<StoredItemModel>, k: i64, now: u64)
    requires
        k > 0,
    ensures
        ({
            let r = retained(s, RetentionPolicy::Count(k), now);
            let kept_nonfav = if nonfav_total(s) > k {
                k as int
            } else {
                nonfav_total(s)
            };
            &&& nonfav_total(r) == kept_nonfav
            &&& s.len() - r.len() == nonfav_total(s) - kept_nonfav
        }),
{
    lemma_count_retention(s, k, now, s.len() as int);
}

/// Which rows a "count" cleanup keeps: every favorited row, and exactly
/// the non-favorited rows with fewer than K non-favorited rows more
/// recent than them — the K most-recently-updated.
pub proof fn lemma_cleanup_count_membership(s: Seq<StoredItemModel>, k: i64, now: u64, i: int)
    requires
        unique_ids(s),
        k > 0,
        0 <= i < s.len(),
    ensures
        retained(s, RetentionPolicy::Count(k), now).contains(s[i]) <==> (s[i].is_favorited
            || nonfav_rank(s, i) < k),
{
    lemma_kept_membership(s, retain_pred(RetentionPolicy::Count(k), now), s.len() as int, i);
}

proof fn lemma_count_retention(s: Seq<StoredItemModel>, k: i64, now: u64, n: int)
    requires
        k > 0,
        0 <= n <= s.len(),
    ensures
        ({
            let kp = kept_prefix(s, retain_pred(RetentionPolicy::Count(k), now), n);
            let kept_nonfav = if nonfav_rank(s, n) > k {
                k as int
            } else {
                nonfav_rank(s, n)
            };
            &&& nonfav_total(kp) == kept_nonfav
            &&& n - kp.len() == nonfav_rank(s, n) - kept_nonfav
        }),
    decreases n,
{
    let keep = retain_pred(RetentionPolicy::Count(k), now);
    if n > 0 {
        lemma_count_retention(s, k, now, n - 1);
        let prev = kept_prefix(s, keep, n - 1);
        let cur = kept_prefix(s, keep, n);
        if keep(s, n - 1) {
            assert(cur == prev + seq![s[n - 1]]);
            lemma_nonfav_rank_push(prev, s[n - 1]);
        } else {
            assert(cur =~= prev);
            assert(!s[n - 1].is_favorited);
            assert(nonfav_rank(s, n) == nonfav_rank(s, n - 1) + 1);
        }
    }
}

proof fn lemma_nonfav_rank_push(t: Seq<StoredItemModel>, x: StoredItemModel)
    ensures
        nonfav_total(t + seq![x]) == nonfav_total(t) + if !x.is_favorited {
            1int
        } else {
            0int
        },
{
    let u = t + seq![x];
    assert(u.len() == t.len() + 1);
    assert(u[t.len() as int] == x);
    lemma_nonfav_rank_agree(u, t, t.len() as int);
}

proof fn lemma_nonfav_rank_agree(a: Seq<StoredItemModel>, b: Seq<StoredItemModel>, m: int)
    requires
        0 <= m <= a.len(),
        m <= b.len(),
        forall|i: int| 0 <= i < m ==> a[i] == b[i],
    ensures
        nonfav_rank(a, m) == nonfav_rank(b, m),
    decreases m,
{
    if m > 0 {
        lemma_nonfav_rank_agree(a, b, m - 1);
    }
}

// ---------- retention by days ----------

/// The "days" boundary is a strict comparison: a non-favorited row
/// created exactly D days before `now` is retained, one created D+1
/// days before is removed.
pub proof fn lemma_days_boundary(s: Seq<StoredItemModel>, i: int, d: i64, now: u64)
    requires
        unique_ids(s),
        0 <= i < s.len(),
        d > 0,
        !s[i].is_favorited,
    ensures
        s[i].created_at == now - d * (SECONDS_PER_DAY as int) ==> retained(
            s,
            RetentionPolicy::Days(d),
            now,
        ).contains(s[i]),
        s[i].created_at == now - (d + 1) * (SECONDS_PER_DAY as int) ==> !retained(
            s,
            RetentionPolicy::Days(d),
            now,
        ).contains(s[i]),
{
    let pol = RetentionPolicy::Days(d);
    lemma_kept_membership(s, retain_pred(pol, now), s.len() as int, i);
    if s[i].created_at == now - d * (SECONDS_PER_DAY as int) {
        assert(s[i].created_at + d * (SECONDS_PER_DAY as int) == now);
        assert(!condemned(s, i, pol, now));
    }
    if s[i].created_at == now - (d + 1) * (SECONDS_PER_DAY as int) {
        assert(s[i].created_at + d * (SECONDS_PER_DAY as int) == now - (SECONDS_PER_DAY as int));
        assert(condemned(s, i, pol, now));
    }
}

// ---------- search ----------

/// A query of at least three codepoints that no row's indexed fields
/// contain returns zero hits through the phrase-index path.
pub proof fn lemma_search_unmatched_empty(
    s: Seq<StoredItemModel>,
    q: Seq<char>,
    ct: Option<ContentType>,
    limit: int,
)
    requires
        q.len() >= 3,
        limit >= 0,
        forall|i: int| 0 <= i < s.len() ==> !shadow_matches(shadow_of(#[trigger] s[i]), q),
    ensures
        search_spec(s, q, ct, limit) == Seq::<crate::models::ItemModel>::empty(),
{
    lemma_phrase_hits_none(s, q, s.len() as int);
    assert(take_up_to(phrase_hits(s, q), limit) =~= Seq::<StoredItemModel>::empty());
    assert(listed(Seq::<StoredItemModel>::empty(), ct, false) =~= Seq::<
        crate::models::ItemModel,
    >::empty());
}

proof fn lemma_phrase_hits_none(s: Seq<StoredItemModel>, q: Seq<char>, n: int)
    requires
        0 <= n <= s.len(),
        forall|i: int| 0 <= i < s.len() ==> !shadow_matches(shadow_of(#[trigger] s[i]), q),
    ensures
        phrase_hits_prefix(s, q, n) == Seq::<StoredItemModel>::empty(),
    decreases n,
{
    if n > 0 {
        lemma_phrase_hits_none(s, q, n - 1);
        assert(phrase_hits_prefix(s, q, n) =~= Seq::<StoredItemModel>::empty());
    }
}

/// Deleting an item silences a search for content only it matched: after
/// its row and shadow row go, a query that matched no other row returns
/// zero hits.
pub proof fn lemma_delete_then_search_empty(
    s0: Seq<StoredItemModel>,
    s1: Seq<StoredItemModel>,
    j: int,
    q: Seq<char>,
    ct: Option<ContentType>,
    limit: int,
)
    requires
        0 <= j < s0.len(),
        s1 == s0.remove(j),
        q.len() >= 3,
        limit >= 0,
        forall|i: int|
            0 <= i < s0.len() && i != j ==> !shadow_matches(shadow_of(#[trigger] s0[i]), q),
    ensures
        search_spec(s1, q, ct, limit) == Seq::<crate::models::ItemModel>::empty(),
{
    s0.remove_ensures(j);
    assert forall|i: int| 0 <= i < s1.len() implies !shadow_matches(
        shadow_of(#[trigger] s1[i]),
        q,
    ) by {
        let i0 = if i < j {
            i
        } else {
            i + 1
        };
        assert(s1[i] == s0[i0]);
    }
    lemma_search_unmatched_empty(s1, q, ct, limit);
}

} // verus!

//! The retention engine: a state-free policy evaluator over the store.
//!
//! Policies come from externally supplied settings: "unlimited" is a
//! no-op; "days" with a positive parameter removes non-favorited rows
//! created strictly more than that many days ago; "count" with a
//! positive parameter keeps only that many most-recently-updated
//! non-favorited rows.  Anything else is a no-op.  Favorited rows are
//! excluded from every predicate, unconditionally.  Clearing the
//! history is the same pattern specialized to all non-favorited rows.
//!
//! Each cleanup has a read-only companion that resolves, under the
//! identical predicate, the image paths of the rows about to go, so that
//! best-effort file removal can run after the rows are gone.

use vstd::prelude::*;
use crate::models::{shadow_of, ShadowRow, StoredItem, StoredItemModel};
use crate::store::{sorted_desc, unique_hashes, unique_ids, views_of, lemma_views_push, Store};
use crate::text::{parse_i64_spec, str_eq};

verus! {

/// Seconds in a day.
pub const SECONDS_PER_DAY: u64 = 86400;

/// A retention policy, as the settings decode to it.
#[derive(Debug, Clone, Copy, PartialEq, Eq, Structural)]
pub enum RetentionPolicy {
    Unlimited,
    Days(i64),
    Count(i64),
}

/// The policy a wire string and its parameters decode to: "days" and
/// "count" demand a positive parameter, anything else is unlimited.
pub open spec fn policy_spec(policy: Seq<char>, days: i64, count: i64) -> RetentionPolicy {
    if policy == "days"@ && days > 0 {
        RetentionPolicy::Days(days)
    } else if policy == "count"@ && count > 0 {
        RetentionPolicy::Count(count)
    } else {
        RetentionPolicy::Unlimited
    }
}

/// Decode a policy string and its parameters.
pub fn parse_policy(policy: &str, days: i64, count: i64) -> (r: RetentionPolicy)
    ensures
        r == policy_spec(policy@, days, count),
{
    if str_eq(policy, "days") && days > 0 {
        RetentionPolicy::Days(days)
    } else if str_eq(policy, "count") && count > 0 {
        RetentionPolicy::Count(count)
    } else {
        RetentionPolicy::Unlimited
    }
}

/// How many of the first `i` rows are not favorited.
pub open spec fn nonfav_rank(s: Seq<StoredItemModel>, i: int) -> int
    decreases i,
{
    if i <= 0 {
        0
    } else {
        nonfav_rank(s, i - 1) + if !s[i - 1].is_favorited {
            1int
        } else {
            0int
        }
    }
}

proof fn lemma_nonfav_rank_bounds(s: Seq<StoredItemModel>, i: int)
    requires
        0 <= i,
    ensures
        0 <= nonfav_rank(s, i) <= i,
    decreases i,
{
    if i > 0 {
        lemma_nonfav_rank_bounds(s, i - 1);
    }
}

/// Whether the policy condemns the row at index `i` of `s` at time
/// `now`.  A favorited row is never condemned.  Under "days" a row goes
/// when it was created strictly more than the parameter's days before
/// `now`; under "count" when at least the parameter's number of
/// non-favorited rows stand before it in recency order.
pub open spec fn condemned(s: Seq<StoredItemModel>, i: int, pol: RetentionPolicy, now: u64) -> bool {
    &&& !s[i].is_favorited
    &&& match pol {
        RetentionPolicy::Unlimited => false,
        RetentionPolicy::Days(d) => s[i].created_at + d * (SECONDS_PER_DAY as int) < now,
        RetentionPolicy::Count(k) => nonfav_rank(s, i) >= k,
    }
}

/// The subsequence of the first `n` rows selected by an index predicate.
pub open spec fn kept_prefix(
    s: Seq<StoredItemModel>,
    keep: spec_fn(Seq<StoredItemModel>, int) -> bool,
    n: int,
) -> Seq<StoredItemModel>
    decreases n,
{
    if n <= 0 {
        Seq::empty()
    } else {
        kept_prefix(s, keep, n - 1) + if keep(s, n - 1) {
            seq![s[n - 1]]
        } else {
            Seq::empty()
        }
    }
}

/// The rows a policy retains.
pub open spec fn retain_pred(pol: RetentionPolicy, now: u64) -> spec_fn(
    Seq<StoredItemModel>,
    int,
) -> bool {
    |s: Seq<StoredItemModel>, i: int| !condemned(s, i, pol, now)
}

/// What the store holds after a cleanup under the policy at time `now`.
pub open spec fn retained(s: Seq<StoredItemModel>, pol: RetentionPolicy, now: u64) -> Seq<
    StoredItemModel,
> {
    kept_prefix(s, retain_pred(pol, now), s.len() as int)
}

/// The favorited rows alone: what clearing the history leaves.
pub open spec fn fav_pred() -> spec_fn(Seq<StoredItemModel>, int) -> bool {
    |s: Seq<StoredItemModel>, i: int| s[i].is_favorited
}

/// What the store holds after the history is cleared.
pub open spec fn favorites_only(s: Seq<StoredItemModel>) -> Seq<StoredItemModel> {
    kept_prefix(s, fav_pred(), s.len() as int)
}

/// A selected subsequence of well-formed rows keeps order and
/// uniqueness, and draws every element from the prefix it selects over.
proof fn lemma_kept_props(
    s: Seq<StoredItemModel>,
    keep: spec_fn(Seq<StoredItemModel>, int) -> bool,
    n: int,
)
    requires
        sorted_desc(s),
        unique_ids(s),
        unique_hashes(s),
        0 <= n <= s.len(),
    ensures
        sorted_desc(kept_prefix(s, keep, n)),
        unique_ids(kept_prefix(s, keep, n)),
        unique_hashes(kept_prefix(s, keep, n)),
        kept_prefix(s, keep, n).len() <= n,
        forall|k: int|
            0 <= k < kept_prefix(s, keep, n).len() ==> exists|j: int|
                0 <= j < n && #[trigger] kept_prefix(s, keep, n)[k] == s[j],
    decreases n,
{
    if n > 0 {
        lemma_kept_props(s, keep, n - 1);
        let prev = kept_prefix(s, keep, n - 1);
        let cur = kept_prefix(s, keep, n);
        if keep(s, n - 1) {
            assert(cur == prev + seq![s[n - 1]]);
            assert forall|k: int| 0 <= k < cur.len() implies exists|j: int|
                0 <= j < n && #[trigger] cur[k] == s[j] by {
                if k < prev.len() {
                    assert(cur[k] == prev[k]);
                    let j = choose|j: int| 0 <= j < n - 1 && prev[k] == s[j];
                    assert(cur[k] == s[j]);
                } else {
                    assert(cur[k] == s[n - 1]);
                }
            }
            assert forall|a: int, b: int| 0 <= a <= b < cur.len() implies cur[a].updated_at
                >= cur[b].updated_at by {
                if b < prev.len() {
                } else {
                    if a < prev.len() {
                        let j = choose|j: int| 0 <= j < n - 1 && prev[a] == s[j];
                        assert(cur[a] == s[j]);
                        assert(s[j].updated_at >= s[n - 1].updated_at);
                    }
                }
            }
            assert forall|a: int, b: int| 0 <= a < b < cur.len() implies cur[a].id != cur[b].id
                && cur[a].content_hash != cur[b].content_hash by {
                if b < prev.len() {
                } else {
                    let j = choose|j: int| 0 <= j < n - 1 && prev[a] == s[j];
                    assert(cur[a] == s[j]);
                    assert(s[j].id != s[n - 1].id);
                    assert(s[j].content_hash != s[n - 1].content_hash);
                }
            }
        } else {
            assert(cur =~= prev);
        }
    }
}

/// The image paths, in order, of the rows among the first `n` that the
/// selector picks and that carry one.
pub open spec fn paths_prefix(
    s: Seq<StoredItemModel>,
    sel: spec_fn(Seq<StoredItemModel>, int) -> bool,
    n: int,
) -> Seq<Seq<char>>
    decreases n,
{
    if n <= 0 {
        Seq::empty()
    } else {
        paths_prefix(s, sel, n - 1) + if sel(s, n - 1) && s[n - 1].image_path is Some {
            seq![s[n - 1].image_path->0]
        } else {
            Seq::empty()
        }
    }
}

/// Every row.
pub open spec fn all_pred() -> spec_fn(Seq<StoredItemModel>, int) -> bool {
    |s: Seq<StoredItemModel>, i: int| true
}

/// Every non-favorited row.
pub open spec fn nonfav_pred() -> spec_fn(Seq<StoredItemModel>, int) -> bool {
    |s: Seq<StoredItemModel>, i: int| !s[i].is_favorited
}

/// The rows a policy condemns.
pub open spec fn condemn_pred(pol: RetentionPolicy, now: u64) -> spec_fn(
    Seq<StoredItemModel>,
    int,
) -> bool {
    |s: Seq<StoredItemModel>, i: int| condemned(s, i, pol, now)
}

impl Store {
    /// Whether the policy condemns row `i`; `rank` is the number of
    /// non-favorited rows before it.
    fn row_condemned(&self, i: usize, pol: RetentionPolicy, now: u64, rank: usize) -> (r: bool)
        requires
            i < self.items@.len(),
            rank == nonfav_rank(self.rows(), i as int),
        ensures
            r == condemned(self.rows(), i as int, pol, now),
    {
        let it = &self.items[i];
        if it.is_favorited {
            return false;
        }
        match pol {
            RetentionPolicy::Unlimited => false,
            RetentionPolicy::Days(d) => (it.created_at as i128) + (d as i128) * (
            SECONDS_PER_DAY as i128) < (now as i128),
            RetentionPolicy::Count(k) => (rank as i128) >= (k as i128),
        }
    }

    /// Remove every row the policy condemns, with its shadow row, in one
    /// step; the survivors are exactly the retained rows, in order, and
    /// the count of removed rows comes back.
    pub fn cleanup_by_retention(&mut self, policy: &str, days: i64, count: i64, now: u64) -> (r:
        u64)
        requires
            old(self).wf(),
        ensures
            final(self).wf(),
            final(self).rows() == retained(old(self).rows(), policy_spec(policy@, days, count), now),
            r == old(self).rows().len() - final(self).rows().len(),
            final(self).settings_model() == old(self).settings_model(),
    {
        let pol = parse_policy(policy, days, count);
        self.cleanup_with_policy(pol, now)
    }

    /// Remove every row a decoded policy condemns; see
    /// `cleanup_by_retention`.
    pub fn cleanup_with_policy(&mut self, pol: RetentionPolicy, now: u64) -> (r: u64)
        requires
            old(self).wf(),
        ensures
            final(self).wf(),
            final(self).rows() == retained(old(self).rows(), pol, now),
            r == old(self).rows().len() - final(self).rows().len(),
            final(self).settings_model() == old(self).settings_model(),
    {
        let ghost pre = *self;
        let ghost keep = retain_pred(pol, now);
        let mut items2: Vec<StoredItem> = Vec::new();
        let mut shadow2: Vec<ShadowRow> = Vec::new();
        let mut rank: usize = 0;
        let mut i: usize = 0;
        proof {
            assert(views_of(items2@) =~= kept_prefix(pre.rows(), keep, 0));
            assert(views_of(shadow2@) =~= Seq::<crate::models::ShadowModel>::empty());
        }
        while i < self.items.len()
            invariant
                *self == pre,
                pre.wf(),
                keep == retain_pred(pol, now),
                i <= self.items@.len(),
                rank == nonfav_rank(pre.rows(), i as int),
                rank <= i,
                views_of(items2@) == kept_prefix(pre.rows(), keep, i as int),
                views_of(shadow2@).len() == views_of(items2@).len(),
                forall|k: int|
                    0 <= k < views_of(items2@).len() ==> views_of(shadow2@)[k] == shadow_of(
                        views_of(items2@)[k],
                    ),
            decreases self.items@.len() - i,
        {
            let c = self.row_condemned(i, pol, now, rank);
            proof {
                assert(keep(pre.rows(), i as int) == !condemned(pre.rows(), i as int, pol, now));
            }
            if !c {
                let it = self.items[i].clone();
                let sr = clone_shadow(&self.shadow[i]);
                proof {
                    lemma_views_push(items2@, it);
                    lemma_views_push(shadow2@, sr);
                    assert(self.shadows()[i as int] == shadow_of(self.rows()[i as int]));
                    assert(sr@ == shadow_of(it@));
                }
                items2.push(it);
                shadow2.push(sr);
            }
            proof {
                assert(views_of(items2@) =~= kept_prefix(pre.rows(), keep, i + 1));
            }
            if !self.items[i].is_favorited {
                rank = rank + 1;
            }
            proof {
                lemma_nonfav_rank_bounds(pre.rows(), i + 1);
            }
            i = i + 1;
        }
        proof {
            lemma_kept_props(pre.rows(), keep, pre.rows().len() as int);
        }
        let removed: usize = self.items.len() - items2.len();
        self.items = items2;
        self.shadow = shadow2;
        proof {
            assert(self.settings_model() =~= pre.settings_model());
        }
        removed as u64
    }

    /// Remove all non-favorited rows with their shadow rows in one step;
    /// favorited rows are untouched, and the exact count of removed rows
    /// comes back.
    pub fn clear_history(&mut self) -> (r: u64)
        requires
            old(self).wf(),
        ensures
            final(self).wf(),
            final(self).rows() == favorites_only(old(self).rows()),
            r == old(self).rows().len() - final(self).rows().len(),
            final(self).settings_model() == old(self).settings_model(),
    {
        let ghost pre = *self;
        let ghost keep = fav_pred();
        let mut items2: Vec<StoredItem> = Vec::new();
        let mut shadow2: Vec<ShadowRow> = Vec::new();
        let mut i: usize = 0;
        proof {
            assert(views_of(items2@) =~= kept_prefix(pre.rows(), keep, 0));
        }
        while i < self.items.len()
            invariant
                *self == pre,
                pre.wf(),
                keep == fav_pred(),
                i <= self.items@.len(),
                views_of(items2@) == kept_prefix(pre.rows(), keep, i as int),
                views_of(shadow2@).len() == views_of(items2@).len(),
                forall|k: int|
                    0 <= k < views_of(items2@).len() ==> views_of(shadow2@)[k] == shadow_of(
                        views_of(items2@)[k],
                    ),
            decreases self.items@.len() - i,
        {
            if self.items[i].is_favorited {
                let it = self.items[i].clone();
                let sr = clone_shadow(&self.shadow[i]);
                proof {
                    lemma_views_push(items2@, it);
                    lemma_views_push(shadow2@, sr);
                    assert(self.shadows()[i as int] == shadow_of(self.rows()[i as int]));
                    assert(sr@ == shadow_of(it@));
                }
                items2.push(it);
                shadow2.push(sr);
            }
            proof {
                assert(views_of(items2@) =~= kept_prefix(pre.rows(), keep, i + 1));
            }
            i = i + 1;
        }
        proof {
            lemma_kept_props(pre.rows(), keep, pre.rows().len() as int);
        }
        let removed: usize = self.items.len() - items2.len();
        self.items = items2;
        self.shadow = shadow2;
        proof {
            assert(self.settings_model() =~= pre.settings_model());
        }
        removed as u64
    }

    /// The image paths of all rows.
    pub fn get_all_image_paths(&self) -> (r: Vec<String>)
        ensures
            views_of(r@) == paths_prefix(self.rows(), all_pred(), self.rows().len() as int),
    {
        let ghost sel = all_pred();
        let mut out: Vec<String> = Vec::new();
        let mut i: usize = 0;
        proof {
            assert(views_of(out@) =~= paths_prefix(self.rows(), sel, 0));
        }
        while i < self.items.len()
            invariant
                i <= self.items@.len(),
                sel == all_pred(),
                views_of(out@) == paths_prefix(self.rows(), sel, i as int),
            decreases self.items@.len() - i,
        {
            match &self.items[i].image_path {
                Some(p) => {
                    let c = p.clone();
                    proof {
                        lemma_views_push(out@, c);
                    }
                    out.push(c);
                },
                None => {},
            };
            proof {
                assert(views_of(out@) =~= paths_prefix(self.rows(), sel, i + 1));
            }
            i = i + 1;
        }
        out
    }

    /// The image paths of all non-favorited rows: what clearing the
    /// history will orphan on disk, under the identical predicate.
    pub fn get_non_favorited_image_paths(&self) -> (r: Vec<String>)
        ensures
            views_of(r@) == paths_prefix(self.rows(), nonfav_pred(), self.rows().len() as int),
    {
        let ghost sel = nonfav_pred();
        let mut out: Vec<String> = Vec::new();
        let mut i: usize = 0;
        proof {
            assert(views_of(out@) =~= paths_prefix(self.rows(), sel, 0));
        }
        while i < self.items.len()
            invariant
                i <= self.items@.len(),
                sel == nonfav_pred(),
                views_of(out@) == paths_prefix(self.rows(), sel, i as int),
            decreases self.items@.len() - i,
        {
            if !self.items[i].is_favorited {
                match &self.items[i].image_path {
                    Some(p) => {
                        let c = p.clone();
                        proof {
                            lemma_views_push(out@, c);
                        }
                        out.push(c);
                    },
                    None => {},
                };
            }
            proof {
                assert(views_of(out@) =~= paths_prefix(self.rows(), sel, i + 1));
            }
            i = i + 1;
        }
        out
    }

    /// The image paths of the rows the policy would remove, under the
    /// identical predicate the cleanup uses.
    pub fn get_retention_overflow_image_paths(
        &self,
        policy: &str,
        days: i64,
        count: i64,
        now: u64,
    ) -> (r: Vec<String>)
        requires
            self.wf(),
        ensures
            views_of(r@) == paths_prefix(
                self.rows(),
                condemn_pred(policy_spec(policy@, days, count), now),
                self.rows().len() as int,
            ),
    {
        let pol = parse_policy(policy, days, count);
        let ghost sel = condemn_pred(pol, now);
        let mut out: Vec<String> = Vec::new();
        let mut rank: usize = 0;
        let mut i: usize = 0;
        proof {
            assert(views_of(out@) =~= paths_prefix(self.rows(), sel, 0));
        }
        while i < self.items.len()
            invariant
                self.wf(),
                i <= self.items@.len(),
                sel == condemn_pred(pol, now),
                rank == nonfav_rank(self.rows(), i as int),
                rank <= i,
                views_of(out@) == paths_prefix(self.rows(), sel, i as int),
            decreases self.items@.len() - i,
        {
            let c = self.row_condemned(i, pol, now, rank);
            if c {
                match &self.items[i].image_path {
                    Some(p) => {
                        let pc = p.clone();
                        proof {
                            lemma_views_push(out@, pc);
                        }
                        out.push(pc);
                    },
                    None => {},
                };
            }
            proof {
                assert(views_of(out@) =~= paths_prefix(self.rows(), sel, i + 1));
            }
            if !self.items[i].is_favorited {
                rank = rank + 1;
            }
            proof {
                lemma_nonfav_rank_bounds(self.rows(), i + 1);
            }
            i = i + 1;
        }
        out
    }
}

/// The retention policy the settings decode to: the policy string
/// (default "unlimited") with the day and count parameters (default 0
/// when absent or unparseable).
pub open spec fn settings_policy(sm: Seq<(Seq<char>, Seq<char>)>) -> RetentionPolicy {
    let pol = match crate::queries::setting_of(sm, "retention_policy"@) {
        Some(p) => p,
        None => "unlimited"@,
    };
    let days = match crate::queries::setting_of(sm, "retention_days"@) {
        Some(v) => match parse_i64_spec(v) {
            Some(n) => n,
            None => 0,
        },
        None => 0,
    };
    let count = match crate::queries::setting_of(sm, "retention_count"@) {
        Some(v) => match parse_i64_spec(v) {
            Some(n) => n,
            None => 0,
        },
        None => 0,
    };
    policy_spec(pol, days, count)
}

impl Store {
    /// Run the retention cleanup the settings call for: resolve the
    /// image paths of the condemned rows first, under the identical
    /// predicate, then remove those rows; the count of removed rows and
    /// the resolved paths come back so file removal can follow once the
    /// rows are durably gone.
    pub fn run_retention_cleanup(&mut self, now: u64) -> (r: (u64, Vec<String>))
        requires
            old(self).wf(),
        ensures
            final(self).wf(),
            final(self).settings_model() == old(self).settings_model(),
            ({
                let pol = settings_policy(old(self).settings_model());
                &&& final(self).rows() == retained(old(self).rows(), pol, now)
                &&& r.0 == old(self).rows().len() - final(self).rows().len()
                &&& views_of(r.1@) == paths_prefix(
                    old(self).rows(),
                    condemn_pred(pol, now),
                    old(self).rows().len() as int,
                )
            }),
    {
        let policy: String = match self.get_setting("retention_policy") {
            Some(p) => p,
            None => "unlimited".to_owned(),
        };
        let days: i64 = match self.get_setting("retention_days") {
            Some(v) => {
                match crate::text::parse_i64(v.as_str()) {
                    Some(n) => n,
                    None => 0,
                }
            },
            None => 0,
        };
        let count: i64 = match self.get_setting("retention_count") {
            Some(v) => {
                match crate::text::parse_i64(v.as_str()) {
                    Some(n) => n,
                    None => 0,
                }
            },
            None => 0,
        };
        let paths = self.get_retention_overflow_image_paths(policy.as_str(), days, count, now);
        let removed = self.cleanup_by_retention(policy.as_str(), days, count, now);
        (removed, paths)
    }
}

/// Clone a shadow row; the clone's value equals the original's.
fn clone_shadow(sr: &ShadowRow) -> (r: ShadowRow)
    ensures
        r@ == sr@,
{
    ShadowRow {
        item_id: sr.item_id.clone(),
        plain_text: sr.plain_text.clone(),
        file_name: sr.file_name.clone(),
        source_app_name: sr.source_app_name.clone(),
    }
}

} // verus!

//! The query engine's search: a phrase match against the shadow index
//! for queries of at least three codepoints, and a substring scan of the
//! same fields as fallback for shorter ones.
//!
//! The phrase index cannot represent fragments shorter than its shingle
//! size, so the short-query fallback scans the rows directly; both paths
//! match case-sensitively against plain text, file name and source
//! application name.

use vstd::prelude::*;
use crate::content::ContentType;
use crate::models::{listing_of, shadow_of, ClipboardItem, ItemModel, ShadowModel, StoredItem, StoredItemModel};
use crate::queries::{listed, listed_prefix, matches_filter};
use crate::store::{views_of, lemma_views_push, Store};
use crate::text::{contains_seq, str_chars, str_contains};

verus! {

/// Whether a shadow row matches a query: the query occurs in its plain
/// text, its file name, or its source application name.
pub open spec fn shadow_matches(sh: ShadowModel, q: Seq<char>) -> bool {
    ||| contains_seq(sh.plain_text, q)
    ||| contains_seq(sh.file_name, q)
    ||| contains_seq(sh.source_app_name, q)
}

/// Whether an item row matches a query in the fallback scan: the same
/// three fields; a missing file name matches nothing.
pub open spec fn row_matches(m: StoredItemModel, q: Seq<char>) -> bool {
    ||| contains_seq(m.plain_text, q)
    ||| (m.file_name is Some && contains_seq(m.file_name->0, q))
    ||| contains_seq(m.source_app_name, q)
}

/// The rows among the first `n` whose shadow projection matches the
/// query, in order.
pub open spec fn phrase_hits_prefix(s: Seq<StoredItemModel>, q: Seq<char>, n: int) -> Seq<
    StoredItemModel,
>
    decreases n,
{
    if n <= 0 {
        Seq::empty()
    } else {
        phrase_hits_prefix(s, q, n - 1) + if shadow_matches(shadow_of(s[n - 1]), q) {
            seq![s[n - 1]]
        } else {
            Seq::empty()
        }
    }
}

/// All rows whose shadow projection matches the query, in order.
pub open spec fn phrase_hits(s: Seq<StoredItemModel>, q: Seq<char>) -> Seq<StoredItemModel> {
    phrase_hits_prefix(s, q, s.len() as int)
}

/// The listings of the first `n` rows that match the query and the
/// content-type filter, in order.
pub open spec fn like_prefix(
    s: Seq<StoredItemModel>,
    q: Seq<char>,
    ct: Option<ContentType>,
    n: int,
) -> Seq<ItemModel>
    decreases n,
{
    if n <= 0 {
        Seq::empty()
    } else {
        like_prefix(s, q, ct, n - 1) + if row_matches(s[n - 1], q) && matches_filter(
            s[n - 1],
            ct,
            false,
        ) {
            seq![listing_of(s[n - 1])]
        } else {
            Seq::empty()
        }
    }
}

/// All listings matching the query and the filter, in order.
pub open spec fn like_hits(s: Seq<StoredItemModel>, q: Seq<char>, ct: Option<ContentType>) -> Seq<
    ItemModel,
> {
    like_prefix(s, q, ct, s.len() as int)
}

/// The first `k` elements, or all of them when fewer.
pub open spec fn take_up_to<A>(s: Seq<A>, k: int) -> Seq<A> {
    if k >= s.len() {
        s
    } else {
        s.take(k)
    }
}

/// What a search returns.  A query of at least three codepoints runs
/// against the shadow index: the first `limit` matching rows are
/// re-fetched as listings under the content-type filter.  A shorter
/// query falls back to the substring scan of the same fields, with the
/// filter and the limit applied directly.
pub open spec fn search_spec(
    s: Seq<StoredItemModel>,
    q: Seq<char>,
    ct: Option<ContentType>,
    limit: int,
) -> Seq<ItemModel> {
    if q.len() >= 3 {
        listed(take_up_to(phrase_hits(s, q), limit), ct, false)
    } else {
        take_up_to(like_hits(s, q, ct), limit)
    }
}

/// Whether a stored row's shadow fields match the query.
fn row_shadow_matches(srow: &crate::models::ShadowRow, query: &str) -> (r: bool)
    ensures
        r == shadow_matches(srow@, query@),
{
    str_contains(srow.plain_text.as_str(), query) || str_contains(srow.file_name.as_str(), query)
        || str_contains(srow.source_app_name.as_str(), query)
}

/// Whether a stored row itself matches the query.
fn row_like_matches(it: &StoredItem, query: &str) -> (r: bool)
    ensures
        r == row_matches(it@, query@),
{
    if str_contains(it.plain_text.as_str(), query) {
        return true;
    }
    let fname: bool = match &it.file_name {
        None => false,
        Some(f) => str_contains(f.as_str(), query),
    };
    if fname {
        return true;
    }
    str_contains(it.source_app_name.as_str(), query)
}

/// The listings of the rows of a vector that pass the filters, in order.
fn collect_listed_vec(items: &Vec<StoredItem>, ct: Option<ContentType>, fav_only: bool) -> (r: Vec<
    ClipboardItem,
>)
    ensures
        views_of(r@) == listed(views_of(items@), ct, fav_only),
{
    let ghost s = views_of(items@);
    let mut all: Vec<ClipboardItem> = Vec::new();
    let mut i: usize = 0;
    proof {
        assert(views_of(all@) =~= listed_prefix(s, ct, fav_only, 0));
    }
    while i < items.len()
        invariant
            s == views_of(items@),
            i <= items@.len(),
            views_of(all@) == listed_prefix(s, ct, fav_only, i as int),
        decreases items@.len() - i,
    {
        let it = &items[i];
        let keep: bool = (match ct {
            None => true,
            Some(c) => c == it.content_type,
        }) && (!fav_only || it.is_favorited);
        proof {
            assert(keep == matches_filter(s[i as int], ct, fav_only));
        }
        if keep {
            let li = crate::models::listing_item(it);
            proof {
                lemma_views_push(all@, li);
            }
            all.push(li);
        }
        proof {
            assert(views_of(all@) =~= listed_prefix(s, ct, fav_only, i + 1));
        }
        i = i + 1;
    }
    all
}

impl Store {
    /// Search items: phrase match against the shadow index for queries
    /// of at least three codepoints, substring fallback below that.
    pub fn search_items(&self, query: &str, content_type: Option<ContentType>, limit: usize) -> (r:
        Vec<ClipboardItem>)
        requires
            self.wf(),
        ensures
            views_of(r@) == search_spec(self.rows(), query@, content_type, limit as int),
    {
        let qc = str_chars(query);
        if qc.len() >= 3 {
            // phrase path: the first `limit` shadow matches, re-fetched
            let mut hits: Vec<StoredItem> = Vec::new();
            let mut i: usize = 0;
            proof {
                assert(views_of(hits@) =~= take_up_to(
                    phrase_hits_prefix(self.rows(), query@, 0),
                    limit as int,
                ));
            }
            while i < self.items.len()
                invariant
                    self.wf(),
                    qc@ == query@,
                    i <= self.items@.len(),
                    views_of(hits@) == take_up_to(
                        phrase_hits_prefix(self.rows(), query@, i as int),
                        limit as int,
                    ),
                    views_of(hits@).len() <= limit,
                    phrase_hits_prefix(self.rows(), query@, i as int).len() >= views_of(
                        hits@,
                    ).len(),
                decreases self.items@.len() - i,
            {
                let ghost ph = phrase_hits_prefix(self.rows(), query@, i as int);
                let m = row_shadow_matches(&self.shadow[i], query);
                proof {
                    assert(self.shadows()[i as int] == shadow_of(self.rows()[i as int]));
                    assert(self.shadow@[i as int]@ == self.shadows()[i as int]);
                    assert(m == shadow_matches(shadow_of(self.rows()[i as int]), query@));
                    assert(phrase_hits_prefix(self.rows(), query@, i + 1) =~= ph + if m {
                        seq![self.rows()[i as int]]
                    } else {
                        Seq::empty()
                    });
                }
                if m && hits.len() < limit {
                    let c = self.items[i].clone();
                    proof {
                        lemma_views_push(hits@, c);
                        assert(ph.len() == views_of(hits@).len()) by {
                            if ph.len() > views_of(hits@).len() {
                                assert(views_of(hits@) == ph.take(limit as int));
                            }
                        }
                    }
                    hits.push(c);
                    proof {
                        assert(views_of(hits@) =~= take_up_to(
                            phrase_hits_prefix(self.rows(), query@, i + 1),
                            limit as int,
                        ));
                    }
                } else {
                    proof {
                        if m {
                            assert(views_of(hits@).len() == limit);
                            assert(views_of(hits@) =~= take_up_to(
                                phrase_hits_prefix(self.rows(), query@, i + 1),
                                limit as int,
                            ));
                        } else {
                            assert(views_of(hits@) =~= take_up_to(
                                phrase_hits_prefix(self.rows(), query@, i + 1),
                                limit as int,
                            ));
                        }
                    }
                }
                i = i + 1;
            }
            collect_listed_vec(&hits, content_type, false)
        } else {
            // fallback: substring scan with filter and limit applied directly
            let mut out: Vec<ClipboardItem> = Vec::new();
            let mut i: usize = 0;
            proof {
                assert(views_of(out@) =~= take_up_to(
                    like_prefix(self.rows(), query@, content_type, 0),
                    limit as int,
                ));
            }
            while i < self.items.len()
                invariant
                    self.wf(),
                    qc@ == query@,
                    i <= self.items@.len(),
                    views_of(out@) == take_up_to(
                        like_prefix(self.rows(), query@, content_type, i as int),
                        limit as int,
                    ),
                    views_of(out@).len() <= limit,
                    like_prefix(self.rows(), query@, content_type, i as int).len() >= views_of(
                        out@,
                    ).len(),
                decreases self.items@.len() - i,
            {
                let ghost lp = like_prefix(self.rows(), query@, content_type, i as int);
                let it = &self.items[i];
                let m = row_like_matches(it, query) && (match content_type {
                    None => true,
                    Some(c) => c == it.content_type,
                });
                proof {
                    assert(m == (row_matches(self.rows()[i as int], query@) && matches_filter(
                        self.rows()[i as int],
                        content_type,
                        false,
                    )));
                    assert(like_prefix(self.rows(), query@, content_type, i + 1) =~= lp + if m {
                        seq![listing_of(self.rows()[i as int])]
                    } else {
                        Seq::empty()
                    });
                }
                if m && out.len() < limit {
                    let li = crate::models::listing_item(it);
                    proof {
                        lemma_views_push(out@, li);
                        assert(lp.len() == views_of(out@).len()) by {
                            if lp.len() > views_of(out@).len() {
                                assert(views_of(out@) == lp.take(limit as int));
                            }
                        }
                    }
                    out.push(li);
                    proof {
                        assert(views_of(out@) =~= take_up_to(
                            like_prefix(self.rows(), query@, content_type, i + 1),
                            limit as int,
                        ));
                    }
                } else {
                    proof {
                        if m {
                            assert(views_of(out@).len() == limit);
                            assert(views_of(out@) =~= take_up_to(
                                like_prefix(self.rows(), query@, content_type, i + 1),
                                limit as int,
                            ));
                        } else {
                            assert(views_of(out@) =~= take_up_to(
                                like_prefix(self.rows(), query@, content_type, i + 1),
                                limit as int,
                            ));
                        }
                    }
                }
                i = i + 1;
            }
            out
        }
    }
}

} // verus!

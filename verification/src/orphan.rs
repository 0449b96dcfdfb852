//! The orphan reconciler's deciding half: given the files found under
//! the managed image directory and the paths the store still references,
//! select the files to delete.  Walking the directory and removing files
//! stays with the caller, which never looks outside that directory.

use vstd::prelude::*;
use crate::store::{views_of, lemma_views_push};
use crate::text::str_eq;

verus! {

/// Whether a path occurs in a list of paths.
pub open spec fn path_in(paths: Seq<Seq<char>>, p: Seq<char>) -> bool {
    exists|i: int| 0 <= i < paths.len() && paths[i] == p
}

/// The unreferenced paths among the first `n` on disk, in order.
pub open spec fn orphans_prefix(disk: Seq<Seq<char>>, referenced: Seq<Seq<char>>, n: int) -> Seq<
    Seq<char>,
>
    decreases n,
{
    if n <= 0 {
        Seq::empty()
    } else {
        orphans_prefix(disk, referenced, n - 1) + if !path_in(referenced, disk[n - 1]) {
            seq![disk[n - 1]]
        } else {
            Seq::empty()
        }
    }
}

/// The on-disk paths no stored row references.
pub open spec fn orphans_of(disk: Seq<Seq<char>>, referenced: Seq<Seq<char>>) -> Seq<Seq<char>> {
    orphans_prefix(disk, referenced, disk.len() as int)
}

/// Whether a path occurs in a vector of paths.
fn contains_path(paths: &Vec<String>, p: &str) -> (r: bool)
    ensures
        r == path_in(views_of(paths@), p@),
{
    let mut i: usize = 0;
    while i < paths.len()
        invariant
            i <= paths@.len(),
            forall|k: int| 0 <= k < i ==> views_of(paths@)[k] != p@,
        decreases paths@.len() - i,
    {
        if str_eq(paths[i].as_str(), p) {
            proof {
                assert(views_of(paths@)[i as int] == p@);
            }
            return true;
        }
        i = i + 1;
    }
    false
}

/// Select the orphans: every file found under the image directory whose
/// path no stored row references, in order.
pub fn select_orphans(disk: &Vec<String>, referenced: &Vec<String>) -> (r: Vec<String>)
    ensures
        views_of(r@) == orphans_of(views_of(disk@), views_of(referenced@)),
{
    let ghost d = views_of(disk@);
    let ghost refs = views_of(referenced@);
    let mut out: Vec<String> = Vec::new();
    let mut i: usize = 0;
    proof {
        assert(views_of(out@) =~= orphans_prefix(d, refs, 0));
    }
    while i < disk.len()
        invariant
            d == views_of(disk@),
            refs == views_of(referenced@),
            i <= disk@.len(),
            views_of(out@) == orphans_prefix(d, refs, i as int),
        decreases disk@.len() - i,
    {
        if !contains_path(referenced, disk[i].as_str()) {
            let c = disk[i].clone();
            proof {
                lemma_views_push(out@, c);
            }
            out.push(c);
        }
        proof {
            assert(views_of(out@) =~= orphans_prefix(d, refs, i + 1));
        }
        i = i + 1;
    }
    out
}

/// The orphan sweep's law: a file under the image directory is selected
/// for deletion exactly when no stored row references its path — an
/// unreferenced file goes, a referenced one stays.
pub proof fn lemma_orphans_exact(disk: Seq<Seq<char>>, referenced: Seq<Seq<char>>, n: int)
    requires
        0 <= n <= disk.len(),
    ensures
        forall|k: int|
            0 <= k < orphans_prefix(disk, referenced, n).len() ==> !path_in(
                referenced,
                #[trigger] orphans_prefix(disk, referenced, n)[k],
            ) && path_in(disk, orphans_prefix(disk, referenced, n)[k]),
        forall|i: int|
            0 <= i < n && !path_in(referenced, #[trigger] disk[i]) ==> path_in(
                orphans_prefix(disk, referenced, n),
                disk[i],
            ),
    decreases n,
{
    if n > 0 {
        lemma_orphans_exact(disk, referenced, n - 1);
        let prev = orphans_prefix(disk, referenced, n - 1);
        let cur = orphans_prefix(disk, referenced, n);
        assert forall|k: int| 0 <= k < cur.len() implies !path_in(
            referenced,
            #[trigger] cur[k],
        ) && path_in(disk, cur[k]) by {
            if k < prev.len() {
                assert(cur[k] == prev[k]);
            } else {
                assert(cur[k] == disk[n - 1]);
                assert(path_in(disk, disk[n - 1]));
            }
        }
        assert forall|i: int|
            0 <= i < n && !path_in(referenced, #[trigger] disk[i]) implies path_in(
            cur,
            disk[i],
        ) by {
            if i < n - 1 {
                let k = choose|k: int| 0 <= k < prev.len() && prev[k] == disk[i];
                assert(cur[k] == disk[i]);
            } else {
                assert(cur[cur.len() - 1] == disk[n - 1]);
            }
        }
    }
}

} // verus!

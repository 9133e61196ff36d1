//! The thumbnail cache engine: the hit-or-miss decision for `ensure`,
//! age- and size-bounded eviction planning, and usage statistics.
//!
//! The cache itself is a flat directory of `{key}.jpg` files; callers list
//! it, hand the listing here as plain values, and perform the deletions
//! the returned plan calls for. Eviction deletes every file older than the
//! cutoff, then — only if the remaining total still exceeds the size
//! budget — the oldest remaining files, never more than needed to get
//! under the budget.

use vstd::prelude::*;
use vstd::string::StringExecFns;

verus! {

/// One file of the cache directory: its name, size and modification time.
pub struct CacheFileMeta {
    /// File name within the cache directory.
    pub name: String,
    /// Size in bytes.
    pub size: u64,
    /// Modification time, seconds since the epoch.
    pub mtime: u64,
}

/// Total size of a list of cache files.
pub open spec fn sum_sizes(files: Seq<CacheFileMeta>) -> int
    decreases files.len(),
{
    if files.len() == 0 {
        0
    } else {
        files[0].size + sum_sizes(files.drop_first())
    }
}

pub proof fn lemma_sum_sizes_concat(a: Seq<CacheFileMeta>, b: Seq<CacheFileMeta>)
    ensures
        sum_sizes(a + b) == sum_sizes(a) + sum_sizes(b),
    decreases a.len(),
{
    if a.len() == 0 {
        assert(a + b =~= b);
    } else {
        lemma_sum_sizes_concat(a.drop_first(), b);
        assert((a + b).drop_first() =~= a.drop_first() + b);
    }
}

pub proof fn lemma_sum_sizes_nonneg(s: Seq<CacheFileMeta>)
    ensures
        sum_sizes(s) >= 0,
    decreases s.len(),
{
    if s.len() > 0 {
        lemma_sum_sizes_nonneg(s.drop_first());
    }
}

pub proof fn lemma_sum_sizes_singleton(f: CacheFileMeta)
    ensures
        sum_sizes(seq![f]) == f.size,
{
    assert(seq![f].drop_first() =~= Seq::<CacheFileMeta>::empty());
    assert(sum_sizes(Seq::<CacheFileMeta>::empty()) == 0);
}

proof fn lemma_sum_sizes_remove(s: Seq<CacheFileMeta>, i: int)
    requires
        0 <= i < s.len(),
    ensures
        sum_sizes(s.remove(i)) == sum_sizes(s) - s[i].size,
{
    let pre = s.subrange(0, i);
    let mid = seq![s[i]];
    let post = s.subrange(i + 1, s.len() as int);
    assert(s =~= pre + mid + post);
    assert(s.remove(i) =~= pre + post);
    lemma_sum_sizes_concat(pre + mid, post);
    lemma_sum_sizes_concat(pre, mid);
    lemma_sum_sizes_concat(pre, post);
    lemma_sum_sizes_singleton(s[i]);
}

/// Two lists holding the same files (as a multiset) have the same total.
pub proof fn lemma_sum_sizes_multiset(s1: Seq<CacheFileMeta>, s2: Seq<CacheFileMeta>)
    requires
        s1.to_multiset() == s2.to_multiset(),
    ensures
        sum_sizes(s1) == sum_sizes(s2),
    decreases s1.len(),
{
    broadcast use vstd::seq_lib::group_to_multiset_ensures;
    broadcast use vstd::multiset::group_multiset_axioms;

    if s1.len() == 0 {
        assert(s2.to_multiset().len() == 0);
        assert(s2.len() == 0);
    } else {
        let x = s1[0];
        assert(s1.contains(x));
        assert(s1.to_multiset().count(x) > 0);
        assert(s2.to_multiset().count(x) > 0);
        assert(s2.contains(x));
        let j = choose|j: int| 0 <= j < s2.len() && s2[j] == x;
        assert(s1.remove(0).to_multiset() == s1.to_multiset().remove(x));
        assert(s2.remove(j).to_multiset() == s2.to_multiset().remove(x));
        assert(s1.remove(0) =~= s1.drop_first());
        lemma_sum_sizes_multiset(s1.drop_first(), s2.remove(j));
        lemma_sum_sizes_remove(s2, j);
    }
}

proof fn lemma_mtime_chain(s: Seq<CacheFileMeta>, i: int, j: int)
    requires
        forall|k: int| 0 <= k < s.len() - 1 ==> (#[trigger] s[k]).mtime <= s[k + 1].mtime,
        0 <= i <= j < s.len(),
    ensures
        s[i].mtime <= s[j].mtime,
    decreases j - i,
{
    if i < j {
        lemma_mtime_chain(s, i, j - 1);
    }
}

/// Sort cache files by modification time, oldest first (insertion sort).
#[verifier::rlimit(50)]
fn sort_by_mtime(v: Vec<CacheFileMeta>) -> (r: Vec<CacheFileMeta>)
    ensures
        r@.to_multiset() == v@.to_multiset(),
        r@.len() == v@.len(),
        forall|i: int, j: int| 0 <= i <= j < r@.len() ==> (#[trigger] r@[i]).mtime
            <= (#[trigger] r@[j]).mtime,
{
    let ghost orig = v@;
    let mut v = v;
    let mut i: usize = 1;
    while i < v.len()
        invariant
            i >= 1,
            v@.to_multiset() == orig.to_multiset(),
            v@.len() == orig.len(),
            forall|k: int| 0 <= k < i - 1 && k < v@.len() - 1 ==> (#[trigger] v@[k]).mtime <= v@[k
                + 1].mtime,
        decreases v.len() - i,
    {
        let ghost before = v@;
        let x = v.remove(i);
        let mut pos: usize = i;
        while pos > 0 && v[pos - 1].mtime > x.mtime
            invariant
                pos <= i,
                i < before.len(),
                v@ == before.remove(i as int),
                forall|k: int| pos <= k < i ==> (#[trigger] v@[k]).mtime > x.mtime,
            decreases pos,
        {
            pos = pos - 1;
        }
        v.insert(pos, x);
        proof {
            broadcast use vstd::seq_lib::group_to_multiset_ensures;
            broadcast use vstd::multiset::group_multiset_axioms;

            let bx = before[i as int];
            assert(before.contains(bx));
            assert(before.to_multiset().count(bx) > 0);
            assert(before.remove(i as int).to_multiset() =~= before.to_multiset().remove(bx));
            assert(v@ == before.remove(i as int).insert(pos as int, bx));
            assert(v@.to_multiset() == before.remove(i as int).to_multiset().insert(bx));
            assert(v@.to_multiset() =~= before.to_multiset());
            let r = before.remove(i as int);
            assert(forall|j: int| 0 <= j < i ==> r[j] == before[j]);
            assert forall|k: int| 0 <= k < i && k < v@.len() - 1 implies (#[trigger] v@[k]).mtime
                <= v@[k + 1].mtime by {
                if k + 1 < pos {
                    assert(v@[k] == r[k] && v@[k + 1] == r[k + 1]);
                } else if k + 1 == pos {
                    assert(v@[k] == r[k] && v@[k + 1] == x);
                } else if k == pos {
                    assert(v@[k] == x && v@[k + 1] == r[k]);
                } else {
                    assert(v@[k] == r[k - 1] && v@[k + 1] == r[k]);
                }
            }
        }
        i = i + 1;
    }
    proof {
        assert forall|i: int, j: int| 0 <= i <= j < v@.len() implies (#[trigger] v@[i]).mtime
            <= (#[trigger] v@[j]).mtime by {
            lemma_mtime_chain(v@, i, j);
        }
    }
    v
}

/// What eviction decided: the files to delete (in deletion order), the
/// files that stay, and the totals the deletion amounts to.
pub struct EvictionPlan {
    /// Files to delete, phase-one (too old) first, then oldest-first.
    pub delete: Vec<CacheFileMeta>,
    /// Files that remain in the cache.
    pub keep: Vec<CacheFileMeta>,
    /// Number of files deleted.
    pub files_deleted: usize,
    /// Bytes the deletions free.
    pub bytes_freed: u64,
}

/// Plan an eviction sweep. Phase one deletes every file whose
/// modification time is before `cutoff`; phase two, only if the remaining
/// total size still exceeds `max_total`, deletes the oldest remaining
/// files until the total is at or under the budget — never more than
/// needed.
#[verifier::rlimit(100)]
pub fn plan_eviction(files: Vec<CacheFileMeta>, cutoff: u64, max_total: u64) -> (p: EvictionPlan)
    requires
        sum_sizes(files@) <= u64::MAX,
    ensures
        // the plan is a partition of the input
        p.delete@.to_multiset().add(p.keep@.to_multiset()) == files@.to_multiset(),
        p.files_deleted == p.delete@.len(),
        p.bytes_freed as int == sum_sizes(p.delete@),
        // every file older than the cutoff is deleted
        forall|j: int| 0 <= j < p.keep@.len() ==> (#[trigger] p.keep@[j]).mtime >= cutoff,
        // what remains fits the budget
        sum_sizes(p.keep@) <= max_total,
        // phase two deletes oldest-first ...
        forall|i: int, j: int|
            0 <= i < p.delete@.len() && (#[trigger] p.delete@[i]).mtime >= cutoff && 0 <= j
                < p.keep@.len() ==> p.delete@[i].mtime <= (#[trigger] p.keep@[j]).mtime,
        // ... and no more than needed: the last deletion is the newest
        // phase-two one, and restoring it alone would break the budget
        (exists|i: int| 0 <= i < p.delete@.len() && (#[trigger] p.delete@[i]).mtime >= cutoff)
            ==> ({
            let d = p.delete@.last();
            &&& p.delete@.len() > 0
            &&& d.mtime >= cutoff
            &&& sum_sizes(p.keep@) + d.size > max_total
            &&& forall|i: int|
                0 <= i < p.delete@.len() && (#[trigger] p.delete@[i]).mtime >= cutoff
                    ==> p.delete@[i].mtime <= d.mtime
        }),
        // when every file is older than the cutoff, all are deleted and
        // the freed bytes are the whole total
        (forall|i: int| 0 <= i < files@.len() ==> (#[trigger] files@[i]).mtime < cutoff) ==> (
        p.files_deleted == files@.len() && p.bytes_freed as int == sum_sizes(files@)),
{
    proof {
        lemma_sum_sizes_nonneg(files@);
    }
    let ghost files0 = files@;
    // phase one: split by age
    let mut rest = files;
    let n_files = rest.len();
    let mut delete: Vec<CacheFileMeta> = Vec::new();
    let mut survivors: Vec<CacheFileMeta> = Vec::new();
    let mut freed: u64 = 0;
    let mut total: u64 = 0;
    let mut i: usize = 0;
    proof {
        broadcast use vstd::seq_lib::group_to_multiset_ensures;
        broadcast use vstd::multiset::group_multiset_axioms;

        assert(files0.take(0) =~= Seq::<CacheFileMeta>::empty());
        assert(files0.skip(0) =~= files0);
        assert(delete@ =~= files0.take(0));
        assert(survivors@ =~= files0.take(0));
        assert(delete@.to_multiset().add(survivors@.to_multiset()) =~= files0.take(
            0,
        ).to_multiset());
    }
    while rest.len() > 0
        invariant
            i <= files0.len(),
            files0.len() == n_files,
            rest@ == files0.skip(i as int),
            sum_sizes(files0) <= u64::MAX,
            delete@.to_multiset().add(survivors@.to_multiset()) =~= files0.take(
                i as int,
            ).to_multiset(),
            delete@.len() + survivors@.len() == i,
            forall|j: int| 0 <= j < delete@.len() ==> (#[trigger] delete@[j]).mtime < cutoff,
            forall|j: int| 0 <= j < survivors@.len() ==> (#[trigger] survivors@[j]).mtime
                >= cutoff,
            freed as int == sum_sizes(delete@),
            total as int == sum_sizes(survivors@),
            sum_sizes(delete@) + sum_sizes(survivors@) == sum_sizes(files0.take(i as int)),
        decreases rest.len(),
    {
        proof {
            assert(files0.skip(i as int).len() > 0);
            assert(i < files0.len());
            assert(files0.skip(i as int)[0] == files0[i as int]);
            assert(files0.skip(i as int).drop_first() =~= files0.skip(i + 1));
            lemma_sum_sizes_concat(files0.take(i as int), seq![files0[i as int]]);
            assert(files0.take(i as int) + seq![files0[i as int]] =~= files0.take(i + 1));
            lemma_sum_sizes_singleton(files0[i as int]);
            lemma_sum_sizes_concat(files0.take(i + 1), files0.skip(i + 1));
            assert(files0.take(i + 1) + files0.skip(i + 1) =~= files0);
            lemma_sum_sizes_nonneg(files0.skip(i + 1));
            lemma_sum_sizes_nonneg(delete@);
            lemma_sum_sizes_nonneg(survivors@);
        }
        let ghost d_old = delete@;
        let ghost s_old = survivors@;
        let f = rest.remove(0);
        let old_enough = f.mtime < cutoff;
        if old_enough {
            freed = freed + f.size;
            delete.push(f);
        } else {
            total = total + f.size;
            survivors.push(f);
        }
        proof {
            broadcast use vstd::seq_lib::group_to_multiset_ensures;
            broadcast use vstd::multiset::group_multiset_axioms;

            let x = files0[i as int];
            assert(files0.take(i + 1) =~= files0.take(i as int).push(x));
            assert(files0.take(i + 1).to_multiset() =~= files0.take(i as int).to_multiset().insert(
                x,
            ));
            if old_enough {
                assert(delete@ == d_old.push(x));
                assert(delete@.to_multiset() =~= d_old.to_multiset().insert(x));
                assert(delete@ =~= d_old + seq![x]);
                lemma_sum_sizes_concat(d_old, seq![x]);
                assert(delete@.to_multiset().add(survivors@.to_multiset()) =~= files0.take(
                    i + 1,
                ).to_multiset());
            } else {
                assert(survivors@ == s_old.push(x));
                assert(survivors@.to_multiset() =~= s_old.to_multiset().insert(x));
                assert(survivors@ =~= s_old + seq![x]);
                lemma_sum_sizes_concat(s_old, seq![x]);
                assert(delete@.to_multiset().add(survivors@.to_multiset()) =~= files0.take(
                    i + 1,
                ).to_multiset());
            }
        }
        i = i + 1;
    }
    proof {
        assert(i == files0.len());
        assert(files0.take(files0.len() as int) =~= files0);
    }
    let ghost delete1 = delete@;
    let ghost survivors1 = survivors@;

    // phase two: oldest-first until at or under budget
    let mut sorted = sort_by_mtime(survivors);
    proof {
        lemma_sum_sizes_multiset(sorted@, survivors1);
    }
    let ghost sorted0 = sorted@;
    proof {
        assert(sorted0.skip(0) =~= sorted0);
        assert(sorted0.take(0) =~= Seq::<CacheFileMeta>::empty());
        assert(sum_sizes(Seq::<CacheFileMeta>::empty()) == 0);
    }
    let mut k: usize = 0;
    while total > max_total && k < sorted.len()
        invariant
            k <= sorted@.len(),
            sorted@ == sorted0,
            total as int == sum_sizes(sorted0.skip(k as int)),
            freed as int == sum_sizes(delete1) + sum_sizes(sorted0.take(k as int)),
            freed as int + total as int == sum_sizes(delete1) + sum_sizes(sorted0),
            sum_sizes(delete1) + sum_sizes(sorted0) <= u64::MAX,
            k > 0 ==> total as int + sorted0[k as int - 1].size > max_total,
        decreases sorted.len() - k,
    {
        proof {
            assert(sorted0.skip(k as int).drop_first() =~= sorted0.skip(k + 1));
            assert(sorted0.skip(k as int)[0] == sorted0[k as int]);
            lemma_sum_sizes_nonneg(sorted0.skip(k + 1));
            lemma_sum_sizes_concat(sorted0.take(k as int), seq![sorted0[k as int]]);
            assert(sorted0.take(k as int) + seq![sorted0[k as int]] =~= sorted0.take(k + 1));
            lemma_sum_sizes_singleton(sorted0[k as int]);
            lemma_sum_sizes_nonneg(delete1);
            lemma_sum_sizes_nonneg(sorted0.take(k as int));
        }
        let size_k = sorted[k].size;
        total = total - size_k;
        freed = freed + size_k;
        k = k + 1;
    }
    let ghost kk = k as int;
    // move the deleted prefix over
    let mut cnt: usize = 0;
    while cnt < k
        invariant
            cnt <= kk,
            kk == k as int,
            kk <= sorted0.len(),
            sorted@ == sorted0.skip(cnt as int),
            delete@ == delete1 + sorted0.take(cnt as int),
        decreases k - cnt,
    {
        proof {
            assert(sorted0.skip(cnt as int).drop_first() =~= sorted0.skip(cnt + 1));
            assert(sorted0.skip(cnt as int)[0] == sorted0[cnt as int]);
            assert(delete1 + sorted0.take(cnt as int).push(sorted0[cnt as int]) =~= delete1
                + sorted0.take(cnt + 1));
        }
        let f = sorted.remove(0);
        delete.push(f);
        cnt = cnt + 1;
    }
    let keep = sorted;

    proof {
        broadcast use vstd::seq_lib::group_to_multiset_ensures;
        broadcast use vstd::multiset::group_multiset_axioms;
        broadcast use vstd::seq_lib::lemma_multiset_commutative;

        assert(keep@ == sorted0.skip(kk));
        assert(delete@ == delete1 + sorted0.take(kk));
        // totals
        lemma_sum_sizes_concat(delete1, sorted0.take(kk));
        lemma_sum_sizes_concat(sorted0.take(kk), sorted0.skip(kk));
        assert(sorted0.take(kk) + sorted0.skip(kk) =~= sorted0);
        // partition
        assert((delete1 + sorted0.take(kk)).to_multiset() =~= delete1.to_multiset().add(
            sorted0.take(kk).to_multiset(),
        ));
        assert((sorted0.take(kk) + sorted0.skip(kk)).to_multiset() =~= sorted0.take(
            kk,
        ).to_multiset().add(sorted0.skip(kk).to_multiset()));
        assert(sorted0.to_multiset() == survivors1.to_multiset());
        assert(delete@.to_multiset().add(keep@.to_multiset()) =~= delete1.to_multiset().add(
            survivors1.to_multiset(),
        ));
        // every survivor is on time
        assert forall|j: int| 0 <= j < sorted0.len() implies (#[trigger] sorted0[j]).mtime
            >= cutoff by {
            assert(sorted0.contains(sorted0[j]));
            assert(sorted0.to_multiset().count(sorted0[j]) > 0);
            assert(survivors1.to_multiset().count(sorted0[j]) > 0);
            assert(survivors1.contains(sorted0[j]));
            let w = choose|w: int| 0 <= w < survivors1.len() && survivors1[w] == sorted0[j];
            assert(survivors1[w].mtime >= cutoff);
        }
        // budget
        if kk == sorted0.len() {
            assert(keep@ =~= Seq::<CacheFileMeta>::empty());
        }
        lemma_sum_sizes_nonneg(sorted0.take(kk));
        lemma_sum_sizes_nonneg(delete1);
        // oldest-first and minimality
        assert forall|i: int, j: int|
            0 <= i < delete@.len() && (#[trigger] delete@[i]).mtime >= cutoff && 0 <= j
                < keep@.len() implies delete@[i].mtime <= (#[trigger] keep@[j]).mtime by {
            if i < delete1.len() {
                assert(delete@[i] == delete1[i]);
            } else {
                assert(delete@[i] == sorted0[i - delete1.len()]);
                assert(keep@[j] == sorted0[kk + j]);
            }
        }
        if exists|i: int| 0 <= i < delete@.len() && (#[trigger] delete@[i]).mtime >= cutoff {
            let i = choose|i: int| 0 <= i < delete@.len() && (#[trigger] delete@[i]).mtime
                >= cutoff;
            assert(i >= delete1.len());
            assert(kk > 0);
            assert(delete@.len() == delete1.len() + kk);
            assert(delete@.last() == sorted0[kk - 1]);
            assert(sorted0[kk - 1].mtime >= cutoff);
            assert(sum_sizes(keep@) + sorted0[kk - 1].size > max_total);
            assert forall|w: int|
                0 <= w < delete@.len() && (#[trigger] delete@[w]).mtime >= cutoff implies (
            delete@[w]).mtime <= delete@.last().mtime by {
                assert(w >= delete1.len());
                assert(delete@[w] == sorted0[w - delete1.len()]);
            }
        }
        // when everything is old, phase one already deleted everything
        if forall|i: int| 0 <= i < files0.len() ==> (#[trigger] files0[i]).mtime < cutoff {
            if survivors1.len() > 0 {
                let e = survivors1[0];
                assert(survivors1.contains(e));
                assert(survivors1.to_multiset().count(e) > 0);
                assert(files0.to_multiset().count(e) > 0);
                assert(files0.contains(e));
                let w = choose|w: int| 0 <= w < files0.len() && files0[w] == e;
                assert(files0[w].mtime < cutoff);
                assert(e.mtime >= cutoff);
            }
            assert(survivors1.len() == 0);
            assert(survivors1 =~= Seq::<CacheFileMeta>::empty());
            assert(sorted0.len() == 0);
            assert(kk == 0);
            assert(sorted0.take(0) =~= Seq::<CacheFileMeta>::empty());
            assert(delete@ =~= delete1);
            assert forall|a: CacheFileMeta| true implies delete1.to_multiset().count(a)
                == files0.to_multiset().count(a) by {
                assert(delete1.to_multiset().add(survivors1.to_multiset()).count(a)
                    == files0.to_multiset().count(a));
            }
            assert(delete1.to_multiset() =~= files0.to_multiset());
            lemma_sum_sizes_multiset(delete1, files0);
        }
    }
    let files_deleted = delete.len();
    EvictionPlan { delete, keep, files_deleted, bytes_freed: freed }
}

/// Cache usage: the number of files and their total size, saturating at
/// the largest representable total.
pub fn get_thumbnail_stats(files: &Vec<CacheFileMeta>) -> (r: (usize, u64))
    ensures
        r.0 == files@.len(),
        r.1 as int == if sum_sizes(files@) <= u64::MAX {
            sum_sizes(files@)
        } else {
            u64::MAX as int
        },
{
    let mut total: u64 = 0;
    let mut i: usize = 0;
    proof {
        assert(files@.take(0) =~= Seq::<CacheFileMeta>::empty());
    }
    while i < files.len()
        invariant
            i <= files@.len(),
            total as int == if sum_sizes(files@.take(i as int)) <= u64::MAX {
                sum_sizes(files@.take(i as int))
            } else {
                u64::MAX as int
            },
        decreases files.len() - i,
    {
        proof {
            lemma_sum_sizes_concat(files@.take(i as int), seq![files@[i as int]]);
            assert(files@.take(i as int) + seq![files@[i as int]] =~= files@.take(i + 1));
            lemma_sum_sizes_singleton(files@[i as int]);
            lemma_sum_sizes_nonneg(files@.take(i as int));
        }
        let s = files[i].size;
        if s > u64::MAX - total {
            total = u64::MAX;
        } else {
            total = total + s;
        }
        i = i + 1;
    }
    proof {
        assert(files@.take(files@.len() as int) =~= files@);
    }
    (files.len(), total)
}

/// Count of batch items that did new work (a nonzero byte count).
pub open spec fn count_new(sizes: Seq<u64>) -> int
    decreases sizes.len(),
{
    if sizes.len() == 0 {
        0
    } else {
        (if sizes[0] > 0 {
            1int
        } else {
            0int
        }) + count_new(sizes.drop_first())
    }
}

/// Total new bytes of a batch.
pub open spec fn sum_new(sizes: Seq<u64>) -> int
    decreases sizes.len(),
{
    if sizes.len() == 0 {
        0
    } else {
        sizes[0] + sum_new(sizes.drop_first())
    }
}

proof fn lemma_new_concat(a: Seq<u64>, b: Seq<u64>)
    ensures
        count_new(a + b) == count_new(a) + count_new(b),
        sum_new(a + b) == sum_new(a) + sum_new(b),
        count_new(a) >= 0,
        sum_new(a) >= 0,
    decreases a.len(),
{
    if a.len() == 0 {
        assert(a + b =~= b);
        lemma_new_nonneg(b);
    } else {
        lemma_new_concat(a.drop_first(), b);
        assert((a + b).drop_first() =~= a.drop_first() + b);
    }
}

proof fn lemma_new_nonneg(s: Seq<u64>)
    ensures
        count_new(s) >= 0,
        sum_new(s) >= 0,
    decreases s.len(),
{
    if s.len() > 0 {
        lemma_new_nonneg(s.drop_first());
    }
}

/// Aggregate a batch's per-item results: how many items did new cache
/// work, and how many bytes it came to (saturating).
pub fn aggregate_new(new_bytes: &Vec<u64>) -> (r: (usize, u64))
    ensures
        r.0 == count_new(new_bytes@),
        r.1 as int == if sum_new(new_bytes@) <= u64::MAX {
            sum_new(new_bytes@)
        } else {
            u64::MAX as int
        },
{
    let mut count: usize = 0;
    let mut total: u64 = 0;
    let mut i: usize = 0;
    proof {
        assert(new_bytes@.take(0) =~= Seq::<u64>::empty());
    }
    while i < new_bytes.len()
        invariant
            i <= new_bytes@.len(),
            count == count_new(new_bytes@.take(i as int)),
            count <= i,
            total as int == if sum_new(new_bytes@.take(i as int)) <= u64::MAX {
                sum_new(new_bytes@.take(i as int))
            } else {
                u64::MAX as int
            },
        decreases new_bytes@.len() - i,
    {
        proof {
            lemma_new_concat(new_bytes@.take(i as int), seq![new_bytes@[i as int]]);
            assert(new_bytes@.take(i as int) + seq![new_bytes@[i as int]] =~= new_bytes@.take(
                i + 1,
            ));
            assert(seq![new_bytes@[i as int]].drop_first() =~= Seq::<u64>::empty());
            assert(count_new(Seq::<u64>::empty()) == 0);
            assert(sum_new(Seq::<u64>::empty()) == 0);
            assert(count_new(seq![new_bytes@[i as int]]) == (if new_bytes@[i as int] > 0 {
                1int
            } else {
                0int
            }));
            assert(sum_new(seq![new_bytes@[i as int]]) == new_bytes@[i as int]);
        }
        let s = new_bytes[i];
        if s > 0 {
            count = count + 1;
        }
        if s > u64::MAX - total {
            total = u64::MAX;
        } else {
            total = total + s;
        }
        i = i + 1;
    }
    proof {
        assert(new_bytes@.take(new_bytes@.len() as int) =~= new_bytes@);
    }
    (count, total)
}

/// The process configuration the cache engine reads: an optional
/// override of the cache directory, passed in explicitly so independent
/// caches can coexist.
pub struct Config {
    /// The configured cache directory, if any.
    pub cache_dir: Option<String>,
}

/// The directory thumbnails live in: the configured override, or the
/// caller's platform cache directory, with `thumbnail` appended.
pub fn get_thumbnail_dir(config: &Config, default_base: &str) -> (r: String)
    ensures
        r@ == (match config.cache_dir {
            Some(d) => d@,
            None => default_base@,
        }) + "/thumbnail"@,
{
    let mut base = match &config.cache_dir {
        Some(d) => d.clone(),
        None => default_base.to_owned(),
    };
    base.append("/thumbnail");
    base
}

/// The file name of a cache entry: `{key}.jpg`.
pub fn thumb_file_name(key: &str) -> (r: String)
    ensures
        r@ == key@ + ".jpg"@,
{
    let mut s = key.to_owned();
    s.append(".jpg");
    s
}

/// The full path of a cache entry: `{dir}/{key}.jpg`.
pub fn thumb_path_in(dir: &str, key: &str) -> (r: String)
    ensures
        r@ == dir@ + "/"@ + key@ + ".jpg"@,
{
    let mut s = dir.to_owned();
    s.append("/");
    s.append(key);
    s.append(".jpg");
    s
}

/// The cover URI a scanned folder gets: the thumbnail's asset URI when
/// the cache holds one, else the source image's own; empty when the
/// folder has no cover.
pub fn resolve_cover_url(cover_path: Option<&str>, thumb_path: &str, thumb_exists: bool) -> (r:
    String)
    ensures
        match cover_path {
            None => r@ == Seq::<char>::empty(),
            Some(cp) => r@ == crate::percent::spec_asset_url(
                if thumb_exists {
                    thumb_path@
                } else {
                    cp@
                },
            ),
        },
{
    match cover_path {
        None => String::new(),
        Some(cp) => {
            if thumb_exists {
                crate::percent::convert_file_src(thumb_path)
            } else {
                crate::percent::convert_file_src(cp)
            }
        },
    }
}

/// The cache model: keys name stored thumbnail bytes. `ensure` returns
/// the stored bytes on a hit without decoding; on a miss it stores and
/// returns the transcoded bytes. The third component tells whether decode
/// work was done.
pub open spec fn ensure_model(
    cache: Map<Seq<char>, Seq<u8>>,
    key: Seq<char>,
    transcoded: Seq<u8>,
) -> (Map<Seq<char>, Seq<u8>>, Seq<u8>, bool) {
    if cache.contains_key(key) {
        (cache, cache[key], false)
    } else {
        (cache.insert(key, transcoded), transcoded, true)
    }
}

/// Law: calling `ensure` twice on an unchanged source yields byte-identical
/// output, and the second call does no decode work — whatever a second
/// transcode would have produced.
pub proof fn lemma_ensure_idempotent(
    cache: Map<Seq<char>, Seq<u8>>,
    key: Seq<char>,
    t1: Seq<u8>,
    t2: Seq<u8>,
)
    ensures
        ({
            let first = ensure_model(cache, key, t1);
            let second = ensure_model(first.0, key, t2);
            second.1 == first.1 && !second.2 && second.0 == first.0
        }),
{
}

} // verus!

//! The bounded list of the largest files seen.
//!
//! The list is kept in descending order of size. A new file comes to stand
//! behind every file that is at least as large, so that among files of one
//! size the one seen first stays first; what then stands beyond the bound is
//! dropped.

use vstd::prelude::*;

verus! {

/// A file and its size in bytes, as the model sees it.
pub type FileSize = (Seq<char>, u64);

/// Descending by size.
pub open spec fn sorted_desc(list: Seq<FileSize>) -> bool {
    forall|i: int, j: int| 0 <= i <= j < list.len() ==> list[i].1 >= list[j].1
}

/// Where a file of `size` comes to stand in `list`: the number of leading
/// entries that are at least as large.
pub open spec fn rank(list: Seq<FileSize>, size: u64) -> int
    decreases list.len(),
{
    if list.len() == 0 || list[0].1 < size {
        0
    } else {
        1 + rank(list.skip(1), size)
    }
}

/// `list` with `item` put in at its rank.
pub open spec fn insert_ranked(list: Seq<FileSize>, item: FileSize) -> Seq<FileSize> {
    list.insert(rank(list, item.1), item)
}

/// The first `n` entries of `list`, or all of it where it holds fewer.
pub open spec fn first_n(list: Seq<FileSize>, n: int) -> Seq<FileSize> {
    if 0 <= n < list.len() {
        list.take(n)
    } else if n < 0 {
        Seq::empty()
    } else {
        list
    }
}

/// The list after a file was offered to it: unchanged where the file is
/// smaller than `threshold`, else with the file at its rank and cut back to
/// `top_n` entries.
pub open spec fn keep_largest(
    list: Seq<FileSize>,
    item: FileSize,
    top_n: int,
    threshold: u64,
) -> Seq<FileSize> {
    if item.1 < threshold {
        list
    } else {
        first_n(insert_ranked(list, item), top_n)
    }
}

/// The list that results from offering the files of `seen` one by one, in
/// order, to an empty list.
pub open spec fn largest_of(seen: Seq<FileSize>, top_n: int, threshold: u64) -> Seq<FileSize>
    decreases seen.len(),
{
    if seen.len() == 0 {
        Seq::empty()
    } else {
        keep_largest(largest_of(seen.drop_last(), top_n, threshold), seen.last(), top_n, threshold)
    }
}

/// What the list promises at every moment: it is in descending order, no
/// longer than `top_n`, and holds no file under `threshold`.
pub open spec fn well_ranked(list: Seq<FileSize>, top_n: int, threshold: u64) -> bool {
    &&& sorted_desc(list)
    &&& list.len() <= top_n
    &&& forall|i: int| 0 <= i < list.len() ==> list[i].1 >= threshold
}

/// The rank lies inside the list, everything before it is at least as
/// large as `size`, and the entry at it, if any, is smaller.
pub proof fn lemma_rank(list: Seq<FileSize>, size: u64)
    ensures
        0 <= rank(list, size) <= list.len(),
        forall|i: int| 0 <= i < rank(list, size) ==> list[i].1 >= size,
        rank(list, size) < list.len() ==> list[rank(list, size)].1 < size,
    decreases list.len(),
{
    if list.len() > 0 && list[0].1 >= size {
        let rest = list.skip(1);
        lemma_rank(rest, size);
        assert forall|i: int| 0 <= i < rank(list, size) implies list[i].1 >= size by {
            if i > 0 {
                assert(rest[i - 1] == list[i]);
            }
        }
        if rank(list, size) < list.len() {
            assert(rest[rank(rest, size)] == list[rank(list, size)]);
        }
    }
}

/// An index with those three properties is the rank.
pub proof fn lemma_rank_is(list: Seq<FileSize>, size: u64, k: int)
    requires
        0 <= k <= list.len(),
        forall|i: int| 0 <= i < k ==> list[i].1 >= size,
        k < list.len() ==> list[k].1 < size,
    ensures
        rank(list, size) == k,
    decreases list.len(),
{
    if list.len() > 0 && list[0].1 >= size {
        let rest = list.skip(1);
        assert forall|i: int| 0 <= i < k - 1 implies rest[i].1 >= size by {
            assert(rest[i] == list[i + 1]);
        }
        if k < list.len() {
            assert(rest[k - 1] == list[k]);
        }
        lemma_rank_is(rest, size, k - 1);
    }
}

/// Putting a file in at its rank is what appending it and sorting again,
/// stably and in descending order, comes to: the list stays in descending
/// order, the file stands behind every entry that is at least as large and
/// before every smaller one, and the other entries keep their order.
pub proof fn lemma_insert_ranked(list: Seq<FileSize>, item: FileSize)
    requires
        sorted_desc(list),
    ensures
        sorted_desc(insert_ranked(list, item)),
        insert_ranked(list, item).len() == list.len() + 1,
        insert_ranked(list, item)[rank(list, item.1)] == item,
        insert_ranked(list, item).remove(rank(list, item.1)) == list,
        forall|i: int| 0 <= i < rank(list, item.1) ==> insert_ranked(list, item)[i].1 >= item.1,
        forall|i: int|
            rank(list, item.1) < i <= list.len() ==> insert_ranked(list, item)[i].1 < item.1,
        insert_ranked(list, item).to_multiset() == list.push(item).to_multiset(),
{
    let k = rank(list, item.1);
    let out = insert_ranked(list, item);
    lemma_rank(list, item.1);
    assert forall|i: int| k < i <= list.len() implies out[i].1 < item.1 by {
        assert(out[i] == list[i - 1]);
        assert(list[k].1 >= list[i - 1].1);
    }
    assert forall|i: int, j: int| 0 <= i <= j < out.len() implies out[i].1 >= out[j].1 by {
        if i < k {
            assert(out[i] == list[i]);
        } else if i > k {
            assert(out[i] == list[i - 1]);
        }
        if j < k {
            assert(out[j] == list[j]);
        } else if j > k {
            assert(out[j] == list[j - 1]);
        }
    }
    assert(out.remove(k) =~= list);
    vstd::seq_lib::to_multiset_insert(list, k, item);
    vstd::seq_lib::to_multiset_build(list, item);
    assert(out.to_multiset() =~= list.push(item).to_multiset());
}

/// Offering a file keeps the list's promise.
pub proof fn lemma_keep_largest_ranked(
    list: Seq<FileSize>,
    item: FileSize,
    top_n: int,
    threshold: u64,
)
    requires
        well_ranked(list, top_n, threshold),
    ensures
        well_ranked(keep_largest(list, item, top_n, threshold), top_n, threshold),
{
    if item.1 >= threshold {
        lemma_insert_ranked(list, item);
        lemma_rank(list, item.1);
        let all = insert_ranked(list, item);
        let kept = first_n(all, top_n);
        assert forall|i: int| 0 <= i < all.len() implies all[i].1 >= threshold by {
            let k = rank(list, item.1);
            if i < k {
                assert(all[i] == list[i]);
            } else if i > k {
                assert(all[i] == list[i - 1]);
            }
        }
        assert forall|i: int| 0 <= i < kept.len() implies kept[i] == all[i] by {}
    }
}

/// The top-N law, over everything that was ever offered: the list is in
/// descending order, no longer than `top_n` and free of files under
/// `threshold`; and a file of at least `threshold` bytes that was offered
/// and is not in the list is no larger than any file in it, the list being
/// full.
pub proof fn lemma_largest_of(seen: Seq<FileSize>, top_n: int, threshold: u64)
    requires
        0 <= top_n,
    ensures
        well_ranked(largest_of(seen, top_n, threshold), top_n, threshold),
        forall|i: int|
            0 <= i < seen.len() && seen[i].1 >= threshold && !largest_of(
                seen,
                top_n,
                threshold,
            ).contains(#[trigger] seen[i]) ==> {
                &&& largest_of(seen, top_n, threshold).len() == top_n
                &&& forall|j: int|
                    0 <= j < top_n ==> largest_of(seen, top_n, threshold)[j].1 >= seen[i].1
            },
    decreases seen.len(),
{
    if seen.len() > 0 {
        let before = seen.drop_last();
        let item = seen.last();
        let old_top = largest_of(before, top_n, threshold);
        let top = largest_of(seen, top_n, threshold);
        lemma_largest_of(before, top_n, threshold);
        lemma_keep_largest_ranked(old_top, item, top_n, threshold);
        assert forall|i: int|
            0 <= i < seen.len() && seen[i].1 >= threshold && !top.contains(
                #[trigger] seen[i],
            ) implies {
            &&& top.len() == top_n
            &&& forall|j: int| 0 <= j < top_n ==> top[j].1 >= seen[i].1
        } by {
            if i < before.len() {
                assert(before[i] == seen[i]);
            }
            lemma_lost_file(old_top, item, top_n, threshold, seen[i]);
        }
    }
}

/// One step of the law above. A file `lost` that is not in the list after
/// `item` was offered, and that either is `item` itself, or was in the list
/// before, or was already no larger than any entry of a full list, is no
/// larger than any entry of the list, which is full.
proof fn lemma_lost_file(
    list: Seq<FileSize>,
    item: FileSize,
    top_n: int,
    threshold: u64,
    lost: FileSize,
)
    requires
        0 <= top_n,
        well_ranked(list, top_n, threshold),
        lost.1 >= threshold,
        !keep_largest(list, item, top_n, threshold).contains(lost),
        lost == item || list.contains(lost) || (list.len() == top_n && forall|j: int|
            0 <= j < top_n ==> list[j].1 >= lost.1),
    ensures
        keep_largest(list, item, top_n, threshold).len() == top_n,
        forall|j: int|
            0 <= j < top_n ==> keep_largest(list, item, top_n, threshold)[j].1 >= lost.1,
{
    let kept = keep_largest(list, item, top_n, threshold);
    if item.1 < threshold {
        assert(kept == list);
    } else {
        let k = rank(list, item.1);
        let all = insert_ranked(list, item);
        lemma_insert_ranked(list, item);
        lemma_rank(list, item.1);
        assert forall|i: int| 0 <= i < kept.len() implies kept[i] == all[i] by {}
        // Where `lost` stands in the full list `all`, if it stands there.
        if lost == item || list.contains(lost) {
            let at = if lost == item {
                k
            } else {
                let p = choose|p: int| 0 <= p < list.len() && list[p] == lost;
                if p < k {
                    p
                } else {
                    p + 1
                }
            };
            assert(0 <= at < all.len() && all[at] == lost);
            if at < kept.len() {
                assert(kept[at] == lost);
                assert(kept.contains(lost));
            }
            assert(kept.len() == top_n);
            assert forall|j: int| 0 <= j < top_n implies kept[j].1 >= lost.1 by {
                assert(kept[j] == all[j]);
            }
        } else {
            assert(kept.len() == top_n);
            assert forall|j: int| 0 <= j < top_n implies kept[j].1 >= lost.1 by {
                assert(kept[j] == all[j]);
                if j < k {
                    assert(all[j] == list[j]);
                } else if j > k {
                    assert(all[j] == list[j - 1]);
                } else {
                    assert(list[k].1 < item.1);
                }
            }
        }
    }
}

/// Offers the file at `path`, of `len` bytes, to `list`: a file smaller than
/// `threshold` is passed over; any other is put in at its rank, and the
/// list is cut back to `top_n` entries.
pub fn offer_file(list: &mut Vec<(String, u64)>, path: &str, len: u64, top_n: u64, threshold: u64)
    requires
        sorted_desc(old(list).deep_view()),
    ensures
        final(list).deep_view() == keep_largest(
            old(list).deep_view(),
            (path@, len),
            top_n as int,
            threshold,
        ),
{
    if len < threshold {
        return;
    }
    let ghost before = list.deep_view();
    let mut k: usize = list.len();
    while k > 0 && list[k - 1].1 < len
        invariant
            k <= list.len(),
            list.deep_view() == before,
            forall|i: int| k <= i < list.len() ==> before[i].1 < len,
        decreases k,
    {
        k = k - 1;
    }
    proof {
        assert forall|i: int| 0 <= i < k implies before[i].1 >= len by {
            assert(before[i].1 >= before[k - 1].1);
        }
        lemma_rank_is(before, len, k as int);
    }
    if (k as u64) < top_n {
        list.insert(k, (path.to_owned(), len));
        assert(list.deep_view() =~= insert_ranked(before, (path@, len)));
        if list.len() as u64 > top_n {
            list.truncate(top_n as usize);
        }
        assert(list.deep_view() =~= keep_largest(before, (path@, len), top_n as int, threshold));
    } else {
        if list.len() as u64 > top_n {
            list.truncate(top_n as usize);
        }
        assert(list.deep_view() =~= keep_largest(before, (path@, len), top_n as int, threshold));
    }
}

/// A copy of `list`.
pub fn copy_files(list: &Vec<(String, u64)>) -> (copy: Vec<(String, u64)>)
    ensures
        copy.deep_view() == list.deep_view(),
{
    let mut copy: Vec<(String, u64)> = Vec::new();
    let mut i: usize = 0;
    while i < list.len()
        invariant
            i <= list.len(),
            copy.len() == i,
            forall|k: int| 0 <= k < i ==> copy@[k].0@ == list@[k].0@ && copy@[k].1 == list@[k].1,
        decreases list.len() - i,
    {
        let path = list[i].0.clone();
        let size = list[i].1;
        copy.push((path, size));
        i = i + 1;
    }
    assert(copy.deep_view() =~= list.deep_view());
    copy
}

} // verus!

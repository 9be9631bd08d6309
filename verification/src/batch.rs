use vstd::prelude::*;

verus! {

/// The batch ranges over `file_splits` split-file indices form a chain:
/// each is a non-empty half-open range `[start, end)`, the first starts at
/// zero, each next one starts where the previous ended, and the last ends at
/// `file_splits`.
pub open spec fn ranges_chain(r: Seq<(usize, usize)>, file_splits: int) -> bool {
    &&& (r.len() > 0 ==> r[0].0 == 0 && r[r.len() - 1].1 == file_splits)
    &&& (file_splits > 0 ==> r.len() > 0)
    &&& (file_splits == 0 ==> r.len() == 0)
    &&& forall|i: int| 0 <= i < r.len() ==> (#[trigger] r[i]).0 < r[i].1 <= file_splits
    &&& forall|i: int| 0 <= i < r.len() - 1 ==> (#[trigger] r[i + 1].0) == r[i].1
}

/// Groups `file_splits` split-file indices into contiguous archive batches.
///
/// With a positive `batch_size` the ranges are taken greedily from zero:
/// every batch holds `batch_size` indices except possibly the last, which
/// holds the rest. A `batch_size` of zero is the distinguished per-file
/// mode: every split file is a batch of its own.
pub fn plan_batches(file_splits: usize, batch_size: usize) -> (r: Vec<(usize, usize)>)
    ensures
        ranges_chain(r@, file_splits as int),
        batch_size == 0 ==> r@.len() == file_splits && forall|i: int|
            0 <= i < r@.len() ==> (#[trigger] r@[i]).0 == i && r@[i].1 == i + 1,
        batch_size > 0 ==> forall|i: int|
            0 <= i < r@.len() ==> (#[trigger] r@[i]).1 - r@[i].0 == if r@[i].0 + batch_size
                <= file_splits {
                batch_size as int
            } else {
                file_splits - r@[i].0
            },
{
    let mut r: Vec<(usize, usize)> = Vec::new();
    if batch_size == 0 {
        let mut i: usize = 0;
        while i < file_splits
            invariant
                i <= file_splits,
                r@.len() == i,
                forall|j: int| 0 <= j < i ==> (#[trigger] r@[j]).0 == j && r@[j].1 == j + 1,
            decreases file_splits - i,
        {
            r.push((i, i + 1));
            i = i + 1;
        }
    } else {
        let mut start: usize = 0;
        while start < file_splits
            invariant
                batch_size > 0,
                start <= file_splits,
                r@.len() > 0 ==> r@[0].0 == 0 && r@[r@.len() - 1].1 == start,
                start > 0 ==> r@.len() > 0,
                start == 0 ==> r@.len() == 0,
                forall|j: int| 0 <= j < r@.len() ==> (#[trigger] r@[j]).0 < r@[j].1 <= start,
                forall|j: int| 0 <= j < r@.len() - 1 ==> (#[trigger] r@[j + 1].0) == r@[j].1,
                forall|j: int|
                    0 <= j < r@.len() ==> (#[trigger] r@[j]).1 - r@[j].0 == if r@[j].0 + batch_size
                        <= file_splits {
                        batch_size as int
                    } else {
                        file_splits - r@[j].0
                    },
            decreases file_splits - start,
        {
            let end: usize = if file_splits - start >= batch_size {
                start + batch_size
            } else {
                file_splits
            };
            r.push((start, end));
            start = end;
        }
    }
    r
}

/// With a positive batch size, every batch holds exactly `batch_size` split
/// files except possibly the last, which holds `file_splits % batch_size` of
/// them — or a full `batch_size` where the batch size divides the split
/// count.
pub proof fn lemma_batch_sizes(r: Seq<(usize, usize)>, file_splits: int, batch_size: int)
    requires
        ranges_chain(r, file_splits),
        batch_size > 0,
        forall|i: int|
            0 <= i < r.len() ==> (#[trigger] r[i]).1 - r[i].0 == if r[i].0 + batch_size
                <= file_splits {
                batch_size
            } else {
                file_splits - r[i].0
            },
    ensures
        forall|i: int| 0 <= i < r.len() - 1 ==> (#[trigger] r[i]).1 - r[i].0 == batch_size,
        r.len() > 0 ==> r[r.len() - 1].1 - r[r.len() - 1].0 == if file_splits % batch_size == 0 {
            batch_size
        } else {
            file_splits % batch_size
        },
{
    assert forall|i: int| 0 <= i < r.len() - 1 implies (#[trigger] r[i]).1 - r[i].0
        == batch_size by {
        if r[i].0 + batch_size > file_splits {
            assert(r[i].1 == file_splits);
            assert(r[i + 1].0 == r[i].1);
            assert(r[i + 1].0 < r[i + 1].1 <= file_splits);
            assert(false);
        }
    }
    if r.len() > 0 {
        let last = r.len() - 1;
        lemma_starts_at_multiples(r, file_splits, batch_size, last);
        if r[last].0 + batch_size <= file_splits {
            assert(r[last].1 == file_splits);
            assert(file_splits == last * batch_size + batch_size);
            assert(last * batch_size + batch_size == (last + 1) * batch_size)
                by (nonlinear_arith);
            vstd::arithmetic::div_mod::lemma_fundamental_div_mod_converse(
                file_splits,
                batch_size,
                last + 1,
                0,
            );
        } else {
            let size = file_splits - r[last].0;
            assert(r[last].1 == file_splits);
            assert(0 < size < batch_size);
            assert(file_splits == last * batch_size + size);
            vstd::arithmetic::div_mod::lemma_fundamental_div_mod_converse(
                file_splits,
                batch_size,
                last,
                size,
            );
        }
    }
}

proof fn lemma_starts_at_multiples(r: Seq<(usize, usize)>, file_splits: int, batch_size: int, i: int)
    requires
        ranges_chain(r, file_splits),
        batch_size > 0,
        forall|m: int|
            0 <= m < r.len() ==> (#[trigger] r[m]).1 - r[m].0 == if r[m].0 + batch_size
                <= file_splits {
                batch_size
            } else {
                file_splits - r[m].0
            },
        0 <= i < r.len(),
    ensures
        r[i].0 == i * batch_size,
    decreases i,
{
    if i == 0 {
        assert(r[0].0 == 0);
    } else {
        lemma_starts_at_multiples(r, file_splits, batch_size, i - 1);
        assert(r[(i - 1) + 1].0 == r[i - 1].1);
        if r[i - 1].0 + batch_size > file_splits {
            assert(r[i - 1].1 == file_splits);
            assert(r[i].0 < r[i].1 <= file_splits);
            assert(false);
        }
        assert(r[i].0 == (i - 1) * batch_size + batch_size);
        assert((i - 1) * batch_size + batch_size == i * batch_size) by (nonlinear_arith);
    }
}

/// Every split-file index below `file_splits` falls inside some batch range.
pub proof fn lemma_ranges_cover(r: Seq<(usize, usize)>, file_splits: int, k: int)
    requires
        ranges_chain(r, file_splits),
        0 <= k < file_splits,
    ensures
        exists|i: int| 0 <= i < r.len() && (#[trigger] r[i]).0 <= k < r[i].1,
    decreases r.len(),
{
    if r.len() > 0 {
        if k < r[r.len() - 1].1 && k >= r[r.len() - 1].0 {
            assert(0 <= r.len() - 1 < r.len() && (r[r.len() - 1]).0 <= k < r[r.len() - 1].1);
        } else {
            let prev = r.drop_last();
            assert(r.len() >= 2) by {
                if r.len() == 1 {
                    assert(r[0].0 == 0 && r[0].1 == file_splits);
                }
            }
            assert(ranges_chain(prev, r[r.len() - 2].1 as int)) by {
                assert(forall|i: int| 0 <= i < prev.len() ==> prev[i] == r[i]);
                assert(forall|i: int|
                    0 <= i < prev.len() ==> (#[trigger] prev[i]).0 < prev[i].1 <= prev[prev.len()
                        - 1].1) by {
                    lemma_ranges_ends_monotonic(r);
                }
            }
            assert(k < r[r.len() - 2].1) by {
                assert(r[(r.len() - 2) + 1].0 == r[r.len() - 2].1);
            }
            lemma_ranges_cover(prev, r[r.len() - 2].1 as int, k);
            let i = choose|i: int| 0 <= i < prev.len() && (#[trigger] prev[i]).0 <= k < prev[i].1;
            assert(0 <= i < r.len() && (r[i]).0 <= k < r[i].1);
        }
    }
}

/// Along a chain of batch ranges, the range ends only grow: every range ends
/// no later than any later range ends.
pub proof fn lemma_ranges_ends_monotonic(r: Seq<(usize, usize)>)
    requires
        forall|i: int| 0 <= i < r.len() - 1 ==> (#[trigger] r[i + 1].0) == r[i].1,
        forall|i: int| 0 <= i < r.len() ==> (#[trigger] r[i]).0 < r[i].1,
    ensures
        forall|i: int, j: int| 0 <= i <= j < r.len() ==> (#[trigger] r[i]).1 <= (#[trigger] r[j]).1,
{
    assert forall|i: int, j: int| 0 <= i <= j < r.len() implies (#[trigger] r[i]).1 <= (
    #[trigger] r[j]).1 by {
        lemma_ranges_ends_monotonic_step(r, i, j);
    }
}

proof fn lemma_ranges_ends_monotonic_step(r: Seq<(usize, usize)>, i: int, j: int)
    requires
        forall|m: int| 0 <= m < r.len() - 1 ==> (#[trigger] r[m + 1].0) == r[m].1,
        forall|m: int| 0 <= m < r.len() ==> (#[trigger] r[m]).0 < r[m].1,
        0 <= i <= j < r.len(),
    ensures
        r[i].1 <= r[j].1,
    decreases j - i,
{
    if i < j {
        lemma_ranges_ends_monotonic_step(r, i, j - 1);
        assert(r[(j - 1) + 1].0 == r[j - 1].1);
    }
}

/// No split-file index falls into two different batch ranges: the batches
/// are pairwise disjoint, so every index is archived exactly once.
pub proof fn lemma_ranges_disjoint(r: Seq<(usize, usize)>, file_splits: int, k: int)
    requires
        ranges_chain(r, file_splits),
    ensures
        forall|i: int, j: int|
            0 <= i < r.len() && 0 <= j < r.len() && (#[trigger] r[i]).0 <= k < r[i].1 && (
            #[trigger] r[j]).0 <= k < r[j].1 ==> i == j,
{
    assert forall|i: int, j: int|
        0 <= i < r.len() && 0 <= j < r.len() && (#[trigger] r[i]).0 <= k < r[i].1 && (
        #[trigger] r[j]).0 <= k < r[j].1 implies i == j by {
        if i < j {
            lemma_ranges_ends_monotonic(r);
            assert(r[i + 1].0 == r[i].1);
            assert(r[i].1 <= r[j].0) by {
                if i + 1 < j {
                    lemma_ranges_starts_below_ends(r, i + 1, j);
                }
            }
        } else if j < i {
            lemma_ranges_ends_monotonic(r);
            assert(r[j + 1].0 == r[j].1);
            assert(r[j].1 <= r[i].0) by {
                if j + 1 < i {
                    lemma_ranges_starts_below_ends(r, j + 1, i);
                }
            }
        }
    }
}

proof fn lemma_ranges_starts_below_ends(r: Seq<(usize, usize)>, i: int, j: int)
    requires
        forall|m: int| 0 <= m < r.len() - 1 ==> (#[trigger] r[m + 1].0) == r[m].1,
        forall|m: int| 0 <= m < r.len() ==> (#[trigger] r[m]).0 < r[m].1,
        0 <= i <= j < r.len(),
    ensures
        r[i].0 <= r[j].0,
    decreases j - i,
{
    if i < j {
        lemma_ranges_starts_below_ends(r, i, j - 1);
        assert(r[(j - 1) + 1].0 == r[j - 1].1);
    }
}

} // verus!

use vstd::prelude::*;
use crate::errors::{DataGenError, DataGenResult};

verus! {

/// The sum of a sequence of per-file record counts.
pub open spec fn sum_of(counts: Seq<u64>) -> int
    decreases counts.len(),
{
    if counts.len() == 0 {
        0
    } else {
        sum_of(counts.drop_last()) + counts.last()
    }
}

/// Splits a total record count across `file_splits` output files.
///
/// Every file receives `floor(num_records / file_splits)` records except the
/// last, which also absorbs the remainder, so the counts sum to
/// `num_records`. A split count of zero is rejected before any work starts.
pub fn plan_partitions(num_records: u64, file_splits: usize) -> (r: DataGenResult<Vec<u64>>)
    ensures
        r is Err <==> file_splits == 0,
        r is Err ==> r->Err_0 is Partition,
        r is Ok ==> {
            let counts = r->Ok_0@;
            &&& counts.len() == file_splits
            &&& forall|i: int|
                0 <= i < counts.len() - 1 ==> counts[i] == num_records as int / file_splits as int
            &&& counts.last() == num_records as int / file_splits as int + num_records as int
                % file_splits as int
            &&& sum_of(counts) == num_records
        },
{
    if file_splits == 0 {
        return Err(
            DataGenError::Partition {
                message: String::from_str("cannot split records across zero files"),
            },
        );
    }
    let per: u64 = num_records / (file_splits as u64);
    let rem: u64 = num_records % (file_splits as u64);
    proof {
        vstd::arithmetic::div_mod::lemma_fundamental_div_mod(
            num_records as int,
            file_splits as int,
        );
    }
    assert(per + rem <= num_records) by (nonlinear_arith)
        requires
            num_records as int == file_splits as int * (num_records as int / file_splits as int)
                + num_records as int % file_splits as int,
            per == num_records as int / file_splits as int,
            rem == num_records as int % file_splits as int,
            file_splits >= 1,
            per >= 0,
            rem >= 0,
    ;
    let mut counts: Vec<u64> = Vec::new();
    let mut i: usize = 0;
    while i < file_splits - 1
        invariant
            i <= file_splits - 1,
            file_splits >= 1,
            counts@.len() == i,
            forall|j: int| 0 <= j < i ==> counts@[j] == per,
            sum_of(counts@) == i as int * per,
            per == num_records as int / file_splits as int,
            rem == num_records as int % file_splits as int,
            per + rem <= num_records,
        decreases file_splits - 1 - i,
    {
        let ghost prev = counts@;
        counts.push(per);
        proof {
            assert(counts@.drop_last() =~= prev);
            assert((i + 1) as int * per == i as int * per + per) by (nonlinear_arith);
        }
        i = i + 1;
    }
    let ghost prev = counts@;
    counts.push(per + rem);
    proof {
        assert(counts@.drop_last() =~= prev);
        assert(sum_of(counts@) == (file_splits - 1) as int * per + per + rem);
        assert((file_splits - 1) as int * per + per == file_splits as int * per)
            by (nonlinear_arith);
        vstd::arithmetic::div_mod::lemma_fundamental_div_mod(
            num_records as int,
            file_splits as int,
        );
        assert(file_splits as int * per == file_splits as int * (num_records as int
            / file_splits as int));
    }
    Ok(counts)
}

} // verus!

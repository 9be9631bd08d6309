use vstd::prelude::*;
use crate::batch::{plan_batches, ranges_chain};
use crate::errors::{DataGenError, DataGenResult};
use crate::names::{
    batch_archive_name, batch_archive_name_spec, join_path, join_path_spec,
    lemma_split_file_names_injective, single_archive_name, single_archive_name_spec,
    split_file_name, split_file_name_spec,
};
use crate::partition::{plan_partitions, sum_of};
use crate::schema::Schema;

verus! {

/// The immutable configuration of one generation job. Created once at job
/// start, never mutated, and shared read-only by every task.
pub struct GenerationJob {
    pub output_dir: String,
    pub schema: Schema,
    pub num_records: u64,
    pub delimiter: u8,
    pub file_splits: usize,
    pub thread_pool_size: usize,
    pub zip_pack_batch_size: usize,
}

/// One split-file production task: which slice of the total record count it
/// owns and where its output file goes.
pub struct SplitFileTask {
    pub index: usize,
    pub record_count: u64,
    pub file_name: String,
    pub path: String,
}

/// One archive task: the inclusive range of split-file indices it consumes,
/// their names and paths, and the archive it produces.
pub struct ArchiveBatch {
    pub start: usize,
    pub end: usize,
    pub member_names: Vec<String>,
    pub member_paths: Vec<String>,
    pub archive_name: String,
    pub archive_path: String,
}

/// The per-task record counts of a sequence of split tasks.
pub open spec fn task_counts(tasks: Seq<SplitFileTask>) -> Seq<u64> {
    tasks.map(|i: int, t: SplitFileTask| t.record_count)
}

/// The half-open index ranges `[start, end + 1)` of a sequence of batches.
pub open spec fn batch_ranges(batches: Seq<ArchiveBatch>) -> Seq<(usize, usize)> {
    batches.map(|i: int, b: ArchiveBatch| (b.start, (b.end + 1) as usize))
}

/// Plans one production task per split file.
///
/// The record counts partition the job's total: every task gets
/// `floor(total / splits)` records and the last also absorbs the remainder.
/// Task `i` writes the split file with index `i` under the job's output
/// directory. A split count of zero fails before any task is scheduled.
pub fn plan_split_tasks(job: &GenerationJob) -> (r: DataGenResult<Vec<SplitFileTask>>)
    ensures
        r is Err <==> job.file_splits == 0,
        r is Err ==> r->Err_0 is Partition,
        r is Ok ==> {
            let tasks = r->Ok_0@;
            &&& tasks.len() == job.file_splits
            &&& forall|i: int| 0 <= i < tasks.len() ==> (#[trigger] tasks[i]).index == i
            &&& forall|i: int|
                0 <= i < tasks.len() - 1 ==> (#[trigger] tasks[i]).record_count
                    == job.num_records as int / job.file_splits as int
            &&& tasks.last().record_count == job.num_records as int / job.file_splits as int
                + job.num_records as int % job.file_splits as int
            &&& sum_of(task_counts(tasks)) == job.num_records
            &&& forall|i: int|
                0 <= i < tasks.len() ==> (#[trigger] tasks[i]).file_name@ == split_file_name_spec(
                    job.schema.dataset.name@,
                    job.num_records as nat,
                    i as nat,
                )
            &&& forall|i: int|
                0 <= i < tasks.len() ==> (#[trigger] tasks[i]).path@ == join_path_spec(
                    job.output_dir@,
                    tasks[i].file_name@,
                )
        },
{
    let counts = match plan_partitions(job.num_records, job.file_splits) {
        Ok(counts) => counts,
        Err(e) => {
            return Err(e);
        },
    };
    let mut tasks: Vec<SplitFileTask> = Vec::new();
    let mut i: usize = 0;
    while i < counts.len()
        invariant
            i <= counts@.len(),
            counts@.len() == job.file_splits,
            tasks@.len() == i,
            forall|j: int| 0 <= j < i ==> (#[trigger] tasks@[j]).index == j,
            forall|j: int|
                0 <= j < i ==> (#[trigger] tasks@[j]).record_count == counts@[j],
            forall|j: int|
                0 <= j < i ==> (#[trigger] tasks@[j]).file_name@ == split_file_name_spec(
                    job.schema.dataset.name@,
                    job.num_records as nat,
                    j as nat,
                ),
            forall|j: int|
                0 <= j < i ==> (#[trigger] tasks@[j]).path@ == join_path_spec(
                    job.output_dir@,
                    tasks@[j].file_name@,
                ),
        decreases counts@.len() - i,
    {
        let file_name = split_file_name(job.schema.dataset.name.as_str(), job.num_records, i);
        let path = join_path(job.output_dir.as_str(), file_name.as_str());
        tasks.push(
            SplitFileTask { index: i, record_count: counts[i], file_name, path },
        );
        i = i + 1;
    }
    proof {
        assert(task_counts(tasks@) =~= counts@);
    }
    Ok(tasks)
}

/// Plans the archive batches for a job whose split files are already known.
///
/// The batches' inclusive index ranges form a contiguous, non-overlapping
/// chain covering every split index exactly once. Each batch's members are
/// the split files of its range, in index order. With a positive batch size
/// the archive is named by the range's zero-padded inclusive bounds; with
/// batch size zero every file is archived on its own under its own name
/// plus the archive suffix.
pub fn plan_archive_batches(job: &GenerationJob) -> (r: Vec<ArchiveBatch>)
    ensures
        ranges_chain(batch_ranges(r@), job.file_splits as int),
        forall|i: int|
            0 <= i < r@.len() ==> (#[trigger] r@[i]).start <= r@[i].end < job.file_splits,
        job.zip_pack_batch_size == 0 ==> r@.len() == job.file_splits && forall|i: int|
            0 <= i < r@.len() ==> (#[trigger] r@[i]).start == i && r@[i].end == i,
        job.zip_pack_batch_size > 0 ==> forall|i: int|
            0 <= i < r@.len() ==> (#[trigger] r@[i]).end + 1 - r@[i].start == if r@[i].start
                + job.zip_pack_batch_size <= job.file_splits {
                job.zip_pack_batch_size as int
            } else {
                job.file_splits - r@[i].start
            },
        forall|i: int|
            0 <= i < r@.len() ==> (#[trigger] r@[i]).member_names@.len() == r@[i].end + 1
                - r@[i].start && r@[i].member_paths@.len() == r@[i].end + 1 - r@[i].start,
        forall|i: int, k: int|
            0 <= i < r@.len() && 0 <= k < (#[trigger] r@[i]).member_names@.len()
                ==> (#[trigger] r@[i].member_names@[k])@ == split_file_name_spec(
                job.schema.dataset.name@,
                job.num_records as nat,
                (r@[i].start + k) as nat,
            ) && r@[i].member_paths@[k]@ == join_path_spec(
                job.output_dir@,
                r@[i].member_names@[k]@,
            ),
        forall|i: int|
            0 <= i < r@.len() ==> (#[trigger] r@[i]).archive_name@ == if job.zip_pack_batch_size
                == 0 {
                single_archive_name_spec(
                    split_file_name_spec(
                        job.schema.dataset.name@,
                        job.num_records as nat,
                        r@[i].start as nat,
                    ),
                )
            } else {
                batch_archive_name_spec(
                    job.schema.dataset.name@,
                    job.num_records as nat,
                    r@[i].start as nat,
                    r@[i].end as nat,
                )
            },
        forall|i: int|
            0 <= i < r@.len() ==> (#[trigger] r@[i]).archive_path@ == join_path_spec(
                job.output_dir@,
                r@[i].archive_name@,
            ),
{
    let ranges = plan_batches(job.file_splits, job.zip_pack_batch_size);
    let mut batches: Vec<ArchiveBatch> = Vec::new();
    let mut i: usize = 0;
    while i < ranges.len()
        invariant
            i <= ranges@.len(),
            ranges_chain(ranges@, job.file_splits as int),
            job.zip_pack_batch_size == 0 ==> ranges@.len() == job.file_splits && forall|j: int|
                0 <= j < ranges@.len() ==> (#[trigger] ranges@[j]).0 == j && ranges@[j].1 == j + 1,
            job.zip_pack_batch_size > 0 ==> forall|j: int|
                0 <= j < ranges@.len() ==> (#[trigger] ranges@[j]).1 - ranges@[j].0 == if ranges@[j].0
                    + job.zip_pack_batch_size <= job.file_splits {
                    job.zip_pack_batch_size as int
                } else {
                    job.file_splits - ranges@[j].0
                },
            batches@.len() == i,
            forall|j: int|
                0 <= j < i ==> (#[trigger] batches@[j]).start == ranges@[j].0 && batches@[j].end
                    == ranges@[j].1 - 1,
            forall|j: int|
                0 <= j < i ==> (#[trigger] batches@[j]).member_names@.len() == ranges@[j].1
                    - ranges@[j].0 && batches@[j].member_paths@.len() == ranges@[j].1
                    - ranges@[j].0,
            forall|j: int, k: int|
                0 <= j < i && 0 <= k < (#[trigger] batches@[j]).member_names@.len()
                    ==> (#[trigger] batches@[j].member_names@[k])@ == split_file_name_spec(
                    job.schema.dataset.name@,
                    job.num_records as nat,
                    (batches@[j].start + k) as nat,
                ) && batches@[j].member_paths@[k]@ == join_path_spec(
                    job.output_dir@,
                    batches@[j].member_names@[k]@,
                ),
            forall|j: int|
                0 <= j < i ==> (#[trigger] batches@[j]).archive_name@ == if job.zip_pack_batch_size
                    == 0 {
                    single_archive_name_spec(
                        split_file_name_spec(
                            job.schema.dataset.name@,
                            job.num_records as nat,
                            batches@[j].start as nat,
                        ),
                    )
                } else {
                    batch_archive_name_spec(
                        job.schema.dataset.name@,
                        job.num_records as nat,
                        batches@[j].start as nat,
                        batches@[j].end as nat,
                    )
                },
            forall|j: int|
                0 <= j < i ==> (#[trigger] batches@[j]).archive_path@ == join_path_spec(
                    job.output_dir@,
                    batches@[j].archive_name@,
                ),
        decreases ranges@.len() - i,
    {
        let (start, end_excl) = ranges[i];
        assert(start < end_excl <= job.file_splits);
        let end: usize = end_excl - 1;
        let mut member_names: Vec<String> = Vec::new();
        let mut member_paths: Vec<String> = Vec::new();
        let mut k: usize = 0;
        while k < end_excl - start
            invariant
                start < end_excl <= job.file_splits,
                k <= end_excl - start,
                member_names@.len() == k,
                member_paths@.len() == k,
                forall|m: int|
                    0 <= m < k ==> (#[trigger] member_names@[m])@ == split_file_name_spec(
                        job.schema.dataset.name@,
                        job.num_records as nat,
                        (start + m) as nat,
                    ),
                forall|m: int|
                    0 <= m < k ==> (#[trigger] member_paths@[m])@ == join_path_spec(
                        job.output_dir@,
                        member_names@[m]@,
                    ),
            decreases end_excl - start - k,
        {
            let file_name = split_file_name(
                job.schema.dataset.name.as_str(),
                job.num_records,
                start + k,
            );
            let path = join_path(job.output_dir.as_str(), file_name.as_str());
            member_names.push(file_name);
            member_paths.push(path);
            k = k + 1;
        }
        let archive_name = if job.zip_pack_batch_size == 0 {
            let file_name = split_file_name(job.schema.dataset.name.as_str(), job.num_records, start);
            single_archive_name(file_name.as_str())
        } else {
            batch_archive_name(job.schema.dataset.name.as_str(), job.num_records, start, end)
        };
        let archive_path = join_path(job.output_dir.as_str(), archive_name.as_str());
        batches.push(
            ArchiveBatch { start, end, member_names, member_paths, archive_name, archive_path },
        );
        i = i + 1;
    }
    proof {
        assert(batch_ranges(batches@) =~= ranges@);
    }
    batches
}

/// The member names of one planned batch are pairwise distinct: each name
/// carries its own zero-padded split index. An archive built from them is
/// therefore owed success whenever the names fit the archive format and the
/// present members are small enough.
pub proof fn lemma_member_names_distinct(
    member_names: Seq<String>,
    table: Seq<char>,
    num_records: nat,
    start: nat,
)
    requires
        forall|k: int|
            0 <= k < member_names.len() ==> (#[trigger] member_names[k])@ == split_file_name_spec(
                table,
                num_records,
                (start + k) as nat,
            ),
    ensures
        forall|k1: int, k2: int|
            0 <= k1 < k2 < member_names.len() ==> (#[trigger] member_names[k1])@ != (
            #[trigger] member_names[k2])@,
{
    assert forall|k1: int, k2: int|
        0 <= k1 < k2 < member_names.len() implies (#[trigger] member_names[k1])@ != (
    #[trigger] member_names[k2])@ by {
        lemma_split_file_names_injective(
            table,
            num_records,
            (start + k1) as nat,
            (start + k2) as nat,
        );
    }
}

/// Every split-file index of a job falls inside exactly one archive batch.
/// Since each successful batch deletes its member files only after its
/// archive is fully written, a successful job leaves no split file behind:
/// all are consumed into archives.
pub proof fn lemma_every_split_consumed(batches: Seq<ArchiveBatch>, file_splits: int, k: int)
    requires
        ranges_chain(batch_ranges(batches), file_splits),
        file_splits <= usize::MAX,
        forall|i: int|
            0 <= i < batches.len() ==> (#[trigger] batches[i]).start <= batches[i].end
                < file_splits,
        0 <= k < file_splits,
    ensures
        exists|i: int|
            0 <= i < batches.len() && (#[trigger] batches[i]).start <= k <= batches[i].end,
        forall|i: int, j: int|
            0 <= i < batches.len() && 0 <= j < batches.len() && (#[trigger] batches[i]).start <= k
                <= batches[i].end && (#[trigger] batches[j]).start <= k <= batches[j].end ==> i
                == j,
{
    let ranges = batch_ranges(batches);
    crate::batch::lemma_ranges_cover(ranges, file_splits, k);
    let w = choose|i: int| 0 <= i < ranges.len() && (#[trigger] ranges[i]).0 <= k < ranges[i].1;
    assert(batches[w].start <= k <= batches[w].end);
    crate::batch::lemma_ranges_disjoint(ranges, file_splits, k);
    assert forall|i: int, j: int|
        0 <= i < batches.len() && 0 <= j < batches.len() && (#[trigger] batches[i]).start <= k
            <= batches[i].end && (#[trigger] batches[j]).start <= k <= batches[j].end implies i
        == j by {
        assert(ranges[i] == (batches[i].start, ((batches[i].end + 1) as usize)));
        assert(ranges[j] == (batches[j].start, ((batches[j].end + 1) as usize)));
        assert(ranges[i].0 <= k < ranges[i].1);
        assert(ranges[j].0 <= k < ranges[j].1);
    }
}

/// Joins one phase's task results into the job-level outcome: success only
/// if every task succeeded, otherwise the first failure in task-submission
/// order.
pub fn aggregate_results(results: Vec<DataGenResult<()>>) -> (r: DataGenResult<()>)
    ensures
        r is Ok <==> (forall|i: int| 0 <= i < results@.len() ==> (#[trigger] results@[i]) is Ok),
        r is Err ==> exists|i: int|
            0 <= i < results@.len() && r->Err_0 == (#[trigger] results@[i])->Err_0
                && results@[i] is Err && (forall|j: int| 0 <= j < i ==> results@[j] is Ok),
{
    let mut remaining = results;
    let mut i: usize = 0;
    while i < remaining.len()
        invariant
            remaining@ == results@,
            i <= results@.len(),
            forall|j: int| 0 <= j < i ==> (#[trigger] results@[j]) is Ok,
        decreases results@.len() - i,
    {
        let failed = match &remaining[i] {
            Ok(()) => false,
            Err(_) => true,
        };
        if failed {
            let first = remaining.remove(i);
            match first {
                Ok(()) => {
                    proof {
                        assert(false);
                    }
                    return Ok(());
                },
                Err(e) => {
                    return Err(e);
                },
            }
        }
        i = i + 1;
    }
    Ok(())
}

} // verus!

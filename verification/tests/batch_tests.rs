use datagen::batch::plan_batches;
use datagen::job::{plan_archive_batches, plan_split_tasks, GenerationJob};
use datagen::names::{batch_archive_name, join_path, single_archive_name, split_file_name};
use datagen::schema::{Dataset, Schema};

fn job(num_records: u64, file_splits: usize, zip_pack_batch_size: usize) -> GenerationJob {
    GenerationJob {
        output_dir: String::from("out"),
        schema: Schema {
            dataset: Dataset { name: String::from("person_table"), columns: Vec::new() },
        },
        num_records,
        delimiter: b',',
        file_splits,
        thread_pool_size: 2,
        zip_pack_batch_size,
    }
}

#[test]
fn batches_of_two() {
    assert_eq!(plan_batches(4, 2), vec![(0, 2), (2, 4)]);
}

#[test]
fn batches_with_smaller_last() {
    assert_eq!(plan_batches(10, 3), vec![(0, 3), (3, 6), (6, 9), (9, 10)]);
}

#[test]
fn batches_per_file_mode() {
    assert_eq!(plan_batches(4, 0), vec![(0, 1), (1, 2), (2, 3), (3, 4)]);
}

#[test]
fn batches_of_nothing() {
    assert_eq!(plan_batches(0, 3), vec![]);
    assert_eq!(plan_batches(0, 0), vec![]);
}

#[test]
fn batches_larger_than_splits() {
    assert_eq!(plan_batches(3, 10), vec![(0, 3)]);
}

#[test]
fn split_file_names_are_zero_padded() {
    assert_eq!(
        split_file_name("person_table", 1000, 0),
        "output_person_table_1000_00.csv"
    );
    assert_eq!(
        split_file_name("person_table", 1000, 3),
        "output_person_table_1000_03.csv"
    );
    assert_eq!(split_file_name("t", 600, 42), "output_t_600_42.csv");
}

#[test]
fn archive_names_encode_the_range() {
    assert_eq!(
        batch_archive_name("person_table", 1000, 0, 1),
        "output_person_table_1000_00_01.csv.zip"
    );
    assert_eq!(
        batch_archive_name("person_table", 600, 9, 9),
        "output_person_table_600_09_09.csv.zip"
    );
    assert_eq!(
        single_archive_name("output_person_table_1000_02.csv"),
        "output_person_table_1000_02.csv.zip"
    );
    assert_eq!(join_path("out", "a.csv"), "out/a.csv");
}

#[test]
fn split_tasks_partition_and_name_the_files() {
    let tasks = plan_split_tasks(&job(1000, 4, 2)).unwrap();
    assert_eq!(tasks.len(), 4);
    for (i, t) in tasks.iter().enumerate() {
        assert_eq!(t.index, i);
        assert_eq!(t.record_count, 250);
        assert_eq!(
            t.file_name,
            format!("output_person_table_1000_{:02}.csv", i)
        );
        assert_eq!(
            t.path,
            format!("out/output_person_table_1000_{:02}.csv", i)
        );
    }
}

#[test]
fn split_tasks_zero_splits_rejected() {
    assert!(plan_split_tasks(&job(1000, 0, 2)).is_err());
}

#[test]
fn archive_plan_two_batches() {
    let batches = plan_archive_batches(&job(1000, 4, 2));
    assert_eq!(batches.len(), 2);
    assert_eq!((batches[0].start, batches[0].end), (0, 1));
    assert_eq!((batches[1].start, batches[1].end), (2, 3));
    assert_eq!(
        batches[0].archive_path,
        "out/output_person_table_1000_00_01.csv.zip"
    );
    assert_eq!(
        batches[1].archive_path,
        "out/output_person_table_1000_02_03.csv.zip"
    );
    assert_eq!(
        batches[0].member_names,
        vec![
            "output_person_table_1000_00.csv",
            "output_person_table_1000_01.csv"
        ]
    );
    assert_eq!(
        batches[1].member_paths,
        vec![
            "out/output_person_table_1000_02.csv",
            "out/output_person_table_1000_03.csv"
        ]
    );
}

#[test]
fn archive_plan_uneven_batches() {
    let batches = plan_archive_batches(&job(600, 10, 3));
    let names: Vec<&str> = batches.iter().map(|b| b.archive_name.as_str()).collect();
    assert_eq!(
        names,
        vec![
            "output_person_table_600_00_02.csv.zip",
            "output_person_table_600_03_05.csv.zip",
            "output_person_table_600_06_08.csv.zip",
            "output_person_table_600_09_09.csv.zip",
        ]
    );
    assert_eq!(batches[3].member_names, vec!["output_person_table_600_09.csv"]);
}

#[test]
fn archive_plan_per_file_mode() {
    let batches = plan_archive_batches(&job(1000, 4, 0));
    assert_eq!(batches.len(), 4);
    for (i, b) in batches.iter().enumerate() {
        assert_eq!(b.start, i);
        assert_eq!(b.end, i);
        assert_eq!(b.member_names.len(), 1);
        assert_eq!(
            b.archive_name,
            format!("output_person_table_1000_{:02}.csv.zip", i)
        );
    }
}

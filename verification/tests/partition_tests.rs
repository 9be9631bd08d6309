use datagen::errors::DataGenError;
use datagen::partition::plan_partitions;

#[test]
fn partition_even_split() {
    let counts = plan_partitions(1000, 4).unwrap();
    assert_eq!(counts, vec![250, 250, 250, 250]);
}

#[test]
fn partition_many_files() {
    let counts = plan_partitions(600, 10).unwrap();
    assert_eq!(counts, vec![60; 10]);
}

#[test]
fn partition_last_absorbs_remainder() {
    let counts = plan_partitions(10, 3).unwrap();
    assert_eq!(counts, vec![3, 3, 4]);
}

#[test]
fn partition_zero_records() {
    let counts = plan_partitions(0, 5).unwrap();
    assert_eq!(counts, vec![0; 5]);
}

#[test]
fn partition_single_file() {
    let counts = plan_partitions(42, 1).unwrap();
    assert_eq!(counts, vec![42]);
}

#[test]
fn partition_fewer_records_than_files() {
    let counts = plan_partitions(2, 4).unwrap();
    assert_eq!(counts, vec![0, 0, 0, 2]);
}

#[test]
fn partition_zero_splits_rejected() {
    let r = plan_partitions(1000, 0);
    match r {
        Err(DataGenError::Partition { .. }) => {}
        other => panic!("expected a partition error, got {:?}", other.is_ok()),
    }
}

use datagen::errors::DataGenError;
use datagen::job::aggregate_results;
use datagen::options::{convert_to_u8, Command};
use datagen::schema::{Dataset, Schema};

fn io_error(path: &str) -> DataGenError {
    DataGenError::Io { path: path.to_string(), message: String::from("boom") }
}

#[test]
fn aggregate_all_ok() {
    let results: Vec<Result<(), DataGenError>> = vec![Ok(()), Ok(()), Ok(())];
    assert!(aggregate_results(results).is_ok());
}

#[test]
fn aggregate_empty_is_ok() {
    assert!(aggregate_results(Vec::new()).is_ok());
}

#[test]
fn aggregate_surfaces_the_first_failure() {
    let results: Vec<Result<(), DataGenError>> =
        vec![Ok(()), Err(io_error("first")), Ok(()), Err(io_error("second"))];
    match aggregate_results(results) {
        Err(DataGenError::Io { path, .. }) => assert_eq!(path, "first"),
        other => panic!("expected the first io error, got ok: {}", other.is_ok()),
    }
}

#[test]
fn error_paths_are_kept() {
    let e = DataGenError::Archive {
        path: String::from("out/a.zip"),
        message: String::from("finalize failed"),
    };
    assert_eq!(e.path(), Some(&String::from("out/a.zip")));
    let c = DataGenError::Config { message: String::from("bad schema") };
    assert_eq!(c.path(), None);
    let p = DataGenError::PathEncoding { path: String::from("out/\u{fffd}") };
    assert!(p.path().is_some());
}

#[test]
fn command_carries_its_settings_into_the_job() {
    let command = Command::GenerateCSV {
        output_path: String::from("out"),
        schema_path: String::from("schema.yaml"),
        num_records: 1000,
        delimiter: b';',
        file_splits: 4,
        thread_pool_size: 8,
        zip_pack_batch_size: 0,
    };
    let schema = Schema {
        dataset: Dataset { name: String::from("person_table"), columns: Vec::new() },
    };
    let job = command.to_job(schema);
    assert_eq!(job.output_dir, "out");
    assert_eq!(job.num_records, 1000);
    assert_eq!(job.delimiter, b';');
    assert_eq!(job.file_splits, 4);
    assert_eq!(job.thread_pool_size, 8);
    // Zero keeps its per-file meaning; it is not widened to the split count.
    assert_eq!(job.zip_pack_batch_size, 0);
    assert_eq!(job.schema.dataset.name, "person_table");
}

#[test]
fn delimiter_is_the_first_byte() {
    assert_eq!(convert_to_u8(",").unwrap(), b',');
    assert_eq!(convert_to_u8("|;").unwrap(), b'|');
    match convert_to_u8("") {
        Err(DataGenError::Config { .. }) => {}
        other => panic!("expected a config error, got ok: {}", other.is_ok()),
    }
}

use std::io::Cursor;
use std::io::Read;

use datagen::archive::build_batch_archive;
use datagen::errors::DataGenError;

fn names(n: &[&str]) -> Vec<String> {
    n.iter().map(|s| s.to_string()).collect()
}

fn unzip(bytes: Vec<u8>) -> Vec<(String, Vec<u8>)> {
    let mut archive = zip::ZipArchive::new(Cursor::new(bytes)).unwrap();
    let mut entries = Vec::new();
    for i in 0..archive.len() {
        let mut file = archive.by_index(i).unwrap();
        let mut data = Vec::new();
        file.read_to_end(&mut data).unwrap();
        entries.push((file.name().to_string(), data));
    }
    entries
}

#[test]
fn archive_round_trips_every_member() {
    let contents = vec![
        Some(b"alpha,1\nbeta,2\n".to_vec()),
        Some(b"gamma,3\n".to_vec()),
    ];
    let bytes = build_batch_archive(
        &names(&["a.csv", "b.csv"]),
        &contents,
        "out/batch_00_01.csv.zip",
    )
    .unwrap()
    .unwrap();
    let entries = unzip(bytes);
    assert_eq!(entries.len(), 2);
    assert_eq!(entries[0].0, "a.csv");
    assert_eq!(entries[0].1, b"alpha,1\nbeta,2\n");
    assert_eq!(entries[1].0, "b.csv");
    assert_eq!(entries[1].1, b"gamma,3\n");
}

#[test]
fn archive_compresses_repetitive_data() {
    let big = vec![b'x'; 100_000];
    let bytes = build_batch_archive(
        &names(&["big.csv"]),
        &vec![Some(big.clone())],
        "out/big.csv.zip",
    )
    .unwrap()
    .unwrap();
    // Deflate at maximum level must shrink a run of one byte considerably.
    assert!(bytes.len() < big.len() / 10);
    let entries = unzip(bytes);
    assert_eq!(entries[0].1, big);
}

#[test]
fn missing_member_is_tolerated() {
    let contents = vec![Some(b"kept".to_vec()), None, Some(b"also kept".to_vec())];
    let bytes = build_batch_archive(
        &names(&["a.csv", "gone.csv", "c.csv"]),
        &contents,
        "out/batch.zip",
    )
    .unwrap()
    .unwrap();
    let entries = unzip(bytes);
    assert_eq!(entries.len(), 2);
    assert_eq!(entries[0].0, "a.csv");
    assert_eq!(entries[1].0, "c.csv");
    assert_eq!(entries[1].1, b"also kept");
}

#[test]
fn batch_with_no_members_left_produces_no_archive() {
    let r = build_batch_archive(
        &names(&["a.csv", "b.csv"]),
        &vec![None, None],
        "out/batch.zip",
    )
    .unwrap();
    assert!(r.is_none());
}

#[test]
fn empty_member_is_still_an_entry() {
    let bytes = build_batch_archive(&names(&["empty.csv"]), &vec![Some(Vec::new())], "out/e.zip")
        .unwrap()
        .unwrap();
    let entries = unzip(bytes);
    assert_eq!(entries.len(), 1);
    assert_eq!(entries[0].0, "empty.csv");
    assert_eq!(entries[0].1, Vec::<u8>::new());
}

#[test]
fn archive_failure_names_the_archive() {
    // zip refuses two entries of the same name; the error carries the
    // archive path as context.
    let contents = vec![Some(b"one".to_vec()), Some(b"two".to_vec())];
    let r = build_batch_archive(
        &names(&["same.csv", "same.csv"]),
        &contents,
        "out/dup.csv.zip",
    );
    match r {
        Err(DataGenError::Archive { path, .. }) => assert_eq!(path, "out/dup.csv.zip"),
        other => panic!("expected an archive error, got ok: {}", other.is_ok()),
    }
}

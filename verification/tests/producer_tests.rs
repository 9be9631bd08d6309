use datagen::errors::DataGenError;
use datagen::producer::{produce_split, NullSynthesizer, Synthesizer};
use datagen::schema::{Dataset, Schema};
use datagen::sinks::{Sink, VecSink};
use datagen::value::DValue;

fn schema() -> Schema {
    Schema { dataset: Dataset { name: String::from("person_table"), columns: Vec::new() } }
}

#[test]
fn produces_exactly_the_requested_rows() {
    let mut sink = VecSink::new();
    produce_split(&NullSynthesizer, &mut sink, &schema(), 250).unwrap();
    assert_eq!(sink.row_count(), 250);
}

#[test]
fn produces_zero_rows() {
    let mut sink = VecSink::new();
    produce_split(&NullSynthesizer, &mut sink, &schema(), 0).unwrap();
    assert_eq!(sink.row_count(), 0);
}

#[test]
fn produces_across_several_chunks() {
    let mut sink = VecSink::new();
    produce_split(&NullSynthesizer, &mut sink, &schema(), 25_000).unwrap();
    assert_eq!(sink.row_count(), 25_000);
}

#[test]
fn produces_exactly_one_full_chunk() {
    let mut sink = VecSink::new();
    produce_split(&NullSynthesizer, &mut sink, &schema(), 10_000).unwrap();
    assert_eq!(sink.row_count(), 10_000);
}

#[test]
fn produces_one_row_past_a_chunk_boundary() {
    let mut sink = VecSink::new();
    produce_split(&NullSynthesizer, &mut sink, &schema(), 10_001).unwrap();
    assert_eq!(sink.row_count(), 10_001);
}

#[test]
fn appends_to_rows_already_written() {
    let mut sink = VecSink::new();
    produce_split(&NullSynthesizer, &mut sink, &schema(), 10).unwrap();
    produce_split(&NullSynthesizer, &mut sink, &schema(), 5).unwrap();
    assert_eq!(sink.row_count(), 15);
}

struct MarkerSynthesizer;

impl Synthesizer for MarkerSynthesizer {
    fn synthesize(&self, schema: &Schema) -> DValue {
        DValue::Str(schema.dataset.name.clone())
    }
}

#[test]
fn writes_what_generation_returned() {
    let mut sink = VecSink::new();
    produce_split(&MarkerSynthesizer, &mut sink, &schema(), 3).unwrap();
    assert_eq!(sink.rows_vec.len(), 3);
    for row in &sink.rows_vec {
        match row {
            DValue::Str(s) => assert_eq!(s, "person_table"),
            other => panic!("unexpected row {:?}", other),
        }
    }
}

/// A sink that fails after accepting a fixed number of records.
struct BoundedSink {
    accepted: Vec<DValue>,
    capacity: usize,
}

impl Sink for BoundedSink {
    // The ghost view of the rows written; never called at run time.
    fn rows(&self) -> vstd::seq::Seq<DValue> {
        unreachable!()
    }

    fn write(&mut self, value: DValue) -> Result<(), DataGenError> {
        if self.accepted.len() >= self.capacity {
            Err(DataGenError::Io {
                path: String::from("bounded"),
                message: String::from("sink is full"),
            })
        } else {
            self.accepted.push(value);
            Ok(())
        }
    }
}

#[test]
fn sink_failure_is_fatal_for_the_task() {
    let mut sink = BoundedSink { accepted: Vec::new(), capacity: 7 };
    let r = produce_split(&NullSynthesizer, &mut sink, &schema(), 10);
    match r {
        Err(DataGenError::Io { path, .. }) => assert_eq!(path, "bounded"),
        other => panic!("expected an io error, got ok: {}", other.is_ok()),
    }
    assert_eq!(sink.accepted.len(), 7);
}

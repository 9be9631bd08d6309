use vstd::prelude::*;
use vstd::seq_lib::*;
use crate::errors::DataGenResult;
use crate::schema::Schema;
use crate::sinks::Sink;
use crate::value::DValue;

verus! {

/// How many records one chunk may hold: the bound on how many synthesized
/// records are in memory at once while a split file is produced.
pub const DEFAULT_CHUNK_SIZE: u64 = 10_000;

/// Produces one schema-shaped record per call. Nothing is promised of the
/// value: synthesis is typically randomized, and no ordering relationship
/// between records is required or guaranteed.
pub trait Synthesizer {
    /// Produces one record shaped by `schema`.
    fn synthesize(&self, schema: &Schema) -> DValue;
}

/// A synthesizer whose every record is the null value.
pub struct NullSynthesizer;

impl Synthesizer for NullSynthesizer {
    fn synthesize(&self, _schema: &Schema) -> DValue {
        DValue::Null
    }
}

/// Produces exactly `count` records and writes them to `sink`, holding no
/// more than one bounded chunk of records in memory at a time.
///
/// Records are synthesized one chunk of at most [`DEFAULT_CHUNK_SIZE`] at a
/// time and handed to the sink sequentially, keeping the synthesis order.
/// A sink failure ends the work at once: the records the sink already
/// accepted stay as they are, no more follow, and the sink's error comes
/// back to the caller.
pub fn produce_split<G: Synthesizer, K: Sink>(
    synth: &G,
    sink: &mut K,
    schema: &Schema,
    count: u64,
) -> (r: DataGenResult<()>)
    ensures
        old(sink).rows().is_prefix_of(final(sink).rows()),
        final(sink).rows().len() <= old(sink).rows().len() + count,
        r is Ok <==> final(sink).rows().len() == old(sink).rows().len() + count,
{
    let mut remaining: u64 = count;
    while remaining > 0
        invariant
            remaining <= count,
            old(sink).rows().is_prefix_of(sink.rows()),
            sink.rows().len() == old(sink).rows().len() + (count - remaining),
        decreases remaining,
    {
        let batch: u64 = if remaining < DEFAULT_CHUNK_SIZE {
            remaining
        } else {
            DEFAULT_CHUNK_SIZE
        };
        // Synthesize one chunk. Within a chunk no ordering is promised of
        // synthesis itself; what generation returned is what gets written.
        let mut chunk: Vec<DValue> = Vec::new();
        let mut j: u64 = 0;
        while j < batch
            invariant
                j <= batch,
                chunk@.len() == j,
            decreases batch - j,
        {
            let value = synth.synthesize(schema);
            chunk.push(value);
            j = j + 1;
        }
        // Write the chunk sequentially, in order.
        let ghost rows_before_chunk = sink.rows();
        let mut written: u64 = 0;
        while chunk.len() > 0
            invariant
                written + chunk@.len() == batch,
                sink.rows().len() == rows_before_chunk.len() + written,
                rows_before_chunk.is_prefix_of(sink.rows()),
                old(sink).rows().is_prefix_of(rows_before_chunk),
                rows_before_chunk.len() == old(sink).rows().len() + (count - remaining),
                remaining >= batch,
                remaining <= count,
            decreases chunk@.len(),
        {
            let value = chunk.remove(0);
            match sink.write(value) {
                Ok(()) => {},
                Err(e) => {
                    proof {
                        lemma_prefix_transitive(old(sink).rows(), rows_before_chunk, sink.rows());
                    }
                    return Err(e);
                },
            }
            written = written + 1;
        }
        proof {
            lemma_prefix_transitive(old(sink).rows(), rows_before_chunk, sink.rows());
        }
        remaining = remaining - batch;
    }
    Ok(())
}

proof fn lemma_prefix_transitive(a: Seq<DValue>, b: Seq<DValue>, c: Seq<DValue>)
    requires
        a.is_prefix_of(b),
        b.is_prefix_of(c),
    ensures
        a.is_prefix_of(c),
{
    assert(a =~= c.subrange(0, a.len() as int));
}

} // verus!

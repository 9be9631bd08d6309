use vstd::prelude::*;
use vstd::string::StringSliceAdditionalSpecFns;
use crate::errors::{DataGenError, DataGenResult};
use crate::job::GenerationJob;
use crate::schema::Schema;

verus! {

/// The command-line surface: one subcommand.
pub struct Args {
    pub command: Command,
}

/// The single subcommand: generate partitioned CSV files and archive them.
pub enum Command {
    GenerateCSV {
        output_path: String,
        schema_path: String,
        num_records: usize,
        delimiter: u8,
        file_splits: usize,
        thread_pool_size: usize,
        zip_pack_batch_size: usize,
    },
}

impl Command {
    /// The immutable job configuration this command describes, bound to an
    /// already loaded schema. The archive batch size passes through
    /// unchanged: zero keeps its meaning of one archive per split file.
    pub fn to_job(&self, schema: Schema) -> (job: GenerationJob)
        ensures
            (self matches Command::GenerateCSV {
                output_path,
                num_records,
                delimiter,
                file_splits,
                thread_pool_size,
                zip_pack_batch_size,
                ..
            } ==> job.output_dir@ == output_path@ && job.num_records == *num_records as u64
                && job.delimiter == delimiter && job.file_splits == file_splits
                && job.thread_pool_size == thread_pool_size && job.zip_pack_batch_size
                == zip_pack_batch_size),
            job.schema == schema,
    {
        match self {
            Command::GenerateCSV {
                output_path,
                schema_path: _,
                num_records,
                delimiter,
                file_splits,
                thread_pool_size,
                zip_pack_batch_size,
            } => GenerationJob {
                output_dir: output_path.clone(),
                schema,
                num_records: *num_records as u64,
                delimiter: *delimiter,
                file_splits: *file_splits,
                thread_pool_size: *thread_pool_size,
                zip_pack_batch_size: *zip_pack_batch_size,
            },
        }
    }
}

/// Reads a field delimiter from its textual argument: the first byte of the
/// text. Empty text is rejected rather than read out of bounds.
pub fn convert_to_u8(src: &str) -> (r: DataGenResult<u8>)
    ensures
        r is Ok <==> src.spec_bytes().len() > 0,
        r is Ok ==> r->Ok_0 == src.spec_bytes()[0],
        r is Err ==> r->Err_0 is Config,
{
    let b = src.as_bytes();
    if b.len() == 0 {
        Err(DataGenError::Config { message: String::from_str("empty delimiter") })
    } else {
        Ok(b[0])
    }
}

} // verus!

use vstd::prelude::*;
use crate::errors::{DataGenError, DataGenResult};
use crate::value::DValue;

/// The mathematical view of what a sink has accepted: unverified callers
/// that implement [`Sink`] name the view's type through this alias.
pub use vstd::seq::Seq as RowsView;

verus! {

/// A sink accepts one record at a time and serializes it into its target's
/// encoding. The pipeline treats any non-success result as fatal for the
/// owning task and does not interpret the encoding itself.
pub trait Sink {
    /// The records this sink has accepted so far, in the order written.
    spec fn rows(&self) -> Seq<DValue>;

    /// Serializes one record. On success the record is appended to the rows
    /// written; on failure the sink has accepted nothing new.
    fn write(&mut self, value: DValue) -> (r: DataGenResult<()>)
        ensures
            r is Ok ==> final(self).rows() == old(self).rows().push(value),
            r is Err ==> final(self).rows() == old(self).rows();
}

/// A sink that keeps the written records in memory.
pub struct VecSink {
    pub rows_vec: Vec<DValue>,
}

impl VecSink {
    /// An empty in-memory sink.
    pub fn new() -> (r: VecSink)
        ensures
            r.rows() == Seq::<DValue>::empty(),
    {
        VecSink { rows_vec: Vec::new() }
    }

    /// How many records have been written.
    pub fn row_count(&self) -> (n: usize)
        ensures
            n == self.rows().len(),
    {
        self.rows_vec.len()
    }
}

impl Sink for VecSink {
    open spec fn rows(&self) -> Seq<DValue> {
        self.rows_vec@
    }

    fn write(&mut self, value: DValue) -> (r: DataGenResult<()>)
        ensures
            r is Ok,
            final(self).rows() == old(self).rows().push(value),
    {
        self.rows_vec.push(value);
        Ok(())
    }
}

} // verus!

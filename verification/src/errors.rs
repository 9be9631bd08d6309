use vstd::prelude::*;

verus! {

/// The outcome of one task or of a whole job.
pub type DataGenResult<T> = Result<T, DataGenError>;

/// One tagged error kind for every failure the pipeline can meet. Each
/// external failure is mapped to exactly one kind, carrying the path or
/// message that gives it context.
#[derive(Debug)]
pub enum DataGenError {
    /// The schema or job configuration could not be read or was malformed.
    Config { message: String },
    /// The record count could not be partitioned across the split files.
    Partition { message: String },
    /// A file create, open, read, write or delete failed; `path` names the
    /// offending file.
    Io { path: String, message: String },
    /// Building or finalizing a compressed archive failed; `path` names the
    /// archive.
    Archive { path: String, message: String },
    /// A file name was not representable as text.
    PathEncoding { path: String },
}

impl DataGenError {
    /// The path this error is tagged with, where it has one.
    pub fn path(&self) -> (r: Option<&String>)
        ensures
            match self {
                DataGenError::Io { path, .. } => r == Some(path),
                DataGenError::Archive { path, .. } => r == Some(path),
                DataGenError::PathEncoding { path } => r == Some(path),
                _ => r is None,
            },
    {
        match self {
            DataGenError::Io { path, .. } => Some(path),
            DataGenError::Archive { path, .. } => Some(path),
            DataGenError::PathEncoding { path } => Some(path),
            _ => None,
        }
    }
}

} // verus!

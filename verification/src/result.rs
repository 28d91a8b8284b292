//! The runtime's error type, above the codec's own.

use vstd::prelude::*;

verus! {

/// What the runtime reports to its caller: a protocol fault it cannot name
/// more precisely, a value that is not ready yet, or a message of its own.
#[derive(Debug)]
pub enum ThriftError {
    Other,
    NotReady,
    Str(String),
}

pub type ThriftResult<T> = Result<T, ThriftError>;

impl ThriftError {
    /// Folds a codec error into the runtime's coarser taxonomy.
    pub fn from_protocol(_err: crate::protocol::Error) -> (r: ThriftError)
        ensures
            r is Other,
    {
        ThriftError::Other
    }
}

} // verus!

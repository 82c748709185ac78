use vstd::prelude::*;

verus! {

/// The error taxonomy of the persistence core. Every failure is reported to
/// the caller as one of these kinds; none is silently swallowed, and no
/// operation retries on its own.
#[derive(Debug, Clone, Copy, PartialEq, Eq, Structural)]
pub enum MadeleineError {
    /// I/O failure on the log or snapshot medium.
    StorageFailure,
    /// A command or a state value could not be encoded or decoded.
    SerializationFailure,
    /// A checkpoint could not be written or read.
    SnapshotFailure,
    /// The log record with this sequence number could not be decoded while
    /// resuming; recovery is fatal, with no partial best-effort state.
    ReplayFailure(u64),
    /// Exclusive write access could not be acquired. The engine itself
    /// never reports this: it mutates only through an exclusive borrow, so
    /// the type system rules the situation out. The kind belongs to the
    /// taxonomy for callers that serialize writers with a lock of their own.
    ConcurrencyFailure,
}

impl MadeleineError {
    /// A short, stable description of the error kind.
    pub fn describe(&self) -> (r: &'static str)
        ensures
            self is StorageFailure ==> r@ == "storage failure"@,
            self is SerializationFailure ==> r@ == "serialization failure"@,
            self is SnapshotFailure ==> r@ == "snapshot failure"@,
            self is ReplayFailure ==> r@ == "replay failure"@,
            self is ConcurrencyFailure ==> r@ == "concurrency failure"@,
    {
        match self {
            MadeleineError::StorageFailure => "storage failure",
            MadeleineError::SerializationFailure => "serialization failure",
            MadeleineError::SnapshotFailure => "snapshot failure",
            MadeleineError::ReplayFailure(_) => "replay failure",
            MadeleineError::ConcurrencyFailure => "concurrency failure",
        }
    }
}

} // verus!

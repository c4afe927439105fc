//! The failures that the library reports.

use vstd::prelude::*;
use vstd::string::*;

verus! {

/// Why an operation failed.
#[derive(Debug, PartialEq, Eq)]
pub enum SyncError {
    /// A file or process operation failed; the text is the system's report.
    Io(String),
    /// Bytes were present but are no shortcut catalog; the text says where the
    /// parser gave up.
    Format(String),
    /// A bounded wait ran past its deadline.
    Timeout,
}

impl Clone for SyncError {
    fn clone(&self) -> (copy: Self)
        ensures
            copy == *self,
    {
        match self {
            SyncError::Io(m) => SyncError::Io(m.clone()),
            SyncError::Format(m) => SyncError::Format(m.clone()),
            SyncError::Timeout => SyncError::Timeout,
        }
    }
}

impl SyncError {
    /// The text that accompanies the failure; empty for a timeout.
    pub fn message(&self) -> (text: String)
        ensures
            text@ == match *self {
                SyncError::Io(m) => m@,
                SyncError::Format(m) => m@,
                SyncError::Timeout => Seq::<char>::empty(),
            },
    {
        match self {
            SyncError::Io(m) => m.clone(),
            SyncError::Format(m) => m.clone(),
            SyncError::Timeout => String::new(),
        }
    }
}

} // verus!

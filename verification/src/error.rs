//! Failure conditions of the logging core.

use vstd::prelude::*;

verus! {

/// Errors the logging core can report, grouped by the operation that failed.
#[derive(Clone, Debug)]
pub enum LogError {
    /// A file open, write, copy, truncate or remove failed.
    Io(String),
    /// Archival failed after exhausting its retries.
    Pack(String),
    /// The destination path or directory was unusable at initialization.
    Config(String),
    /// An enqueue was attempted on a closed channel.
    Channel(String),
}

impl LogError {
    /// The message carried by the error, whichever kind it is.
    pub open spec fn spec_msg(self) -> Seq<char> {
        match self {
            LogError::Io(m) => m@,
            LogError::Pack(m) => m@,
            LogError::Config(m) => m@,
            LogError::Channel(m) => m@,
        }
    }

    pub fn msg(&self) -> (r: &str)
        ensures
            r@ == self.spec_msg(),
    {
        match self {
            LogError::Io(m) => m.as_str(),
            LogError::Pack(m) => m.as_str(),
            LogError::Config(m) => m.as_str(),
            LogError::Channel(m) => m.as_str(),
        }
    }
}

} // verus!

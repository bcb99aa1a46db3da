//! The error type every engine reports.

use vstd::prelude::*;

use crate::text::owned;

verus! {

/// An engine failure, tagged with the engine that failed and a message.
#[derive(Debug)]
pub enum EngineError {
    Discovery(String),
    Monitoring(String),
    Security(String),
    Network(String),
    Visualization(String),
    Metadata(String),
    Persistence(String),
    Io(String),
}

/// The outcome of an engine operation.
pub type EngineResult<T> = Result<T, EngineError>;

/// The prefix that names the failing engine in an error message.
pub open spec fn error_prefix(e: EngineError) -> Seq<char> {
    match e {
        EngineError::Discovery(_) => "Discovery error: "@,
        EngineError::Monitoring(_) => "Monitoring error: "@,
        EngineError::Security(_) => "Security error: "@,
        EngineError::Network(_) => "Network error: "@,
        EngineError::Visualization(_) => "Visualization error: "@,
        EngineError::Metadata(_) => "Metadata error: "@,
        EngineError::Persistence(_) => "Persistence error: "@,
        EngineError::Io(_) => "I/O error: "@,
    }
}

/// The detail message an error carries.
pub open spec fn error_detail(e: EngineError) -> Seq<char> {
    match e {
        EngineError::Discovery(m) => m@,
        EngineError::Monitoring(m) => m@,
        EngineError::Security(m) => m@,
        EngineError::Network(m) => m@,
        EngineError::Visualization(m) => m@,
        EngineError::Metadata(m) => m@,
        EngineError::Persistence(m) => m@,
        EngineError::Io(m) => m@,
    }
}

impl EngineError {
    /// The human-readable message: the engine's prefix followed by the detail.
    pub fn message(&self) -> (r: String)
        ensures
            r@ == error_prefix(*self) + error_detail(*self),
    {
        let (prefix, detail) = match self {
            EngineError::Discovery(m) => ("Discovery error: ", m),
            EngineError::Monitoring(m) => ("Monitoring error: ", m),
            EngineError::Security(m) => ("Security error: ", m),
            EngineError::Network(m) => ("Network error: ", m),
            EngineError::Visualization(m) => ("Visualization error: ", m),
            EngineError::Metadata(m) => ("Metadata error: ", m),
            EngineError::Persistence(m) => ("Persistence error: ", m),
            EngineError::Io(m) => ("I/O error: ", m),
        };
        let mut r = owned(prefix);
        r.append(detail.as_str());
        r
    }
}

} // verus!

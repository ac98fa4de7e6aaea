//! Errors a processor can report, and the result of a processed range.

use vstd::prelude::*;

verus! {

/// Why a range of transactions failed to process. Either the raw
/// transactions could not be mapped to row families, or the backend
/// rejected the commit; both carry the range and the processor's name.
pub enum TransactionProcessingError {
    TransactionParsingError {
        cause: String,
        start_version: u64,
        end_version: u64,
        name: String,
    },
    TransactionCommitError {
        cause: String,
        start_version: u64,
        end_version: u64,
        name: String,
    },
}

impl TransactionProcessingError {
    /// The wrapped cause, for recording in the status table.
    pub open spec fn spec_cause(&self) -> Seq<char> {
        match self {
            TransactionProcessingError::TransactionParsingError { cause, .. } => cause@,
            TransactionProcessingError::TransactionCommitError { cause, .. } => cause@,
        }
    }

    pub open spec fn spec_start_version(&self) -> u64 {
        match self {
            TransactionProcessingError::TransactionParsingError { start_version, .. } => *start_version,
            TransactionProcessingError::TransactionCommitError { start_version, .. } => *start_version,
        }
    }

    pub open spec fn spec_end_version(&self) -> u64 {
        match self {
            TransactionProcessingError::TransactionParsingError { end_version, .. } => *end_version,
            TransactionProcessingError::TransactionCommitError { end_version, .. } => *end_version,
        }
    }

    pub fn cause(&self) -> (r: &String)
        ensures
            r@ == self.spec_cause(),
    {
        match self {
            TransactionProcessingError::TransactionParsingError { cause, .. } => cause,
            TransactionProcessingError::TransactionCommitError { cause, .. } => cause,
        }
    }
}

/// A successfully committed range.
pub struct ProcessingResult {
    pub name: String,
    pub start_version: u64,
    pub end_version: u64,
}

impl ProcessingResult {
    pub fn new(name: String, start_version: u64, end_version: u64) -> (r: ProcessingResult)
        ensures
            r.name@ == name@,
            r.start_version == start_version,
            r.end_version == end_version,
    {
        ProcessingResult { name, start_version, end_version }
    }
}

} // verus!

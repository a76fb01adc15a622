//! Kinds shared by enrichment backends.
//!
//! An extracter turns one raw item into one structured result, or fails.
//! The model call itself happens outside the library; the pipeline only
//! handles the finished `Result` and the error taxonomy below.

pub mod topic;

use vstd::prelude::*;

verus! {

/// Why one item's extraction failed. Each variant carries the rendered
/// cause and a description of the input it happened on; the pipeline
/// treats all three alike (report, then drop the item).
#[derive(Debug)]
pub enum ExtracterError {
    /// The model invocation itself failed.
    ChainError(String, String),
    /// The model's reply held no usable structured payload.
    ParseError(String, String),
    /// Any other downstream failure.
    Other(String, String),
}

impl ExtracterError {
    /// The rendered cause, for callers that report the failure.
    pub fn message(&self) -> (r: &String)
        ensures
            r@ == (match *self {
                ExtracterError::ChainError(ref m, _) => m@,
                ExtracterError::ParseError(ref m, _) => m@,
                ExtracterError::Other(ref m, _) => m@,
            }),
    {
        match self {
            ExtracterError::ChainError(m, _) => m,
            ExtracterError::ParseError(m, _) => m,
            ExtracterError::Other(m, _) => m,
        }
    }
}

} // verus!

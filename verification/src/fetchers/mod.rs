//! Kinds shared by raw-item sources.
//!
//! A source hands the pipeline a batch of raw items or a single opaque
//! error; the transport itself lives outside the library, which only ever
//! sees the finished `Result`.

pub mod arxiv;

use vstd::prelude::*;

verus! {

/// The one error a source can report: the whole batch failed to arrive.
#[derive(Debug)]
pub struct FetcherError {
    pub msg: String,
}

impl From<String> for FetcherError {
    fn from(value: String) -> (r: Self) {
        FetcherError { msg: value }
    }
}

impl vstd::std_specs::convert::FromSpecImpl<String> for FetcherError {
    open spec fn obeys_from_spec() -> bool {
        true
    }

    open spec fn from_spec(value: String) -> Self {
        FetcherError { msg: value }
    }
}

impl FetcherError {
    /// The stored diagnostic, for callers that report the failure.
    pub fn message(&self) -> (r: &String)
        ensures
            r@ == self.msg@,
    {
        &self.msg
    }
}

} // verus!

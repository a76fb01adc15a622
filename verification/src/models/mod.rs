//! The records handed to persistence after a run.

pub mod paper;

use vstd::prelude::*;

verus! {

/// One paper row: the metadata kept for a stored paper.
#[derive(Debug)]
pub struct Paper {
    pub id: i64,
    pub title: String,
    pub abstract_text: Option<String>,
    pub publish_date: Option<String>,
    pub insert_date: String,
    pub url: String,
}

/// One keyword row: a single derived tag value.
#[derive(Debug)]
pub struct Keyword {
    pub id: i64,
    pub keyword: String,
}

/// One association row between a paper and a keyword.
#[derive(Debug)]
pub struct PaperKeyword {
    pub paper_id: i32,
    pub keyword_id: i32,
}

} // verus!

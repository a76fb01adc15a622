//! The denormalized paper record, keywords folded into one column.

use vstd::prelude::*;

verus! {

/// One paper row with its keywords rendered into a single optional text
/// field.
#[derive(Debug)]
pub struct Paper {
    pub id: i64,
    pub title: String,
    pub abstract_text: Option<String>,
    pub publish_date: Option<String>,
    pub insert_date: String,
    pub url: String,
    pub keywords: Option<String>,
}

} // verus!

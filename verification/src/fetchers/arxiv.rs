//! The arXiv raw item record and the query a fetcher sends for a batch.
//!
//! `Arxiv` is the pipeline's raw item: one paper's metadata, immutable for
//! the whole run. The fetcher that performs the HTTP round trip lives
//! outside the library; here stands the record it produces and the exact
//! query the configured fetcher asks for.

use vstd::prelude::*;

verus! {

/// One paper's metadata as the source returns it.
#[derive(Debug)]
pub struct Arxiv {
    pub id: String,
    pub updated: String,
    pub published: String,
    pub title: String,
    pub summary: String,
    pub authors: Vec<String>,
    pub pdf_url: String,
    pub comment: Option<String>,
}

/// The mathematical image of an `Arxiv` record.
pub ghost struct ArxivView {
    pub id: Seq<char>,
    pub updated: Seq<char>,
    pub published: Seq<char>,
    pub title: Seq<char>,
    pub summary: Seq<char>,
    pub authors: Seq<Seq<char>>,
    pub pdf_url: Seq<char>,
    pub comment: Option<Seq<char>>,
}

impl View for Arxiv {
    type V = ArxivView;

    open spec fn view(&self) -> ArxivView {
        ArxivView {
            id: self.id@,
            updated: self.updated@,
            published: self.published@,
            title: self.title@,
            summary: self.summary@,
            authors: self.authors.deep_view(),
            pdf_url: self.pdf_url@,
            comment: self.comment.deep_view(),
        }
    }
}

impl Clone for Arxiv {
    /// A clone carries the same metadata.
    fn clone(&self) -> (res: Self)
        ensures
            res@ == self@,
    {
        let res = Arxiv {
            id: self.id.clone(),
            updated: self.updated.clone(),
            published: self.published.clone(),
            title: self.title.clone(),
            summary: self.summary.clone(),
            authors: self.authors.clone(),
            pdf_url: self.pdf_url.clone(),
            comment: self.comment.clone(),
        };
        proof {
            assert(res.authors.deep_view() =~= self.authors.deep_view());
            broadcast use vstd::std_specs::vec::vec_clone_deep_view_proof;

            assert(res.comment == self.comment);
        }
        res
    }
}

/// The query the fetcher sends: which papers, how many, in what order.
pub struct ArxivQuery {
    pub search_query: String,
    pub start: i32,
    pub max_results: i32,
    pub sort_by: String,
    pub sort_order: String,
}

/// A fetcher configuration: the search text and the batch size it asks for.
pub struct ArxivFetcher {
    pub query: String,
    pub number: i32,
}

impl Default for ArxivFetcher {
    /// The fallback configuration: a placeholder query for five items.
    fn default() -> (res: Self)
        ensures
            res.query@ == "Are you querying me?"@,
            res.number == 5,
    {
        ArxivFetcher { query: "Are you querying me?".to_owned(), number: 5 }
    }
}

impl ArxivFetcher {
    /// The exact query this configuration stands for: newest submissions
    /// first, starting at the first result.
    pub fn build_arixv_query(&self) -> (r: ArxivQuery)
        ensures
            r.search_query@ == self.query@,
            r.start == 0,
            r.max_results == self.number,
            r.sort_by@ == "submittedDate"@,
            r.sort_order@ == "descending"@,
    {
        ArxivQuery {
            search_query: self.query.clone(),
            start: 0,
            max_results: self.number,
            sort_by: "submittedDate".to_owned(),
            sort_order: "descending".to_owned(),
        }
    }
}

} // verus!

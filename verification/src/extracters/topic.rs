//! The structured result of one successful extraction.

use vstd::prelude::*;

verus! {

/// The structured annotation the enrichment step derives for one paper:
/// the echoed title and three tag lists the analyzer can group by.
#[derive(Debug)]
pub struct ArxivTopicData {
    pub title: String,
    pub solved_problem: Vec<String>,
    pub research_field: Vec<String>,
    pub techniques_used: Vec<String>,
}

/// The mathematical image of an `ArxivTopicData` value.
pub ghost struct ArxivTopicDataView {
    pub title: Seq<char>,
    pub solved_problem: Seq<Seq<char>>,
    pub research_field: Seq<Seq<char>>,
    pub techniques_used: Seq<Seq<char>>,
}

impl View for ArxivTopicData {
    type V = ArxivTopicDataView;

    open spec fn view(&self) -> ArxivTopicDataView {
        ArxivTopicDataView {
            title: self.title@,
            solved_problem: self.solved_problem.deep_view(),
            research_field: self.research_field.deep_view(),
            techniques_used: self.techniques_used.deep_view(),
        }
    }
}

impl Clone for ArxivTopicData {
    /// A clone carries the same annotation.
    fn clone(&self) -> (res: Self)
        ensures
            res@ == self@,
    {
        let res = ArxivTopicData {
            title: self.title.clone(),
            solved_problem: self.solved_problem.clone(),
            research_field: self.research_field.clone(),
            techniques_used: self.techniques_used.clone(),
        };
        proof {
            broadcast use vstd::std_specs::vec::vec_clone_deep_view_proof;

            assert(res.solved_problem.deep_view() =~= self.solved_problem.deep_view());
            assert(res.research_field.deep_view() =~= self.research_field.deep_view());
            assert(res.techniques_used.deep_view() =~= self.techniques_used.deep_view());
        }
        res
    }
}

} // verus!

//! The pipeline orchestrator.
//!
//! A run fetches one batch of raw items, fans the items out to concurrent
//! extraction calls, and collects `(item, result)` pairs for the calls
//! that succeed. Only the batch fetch can fail the run; a failed
//! extraction costs exactly its own item.
//!
//! The waiting itself happens outside the library. `ArxivSciffer` is the
//! fan-in state the single draining task owns: `start` consumes the fetch
//! outcome, `complete` records one finished call (in whatever order calls
//! finish), and `finish` hands the collected pairs back.
//! `sniffer_parallel` runs the whole fan-in over a recorded completion
//! sequence at once.

use crate::extracters::topic::ArxivTopicData;
use crate::extracters::ExtracterError;
use crate::fetchers::arxiv::Arxiv;
use crate::fetchers::arxiv::ArxivView;
use crate::fetchers::FetcherError;
use crate::models::Keyword;
use crate::models::Paper;
use vstd::pervasive::VecAdditionalExecFns;
use vstd::prelude::*;

verus! {

/// Why a whole run failed. Only a failed batch fetch does; the second
/// variant is kept for parity with the error taxonomy and never raised by
/// the orchestrator itself.
#[derive(Debug)]
pub enum ScifferError {
    FetcherError(FetcherError),
    ExtracterError,
}

impl ScifferError {
    /// The rendered cause, for callers that report the failure.
    pub fn message(&self) -> (r: &str)
        ensures
            r@ == (match *self {
                ScifferError::FetcherError(ref e) => e.msg@,
                ScifferError::ExtracterError => "extracter error"@,
            }),
    {
        match self {
            ScifferError::FetcherError(e) => e.message().as_str(),
            ScifferError::ExtracterError => "extracter error",
        }
    }
}

/// The fan-in state of one run: which items still wait for their
/// extraction call, and the pairs collected so far, in completion order.
pub struct ArxivSciffer {
    items: Vec<Option<Arxiv>>,
    pairs: Vec<(Arxiv, ArxivTopicData)>,
    batch: Ghost<Seq<Arxiv>>,
}

impl ArxivSciffer {
    /// The batch the run fetched.
    pub closed spec fn batch(&self) -> Seq<Arxiv> {
        self.batch@
    }

    /// The pairs collected so far, in completion order.
    pub closed spec fn collected(&self) -> Seq<(Arxiv, ArxivTopicData)> {
        self.pairs@
    }

    /// Whether item `i` still waits for its extraction call.
    pub closed spec fn pending(&self, i: int) -> bool {
        self.items@[i] is Some
    }

    /// The state is consistent with the batch it was started on.
    pub closed spec fn wf(&self) -> bool {
        &&& self.items@.len() == self.batch@.len()
        &&& forall|i: int|
            0 <= i < self.items@.len() ==> ((#[trigger] self.items@[i]) matches Some(x) ==> x
                == self.batch@[i])
    }

    /// Takes the fetch outcome. A failed fetch fails the whole run, with
    /// the cause wrapped, and nothing is handed to extraction; a
    /// successful fetch opens a run with every item pending and nothing
    /// collected yet.
    pub fn start(fetch_result: Result<Vec<Arxiv>, FetcherError>) -> (r: Result<
        ArxivSciffer,
        ScifferError,
    >)
        ensures
            (r is Ok) == (fetch_result is Ok),
            fetch_result matches Ok(b) ==> {
                let s = r->Ok_0;
                &&& s.wf()
                &&& s.batch() == b@
                &&& s.collected() == Seq::<(Arxiv, ArxivTopicData)>::empty()
                &&& forall|i: int| 0 <= i < b@.len() ==> s.pending(i)
            },
            fetch_result matches Err(e) ==> r->Err_0 == ScifferError::FetcherError(e),
    {
        match fetch_result {
            Ok(b) => {
                let ghost bsnap = b@;
                let mut rest = b;
                let mut items: Vec<Option<Arxiv>> = Vec::new();
                proof {
                    assert(bsnap.skip(0) =~= bsnap);
                }
                while rest.len() > 0
                    invariant
                        items@.len() + rest@.len() == bsnap.len(),
                        forall|k: int|
                            0 <= k < items@.len() ==> (#[trigger] items@[k]) == Some(bsnap[k]),
                        rest@ == bsnap.skip(items@.len() as int),
                    decreases rest@.len(),
                {
                    let ghost n = items@.len() as int;
                    let x = rest.remove(0);
                    proof {
                        assert(bsnap.skip(n)[0] == bsnap[n]);
                        assert(bsnap.skip(n).remove(0) =~= bsnap.skip(n + 1));
                    }
                    items.push(Some(x));
                }
                Ok(ArxivSciffer { items, pairs: Vec::new(), batch: Ghost(bsnap) })
            },
            Err(e) => Err(ScifferError::FetcherError(e)),
        }
    }

    /// Records the completion of item `i`. A success appends the pair to
    /// the collection and reports nothing; a failure leaves the
    /// collection alone and hands the dropped item back with its cause,
    /// for the caller to log. Neither ever fails the run.
    pub fn complete(&mut self, i: usize, outcome: Result<ArxivTopicData, ExtracterError>) -> (r:
        Option<(Arxiv, ExtracterError)>)
        requires
            old(self).wf(),
            i < old(self).batch().len(),
            old(self).pending(i as int),
        ensures
            final(self).wf(),
            final(self).batch() == old(self).batch(),
            (r is Some) == (outcome is Err),
            outcome matches Ok(d) ==> final(self).collected() == old(self).collected().push(
                (old(self).batch()[i as int], d),
            ),
            outcome matches Err(e) ==> final(self).collected() == old(self).collected()
                && r->Some_0.0 == old(self).batch()[i as int] && r->Some_0.1 == e,
            forall|j: int|
                0 <= j < old(self).batch().len() && j != i ==> final(self).pending(j) == old(
                    self,
                ).pending(j),
            !final(self).pending(i as int),
    {
        let mut slot: Option<Arxiv> = None;
        self.items.set_and_swap(i, &mut slot);
        let item = match slot {
            Some(item) => item,
            None => vstd::pervasive::unreached(),
        };
        match outcome {
            Ok(d) => {
                self.pairs.push((item, d));
                None
            },
            Err(e) => Some((item, e)),
        }
    }

    /// Hands back everything the run collected, in completion order.
    pub fn finish(self) -> (r: Vec<(Arxiv, ArxivTopicData)>)
        ensures
            r@ == self.collected(),
    {
        self.pairs
    }
}

/// A well-formed completion record for a batch of `n` items: every entry
/// names an item of the batch, every item completes exactly once.
pub open spec fn valid_completions(
    n: nat,
    outcomes: Seq<(usize, Result<ArxivTopicData, ExtracterError>)>,
) -> bool {
    &&& outcomes.len() == n
    &&& forall|m: int| 0 <= m < outcomes.len() ==> (#[trigger] outcomes[m]).0 < n
    &&& forall|m1: int, m2: int|
        0 <= m1 < m2 < outcomes.len() ==> (#[trigger] outcomes[m1]).0 != (
        #[trigger] outcomes[m2]).0
}

/// What a run collects: for each successful completion, in completion
/// order, the named batch item beside its extraction result; failed
/// completions contribute nothing.
pub open spec fn spec_collect(
    batch: Seq<Arxiv>,
    outcomes: Seq<(usize, Result<ArxivTopicData, ExtracterError>)>,
) -> Seq<(Arxiv, ArxivTopicData)>
    decreases outcomes.len(),
{
    if outcomes.len() == 0 {
        Seq::empty()
    } else {
        let rest = spec_collect(batch, outcomes.drop_last());
        let o = outcomes.last();
        match o.1 {
            Ok(d) => rest.push((batch[o.0 as int], d)),
            Err(_) => rest,
        }
    }
}

impl ArxivSciffer {
    /// Runs the whole fan-in at once over a recorded completion sequence.
    /// The run fails exactly when the fetch failed, with the cause
    /// wrapped; item-level failures are dropped from the collection and
    /// never fail the run.
    pub fn sniffer_parallel(
        fetch_result: Result<Vec<Arxiv>, FetcherError>,
        outcomes: Vec<(usize, Result<ArxivTopicData, ExtracterError>)>,
    ) -> (r: Result<Vec<(Arxiv, ArxivTopicData)>, ScifferError>)
        requires
            fetch_result matches Ok(b) ==> valid_completions(b@.len(), outcomes@),
        ensures
            (r is Ok) == (fetch_result is Ok),
            fetch_result matches Ok(b) ==> r->Ok_0@ == spec_collect(b@, outcomes@),
            fetch_result matches Err(e) ==> r->Err_0 == ScifferError::FetcherError(e),
    {
        let ghost bsnap = match fetch_result {
            Ok(ref b) => b@,
            Err(_) => Seq::empty(),
        };
        let ghost osnap = outcomes@;
        let mut machine = match ArxivSciffer::start(fetch_result) {
            Ok(m) => m,
            Err(e) => {
                return Err(e);
            },
        };
        let mut rest = outcomes;
        proof {
            assert(osnap.skip(0) =~= osnap);
            assert(osnap.take(0) =~= Seq::empty());
        }
        while rest.len() > 0
            invariant
                machine.wf(),
                machine.batch() == bsnap,
                valid_completions(bsnap.len(), osnap),
                rest@.len() <= osnap.len(),
                rest@ == osnap.skip(osnap.len() - rest@.len()),
                machine.collected() == spec_collect(bsnap, osnap.take(osnap.len() - rest@.len())),
                forall|j: int|
                    0 <= j < bsnap.len() ==> (machine.pending(j) <==> !exists|m: int|
                        0 <= m < osnap.len() - rest@.len() && (#[trigger] osnap[m]).0 == j),
            decreases rest@.len(),
        {
            let ghost t = osnap.len() - rest@.len();
            proof {
                assert(osnap.skip(t as int)[0] == osnap[t as int]);
                assert(osnap.skip(t as int).remove(0) =~= osnap.skip(t as int + 1));
            }
            let o = rest.remove(0);
            let i = o.0;
            proof {
                assert(o == osnap[t as int]);
                assert(machine.pending(i as int)) by {
                    if exists|m: int| 0 <= m < t && (#[trigger] osnap[m]).0 == i {
                        let m = choose|m: int| 0 <= m < t && (#[trigger] osnap[m]).0 == i;
                        assert(osnap[m].0 != osnap[t as int].0);
                    }
                }
            }
            let _ = machine.complete(i, o.1);
            proof {
                assert(osnap.take(t as int + 1).drop_last() =~= osnap.take(t as int));
                assert(osnap.take(t as int + 1).last() == osnap[t as int]);
                assert(osnap.len() - rest@.len() == t + 1);
            }
        }
        proof {
            assert(osnap.take(osnap.len() - rest@.len()) =~= osnap);
        }
        Ok(machine.finish())
    }
}

/// The pair stands for one item of the fetched batch.
pub open spec fn from_batch(batch: Seq<Arxiv>, p: (Arxiv, ArxivTopicData)) -> bool {
    exists|i: int| 0 <= i < batch.len() && p.0 == #[trigger] batch[i]
}

/// Whatever completes, a run keeps at most one pair per fetched item and
/// fabricates none: the collection is no longer than the batch, and every
/// collected raw item is one of the batch.
pub proof fn lemma_collect_subset(
    batch: Seq<Arxiv>,
    outcomes: Seq<(usize, Result<ArxivTopicData, ExtracterError>)>,
)
    requires
        valid_completions(batch.len(), outcomes),
    ensures
        spec_collect(batch, outcomes).len() <= batch.len(),
        forall|k: int|
            0 <= k < spec_collect(batch, outcomes).len() ==> from_batch(
                batch,
                #[trigger] spec_collect(batch, outcomes)[k],
            ),
{
    lemma_collect_len_le(batch, outcomes);
    lemma_collect_members(batch, outcomes);
}

proof fn lemma_collect_len_le(
    batch: Seq<Arxiv>,
    outcomes: Seq<(usize, Result<ArxivTopicData, ExtracterError>)>,
)
    ensures
        spec_collect(batch, outcomes).len() <= outcomes.len(),
    decreases outcomes.len(),
{
    if outcomes.len() > 0 {
        lemma_collect_len_le(batch, outcomes.drop_last());
    }
}

proof fn lemma_collect_members(
    batch: Seq<Arxiv>,
    outcomes: Seq<(usize, Result<ArxivTopicData, ExtracterError>)>,
)
    requires
        forall|m: int| 0 <= m < outcomes.len() ==> (#[trigger] outcomes[m]).0 < batch.len(),
    ensures
        forall|k: int|
            0 <= k < spec_collect(batch, outcomes).len() ==> from_batch(
                batch,
                #[trigger] spec_collect(batch, outcomes)[k],
            ),
    decreases outcomes.len(),
{
    if outcomes.len() > 0 {
        let pre = outcomes.drop_last();
        lemma_collect_members(batch, pre);
        let s = spec_collect(batch, outcomes);
        let rest = spec_collect(batch, pre);
        assert forall|k: int| 0 <= k < s.len() implies from_batch(batch, #[trigger] s[k]) by {
            if k < rest.len() {
                assert(s[k] == rest[k]);
            } else {
                assert(outcomes.last().0 < batch.len());
                assert(s[k].0 == batch[outcomes.last().0 as int]);
            }
        }
    }
}

/// No two items of the batch share an identifier.
pub open spec fn distinct_ids(batch: Seq<Arxiv>) -> bool {
    forall|i1: int, i2: int|
        0 <= i1 < batch.len() && 0 <= i2 < batch.len() && i1 != i2 ==> (#[trigger] batch[i1]).id@
            != (#[trigger] batch[i2]).id@
}

/// No two collected pairs share a raw item identifier.
pub open spec fn distinct_pair_ids(pairs: Seq<(Arxiv, ArxivTopicData)>) -> bool {
    forall|k1: int, k2: int|
        0 <= k1 < pairs.len() && 0 <= k2 < pairs.len() && k1 != k2 ==> (
        #[trigger] pairs[k1]).0.id@ != (#[trigger] pairs[k2]).0.id@
}

/// The pair stems from some successful completion of the record.
pub open spec fn ok_witness(
    batch: Seq<Arxiv>,
    outcomes: Seq<(usize, Result<ArxivTopicData, ExtracterError>)>,
    p: (Arxiv, ArxivTopicData),
) -> bool {
    exists|m: int|
        0 <= m < outcomes.len() && (#[trigger] outcomes[m]).1 is Ok && p.0 == batch[outcomes[m].0
            as int]
}

proof fn lemma_collect_ids_aux(
    batch: Seq<Arxiv>,
    outcomes: Seq<(usize, Result<ArxivTopicData, ExtracterError>)>,
)
    requires
        forall|m: int| 0 <= m < outcomes.len() ==> (#[trigger] outcomes[m]).0 < batch.len(),
        forall|m1: int, m2: int|
            0 <= m1 < m2 < outcomes.len() ==> (#[trigger] outcomes[m1]).0 != (
            #[trigger] outcomes[m2]).0,
        distinct_ids(batch),
    ensures
        forall|k: int|
            0 <= k < spec_collect(batch, outcomes).len() ==> ok_witness(
                batch,
                outcomes,
                #[trigger] spec_collect(batch, outcomes)[k],
            ),
        distinct_pair_ids(spec_collect(batch, outcomes)),
    decreases outcomes.len(),
{
    if outcomes.len() > 0 {
        let pre = outcomes.drop_last();
        lemma_collect_ids_aux(batch, pre);
        let s = spec_collect(batch, outcomes);
        let rest = spec_collect(batch, pre);
        let last = outcomes.last();
        assert forall|k: int| 0 <= k < s.len() implies ok_witness(batch, outcomes, #[trigger] s[k])
            by {
            if k < rest.len() {
                assert(s[k] == rest[k]);
                let m = choose|m: int|
                    0 <= m < pre.len() && (#[trigger] pre[m]).1 is Ok && rest[k].0 == batch[pre[m].0
                        as int];
                assert(outcomes[m] == pre[m]);
            } else {
                assert(last.1 is Ok);
                assert(s[k].0 == batch[last.0 as int]);
                assert(outcomes[outcomes.len() - 1] == last);
            }
        }
        assert forall|k1: int, k2: int|
            0 <= k1 < s.len() && 0 <= k2 < s.len() && k1 != k2 implies (#[trigger] s[k1]).0.id@
            != (#[trigger] s[k2]).0.id@ by {
            let lo = if k1 < k2 { k1 } else { k2 };
            let hi = if k1 < k2 { k2 } else { k1 };
            if hi < rest.len() {
                assert(s[lo] == rest[lo]);
                assert(s[hi] == rest[hi]);
            } else {
                // hi names the pair appended by the last completion
                assert(s[lo] == rest[lo]);
                let m = choose|m: int|
                    0 <= m < pre.len() && (#[trigger] pre[m]).1 is Ok && rest[lo].0 == batch[pre[m].0
                        as int];
                assert(outcomes[m] == pre[m]);
                assert(outcomes[m].0 != outcomes[outcomes.len() - 1].0);
                assert(s[hi].0 == batch[last.0 as int]);
            }
        }
    }
}

/// No raw item identifier appears twice among the collected pairs of one
/// run, as long as the batch itself carried distinct identifiers.
pub proof fn lemma_collect_no_duplicate_ids(
    batch: Seq<Arxiv>,
    outcomes: Seq<(usize, Result<ArxivTopicData, ExtracterError>)>,
)
    requires
        valid_completions(batch.len(), outcomes),
        distinct_ids(batch),
    ensures
        distinct_pair_ids(spec_collect(batch, outcomes)),
{
    lemma_collect_ids_aux(batch, outcomes);
}

/// The paper row derived from one enriched pair.
pub open spec fn paper_of(meta: ArxivView, date: Seq<char>, p: Paper) -> bool {
    &&& p.id == 0
    &&& p.title@ == meta.title
    &&& p.abstract_text.deep_view() == Some(meta.summary)
    &&& p.publish_date.deep_view() == Some(meta.published)
    &&& p.insert_date@ == date
    &&& p.url@ == meta.pdf_url
}

/// The keyword rows derived from one structured result: one per technique
/// tag, in order.
pub open spec fn keywords_of(techs: Seq<Seq<char>>, ks: Seq<Keyword>) -> bool {
    &&& ks.len() == techs.len()
    &&& forall|m: int|
        0 <= m < ks.len() ==> (#[trigger] ks[m]).id == 0 && ks[m].keyword@ == techs[m]
}

/// Turns the collected pairs into persistence records: one paper row per
/// pair, carrying the item's metadata and the shared insertion date, plus
/// one keyword row per technique tag of its structured result.
pub fn paper_records(pairs: &Vec<(Arxiv, ArxivTopicData)>, insert_date: &String) -> (r: Vec<
    (Paper, Vec<Keyword>),
>)
    ensures
        r@.len() == pairs@.len(),
        forall|k: int|
            0 <= k < pairs@.len() ==> paper_of(pairs@[k].0@, insert_date@, (#[trigger] r@[k]).0)
                && keywords_of(pairs@[k].1@.techniques_used, r@[k].1@),
{
    let mut r: Vec<(Paper, Vec<Keyword>)> = Vec::new();
    let mut k: usize = 0;
    while k < pairs.len()
        invariant
            k <= pairs@.len(),
            r@.len() == k,
            forall|x: int|
                0 <= x < k ==> paper_of(pairs@[x].0@, insert_date@, (#[trigger] r@[x]).0)
                    && keywords_of(pairs@[x].1@.techniques_used, r@[x].1@),
        decreases pairs@.len() - k,
    {
        let meta = &pairs[k].0;
        let ext = &pairs[k].1;
        let paper = Paper {
            id: 0,
            title: meta.title.clone(),
            abstract_text: Some(meta.summary.clone()),
            publish_date: Some(meta.published.clone()),
            insert_date: insert_date.clone(),
            url: meta.pdf_url.clone(),
        };
        let mut keywords: Vec<Keyword> = Vec::new();
        let mut m: usize = 0;
        while m < ext.techniques_used.len()
            invariant
                k < pairs@.len(),
                *ext == pairs@[k as int].1,
                m <= ext.techniques_used@.len(),
                keywords@.len() == m,
                forall|x: int|
                    0 <= x < m ==> (#[trigger] keywords@[x]).id == 0 && keywords@[x].keyword@
                        == ext.techniques_used@[x]@,
            decreases ext.techniques_used@.len() - m,
        {
            keywords.push(Keyword { id: 0, keyword: ext.techniques_used[m].clone() });
            m = m + 1;
        }
        proof {
            assert(keywords_of(pairs@[k as int].1@.techniques_used, keywords@));
        }
        r.push((paper, keywords));
        k = k + 1;
    }
    r
}

} // verus!

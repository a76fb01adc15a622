//! A straightforward analyzer over arXiv records.
//!
//! Grouping walks the pairs once, keeping one bucket per tag value seen so
//! far; ranking then sorts the buckets by descending size, ties broken by
//! descending lexicographic order of the tag.

use crate::analyzers::bucket_view;
use crate::analyzers::bucket_views;
use crate::analyzers::group_of;
use crate::analyzers::grouped;
use crate::analyzers::lemma_bucket_views_push;
use crate::analyzers::lemma_bucket_views_update;
use crate::analyzers::lemma_group_of_extend;
use crate::analyzers::lemma_ranked_ge_transitive;
use crate::analyzers::lemma_ranked_total;
use crate::analyzers::ranked_before;
use crate::analyzers::ranked_ge;
use crate::analyzers::top_k_post;
use crate::analyzers::TagSelector;
use crate::analyzers::TrendingAnalyzer;
use crate::extracters::topic::ArxivTopicData;
use crate::fetchers::arxiv::Arxiv;
use crate::fetchers::arxiv::ArxivView;
use crate::text::str_lt;
use vstd::multiset::Multiset;
use vstd::prelude::*;
use vstd::seq_lib::lemma_multiset_commutative;

verus! {

/// The analyzer used by the pipeline; it holds no state of its own.
#[derive(Clone, Copy)]
pub struct SimpleArixvTrendingAnalyzer {}

/// The tag list a selector names inside one structured result.
pub open spec fn spec_selected(f: TagSelector, ctx: ArxivTopicData) -> Seq<Seq<char>> {
    match f {
        TagSelector::SolvedProblem => ctx.solved_problem.deep_view(),
        TagSelector::ResearchField => ctx.research_field.deep_view(),
        TagSelector::TechniquesUsed => ctx.techniques_used.deep_view(),
    }
}

/// The rows this analyzer derives from the collected pairs.
pub open spec fn spec_rows(data: Seq<(Arxiv, ArxivTopicData)>, f: TagSelector) -> Seq<
    (ArxivView, Seq<Seq<char>>),
> {
    data.map(|k: int, p: (Arxiv, ArxivTopicData)| (p.0@, spec_selected(f, p.1)))
}

/// Reads the selected tag list out of one structured result.
fn select_tags<'a>(f: TagSelector, ctx: &'a ArxivTopicData) -> (r: &'a Vec<String>)
    ensures
        r.deep_view() == spec_selected(f, *ctx),
{
    match f {
        TagSelector::SolvedProblem => &ctx.solved_problem,
        TagSelector::ResearchField => &ctx.research_field,
        TagSelector::TechniquesUsed => &ctx.techniques_used,
    }
}

/// Decides string equality.
fn string_eq(a: &String, b: &String) -> (r: bool)
    ensures
        r == (a@ == b@),
{
    a.eq(b)
}

/// Decides the non-strict rank order between two buckets.
fn bucket_ge(a: &(String, Vec<Arxiv>), b: &(String, Vec<Arxiv>)) -> (r: bool)
    ensures
        r == ranked_ge(bucket_view(*a), bucket_view(*b)),
{
    let la = a.1.len();
    let lb = b.1.len();
    if la > lb {
        true
    } else if la < lb {
        false
    } else {
        string_eq(&a.0, &b.0) || str_lt(b.0.as_str(), a.0.as_str())
    }
}

/// The multiset of a sequence with one element inserted.
proof fn lemma_to_multiset_insert<A>(s: Seq<A>, i: int, e: A)
    requires
        0 <= i <= s.len(),
    ensures
        s.insert(i, e).to_multiset() =~= s.to_multiset().insert(e),
{
    broadcast use vstd::multiset::group_multiset_axioms;

    let a = s.subrange(0, i);
    let b = s.subrange(i, s.len() as int);
    a.to_multiset_ensures();
    lemma_multiset_commutative(a.push(e), b);
    lemma_multiset_commutative(a, b);
    assert(s =~= a + b);
}

/// Sorts buckets by descending size, ties broken by descending
/// lexicographic order of the tag; the result holds the same buckets.
fn rank_sort(v: Vec<(String, Vec<Arxiv>)>) -> (out: Vec<(String, Vec<Arxiv>)>)
    ensures
        out@.to_multiset() == v@.to_multiset(),
        forall|i: int, j: int|
            0 <= i < j < out@.len() ==> ranked_ge(
                bucket_view(#[trigger] out@[i]),
                bucket_view(#[trigger] out@[j]),
            ),
{
    let ghost orig = v@;
    let mut rest = v;
    let mut out: Vec<(String, Vec<Arxiv>)> = Vec::new();
    proof {
        broadcast use vstd::multiset::group_multiset_axioms;

        out@.to_multiset_ensures();
        assert(out@.to_multiset().add(rest@.to_multiset()) =~= orig.to_multiset());
    }
    loop
        invariant
            out@.to_multiset().add(rest@.to_multiset()) =~= orig.to_multiset(),
            forall|i: int, j: int|
                0 <= i < j < out@.len() ==> ranked_ge(
                    bucket_view(#[trigger] out@[i]),
                    bucket_view(#[trigger] out@[j]),
                ),
        ensures
            rest@.len() == 0,
        decreases rest@.len(),
    {
        let ghost rest_before = rest@;
        let e = match rest.pop() {
            Some(e) => e,
            None => {
                break ;
            },
        };
        proof {
            broadcast use vstd::multiset::group_multiset_axioms;

            rest@.to_multiset_ensures();
            assert(rest_before =~= rest@.push(e));
            assert(rest_before.to_multiset() =~= rest@.to_multiset().insert(e));
        }
        let mut pos: usize = 0;
        while pos < out.len() && bucket_ge(&out[pos], &e)
            invariant
                pos <= out@.len(),
                forall|i: int|
                    0 <= i < pos ==> ranked_ge(bucket_view(#[trigger] out@[i]), bucket_view(e)),
                forall|i: int, j: int|
                    0 <= i < j < out@.len() ==> ranked_ge(
                        bucket_view(#[trigger] out@[i]),
                        bucket_view(#[trigger] out@[j]),
                    ),
            decreases out@.len() - pos,
        {
            pos = pos + 1;
        }
        proof {
            if (pos as int) < out@.len() {
                lemma_ranked_total(bucket_view(out@[pos as int]), bucket_view(e));
            }
        }
        let ghost out_before = out@;
        out.insert(pos, e);
        proof {
            broadcast use vstd::multiset::group_multiset_axioms;

            lemma_to_multiset_insert(out_before, pos as int, e);
            assert forall|i: int, j: int| 0 <= i < j < out@.len() implies ranked_ge(
                bucket_view(#[trigger] out@[i]),
                bucket_view(#[trigger] out@[j]),
            ) by {
                let p = pos as int;
                if i < p && j == p {
                } else if i == p && j > p {
                    if p < out_before.len() {
                        lemma_ranked_ge_transitive(
                            bucket_view(e),
                            bucket_view(out_before[p]),
                            bucket_view(out_before[j - 1]),
                        );
                    }
                } else if i < p && j > p {
                } else if i > p && j > p {
                } else {
                }
            }
        }
    }
    proof {
        broadcast use vstd::multiset::group_multiset_axioms;

        rest@.to_multiset_ensures();
        assert(rest@.to_multiset() =~= Multiset::empty());
        assert(out@.to_multiset() =~= orig.to_multiset());
    }
    out
}

/// Opening a new row with an empty tag list changes no group.
proof fn lemma_grouped_open_row<RV>(
    rows: Seq<(RV, Seq<Seq<char>>)>,
    rv: RV,
    out: Seq<(Seq<char>, Seq<RV>)>,
)
    requires
        grouped(rows, out),
    ensures
        grouped(rows.push((rv, Seq::empty())), out),
{
    let part = rows.push((rv, Seq::<Seq<char>>::empty()));
    assert forall|tag: Seq<char>| #[trigger] group_of(part, tag) == group_of(rows, tag) by {
        crate::analyzers::lemma_group_of_push_row(rows, (rv, Seq::empty()), tag);
        assert(Seq::new(0, |i: int| rv) =~= Seq::<RV>::empty());
        assert(group_of(rows, tag) + Seq::<RV>::empty() =~= group_of(rows, tag));
    }
}

/// Recording one more tag of the open row, when a bucket for it exists,
/// extends exactly that bucket by the open row's raw item.
proof fn lemma_grouped_extend_found<RV>(
    rows: Seq<(RV, Seq<Seq<char>>)>,
    rv: RV,
    tags: Seq<Seq<char>>,
    t: Seq<char>,
    out: Seq<(Seq<char>, Seq<RV>)>,
    gi: int,
)
    requires
        grouped(rows.push((rv, tags)), out),
        0 <= gi < out.len(),
        out[gi].0 == t,
    ensures
        grouped(rows.push((rv, tags.push(t))), out.update(gi, (t, out[gi].1.push(rv)))),
{
    let part = rows.push((rv, tags));
    let part2 = rows.push((rv, tags.push(t)));
    let out2 = out.update(gi, (t, out[gi].1.push(rv)));
    assert forall|tag: Seq<char>| #[trigger] group_of(part2, tag) == (if tag == t {
        group_of(part, tag).push(rv)
    } else {
        group_of(part, tag)
    }) by {
        lemma_group_of_extend(rows, rv, tags, t, tag);
    }
    assert forall|i: int| 0 <= i < out2.len() implies (#[trigger] out2[i]).1 == group_of(
        part2,
        out2[i].0,
    ) && out2[i].1.len() > 0 by {
        if i == gi {
            assert(out2[i] == (t, out[gi].1.push(rv)));
        } else {
            assert(out2[i] == out[i]);
            assert(out[i].0 != t);
        }
    }
    assert forall|tag: Seq<char>| group_of(part2, tag).len() > 0 implies exists|i: int|
        0 <= i < out2.len() && (#[trigger] out2[i]).0 == tag by {
        if tag == t {
            assert(out2[gi].0 == tag);
        } else {
            assert(group_of(part, tag).len() > 0);
            let i = choose|i: int| 0 <= i < out.len() && (#[trigger] out[i]).0 == tag;
            assert(out2[i].0 == tag);
        }
    }
    assert forall|i: int, j: int| 0 <= i < j < out2.len() implies (#[trigger] out2[i]).0 != (
    #[trigger] out2[j]).0 by {
        assert(out2[i].0 == out[i].0);
        assert(out2[j].0 == out[j].0);
    }
}

/// Recording one more tag of the open row, when no bucket for it exists,
/// adds the bucket holding the open row's raw item once.
proof fn lemma_grouped_extend_new<RV>(
    rows: Seq<(RV, Seq<Seq<char>>)>,
    rv: RV,
    tags: Seq<Seq<char>>,
    t: Seq<char>,
    out: Seq<(Seq<char>, Seq<RV>)>,
)
    requires
        grouped(rows.push((rv, tags)), out),
        forall|x: int| 0 <= x < out.len() ==> (#[trigger] out[x]).0 != t,
    ensures
        grouped(rows.push((rv, tags.push(t))), out.push((t, seq![rv]))),
{
    let part = rows.push((rv, tags));
    let part2 = rows.push((rv, tags.push(t)));
    let out2 = out.push((t, seq![rv]));
    assert forall|tag: Seq<char>| #[trigger] group_of(part2, tag) == (if tag == t {
        group_of(part, tag).push(rv)
    } else {
        group_of(part, tag)
    }) by {
        lemma_group_of_extend(rows, rv, tags, t, tag);
    }
    assert(group_of(part, t).len() == 0) by {
        if group_of(part, t).len() > 0 {
            let i = choose|i: int| 0 <= i < out.len() && (#[trigger] out[i]).0 == t;
        }
    }
    assert(group_of(part2, t) =~= seq![rv]) by {
        assert(group_of(part, t) =~= Seq::<RV>::empty());
    }
    assert forall|i: int| 0 <= i < out2.len() implies (#[trigger] out2[i]).1 == group_of(
        part2,
        out2[i].0,
    ) && out2[i].1.len() > 0 by {
        if i < out.len() {
            assert(out2[i] == out[i]);
            assert(out[i].0 != t);
        } else {
            assert(out2[i] == (t, seq![rv]));
        }
    }
    assert forall|tag: Seq<char>| group_of(part2, tag).len() > 0 implies exists|i: int|
        0 <= i < out2.len() && (#[trigger] out2[i]).0 == tag by {
        if tag == t {
            assert(out2[out.len() as int].0 == tag);
        } else {
            assert(group_of(part, tag).len() > 0);
            let i = choose|i: int| 0 <= i < out.len() && (#[trigger] out[i]).0 == tag;
            assert(out2[i].0 == tag);
        }
    }
    assert forall|i: int, j: int| 0 <= i < j < out2.len() implies (#[trigger] out2[i]).0 != (
    #[trigger] out2[j]).0 by {
        if j < out.len() {
            assert(out2[i].0 == out[i].0);
            assert(out2[j].0 == out[j].0);
        } else {
            assert(out2[i].0 == out[i].0);
            assert(out2[j].0 == t);
        }
    }
}

/// Walks the pairs once and collects one bucket per tag value, each bucket
/// holding the raw items whose selected tag list carried that value.
fn group_pairs(data: &Vec<(Arxiv, ArxivTopicData)>, f: TagSelector) -> (groups: Vec<
    (String, Vec<Arxiv>),
>)
    ensures
        grouped(spec_rows(data@, f), bucket_views(groups@)),
{
    let ghost rows = spec_rows(data@, f);
    let mut groups: Vec<(String, Vec<Arxiv>)> = Vec::new();
    proof {
        assert(rows.take(0) =~= Seq::empty());
        assert(bucket_views(groups@) =~= Seq::empty());
    }
    let mut k: usize = 0;
    while k < data.len()
        invariant
            rows == spec_rows(data@, f),
            rows.len() == data@.len(),
            k <= data@.len(),
            grouped(rows.take(k as int), bucket_views(groups@)),
        decreases data@.len() - k,
    {
        let pair = &data[k];
        let ghost rv = rows[k as int].0;
        let ghost tagseq = rows[k as int].1;
        let tags = select_tags(f, &pair.1);
        proof {
            assert(rows[k as int] == (data@[k as int].0@, spec_selected(f, data@[k as int].1)));
            assert(tags.deep_view() == tagseq);
            assert(tagseq.take(0) =~= Seq::<Seq<char>>::empty());
            lemma_grouped_open_row(rows.take(k as int), rv, bucket_views(groups@));
        }
        let mut j: usize = 0;
        while j < tags.len()
            invariant
                rows == spec_rows(data@, f),
                rows.len() == data@.len(),
                k < data@.len(),
                tags.deep_view() == tagseq,
                rv == rows[k as int].0,
                tagseq == rows[k as int].1,
                rv == data@[k as int].0@,
                j <= tagseq.len(),
                tags@.len() == tagseq.len(),
                grouped(
                    rows.take(k as int).push((rv, tagseq.take(j as int))),
                    bucket_views(groups@),
                ),
            decreases tagseq.len() - j,
        {
            let tag = &tags[j];
            proof {
                assert(tag@ == tagseq[j as int]);
            }
            let ghost part = rows.take(k as int).push((rv, tagseq.take(j as int)));
            let ghost part_next = rows.take(k as int).push((rv, tagseq.take(j + 1)));
            proof {
                assert(tagseq.take(j + 1) =~= tagseq.take(j as int).push(tagseq[j as int]));
            }
            let mut gi: usize = 0;
            loop
                invariant
                    gi <= groups@.len(),
                    forall|x: int|
                        0 <= x < gi ==> (#[trigger] bucket_views(groups@)[x]).0 != tag@,
                ensures
                    gi <= groups@.len(),
                    gi < groups@.len() ==> bucket_views(groups@)[gi as int].0 == tag@,
                    gi == groups@.len() ==> forall|x: int|
                        0 <= x < groups@.len() ==> (#[trigger] bucket_views(groups@)[x]).0 != tag@,
                decreases groups@.len() - gi,
            {
                if gi >= groups.len() {
                    break ;
                }
                if string_eq(&groups[gi].0, tag) {
                    proof {
                        assert(bucket_views(groups@)[gi as int].0 == groups@[gi as int].0@);
                    }
                    break ;
                }
                proof {
                    assert(bucket_views(groups@)[gi as int].0 == groups@[gi as int].0@);
                }
                gi = gi + 1;
            }
            let raw = data[k].0.clone();
            proof {
                assert(raw@ == rv);
            }
            let ghost gv_before = bucket_views(groups@);
            let ghost groups_before = groups@;
            if gi < groups.len() {
                groups[gi].1.push(raw);
                proof {
                    let g = gi as int;
                    let e2 = groups@[g];
                    assert(e2.0 == groups_before[g].0);
                    assert(e2.1@ == groups_before[g].1@.push(raw));
                    assert(groups@ == groups_before.update(g, e2));
                    lemma_bucket_views_update(groups_before, g, e2);
                    assert(bucket_view(e2).1 =~= gv_before[g].1.push(rv));
                    assert(bucket_view(e2) == (gv_before[g].0, gv_before[g].1.push(rv)));
                    assert(gv_before[g].0 == tag@);
                    lemma_grouped_extend_found(
                        rows.take(k as int),
                        rv,
                        tagseq.take(j as int),
                        tag@,
                        gv_before,
                        g,
                    );
                    assert(bucket_views(groups@) == gv_before.update(
                        g,
                        (tag@, gv_before[g].1.push(rv)),
                    ));
                }
            } else {
                let mut bucket: Vec<Arxiv> = Vec::new();
                bucket.push(raw);
                groups.push((tag.clone(), bucket));
                proof {
                    lemma_bucket_views_push(groups_before, groups@.last());
                    assert(groups@ == groups_before.push(groups@.last()));
                    assert(bucket_view(groups@.last()).1 =~= seq![rv]);
                    assert(bucket_view(groups@.last()) == (tag@, seq![rv]));
                    lemma_grouped_extend_new(
                        rows.take(k as int),
                        rv,
                        tagseq.take(j as int),
                        tag@,
                        gv_before,
                    );
                    assert(bucket_views(groups@) == gv_before.push((tag@, seq![rv])));
                }
            }
            j = j + 1;
        }
        proof {
            assert(tagseq.take(tagseq.len() as int) =~= tagseq);
            assert(rows[k as int] == (rv, tagseq));
            assert(rows.take(k as int).push(rows[k as int]) =~= rows.take(k as int + 1));
        }
        k = k + 1;
    }
    proof {
        assert(rows.take(rows.len() as int) =~= rows);
    }
    groups
}

/// Reordering the buckets into rank order keeps every property of the
/// grouping and adds the order itself.
proof fn lemma_sorted_transfer(
    rows: Seq<(ArxivView, Seq<Seq<char>>)>,
    gs: Seq<(String, Vec<Arxiv>)>,
    os: Seq<(String, Vec<Arxiv>)>,
)
    requires
        grouped(rows, bucket_views(gs)),
        os.to_multiset() == gs.to_multiset(),
        forall|i: int, j: int|
            0 <= i < j < os.len() ==> ranked_ge(
                bucket_view(#[trigger] os[i]),
                bucket_view(#[trigger] os[j]),
            ),
    ensures
        top_k_post(rows, bucket_views(os)),
{
    broadcast use vstd::multiset::group_multiset_axioms;

    gs.to_multiset_ensures();
    os.to_multiset_ensures();
    assert(gs.no_duplicates()) by {
        assert forall|i: int, j: int|
            0 <= i < gs.len() && 0 <= j < gs.len() && i != j implies gs[i] != gs[j] by {
            assert(bucket_views(gs)[i].0 == gs[i].0@);
            assert(bucket_views(gs)[j].0 == gs[j].0@);
        }
    }
    gs.lemma_multiset_has_no_duplicates();
    os.lemma_multiset_has_no_duplicates_conv();
    assert forall|e: (String, Vec<Arxiv>)| #[trigger] os.contains(e) implies gs.contains(e) by {
        assert(os.to_multiset().count(e) > 0);
    }
    assert forall|e: (String, Vec<Arxiv>)| #[trigger] gs.contains(e) implies os.contains(e) by {
        assert(gs.to_multiset().count(e) > 0);
    }
    let ov = bucket_views(os);
    // every listed bucket is the group of its tag
    assert forall|i: int| 0 <= i < ov.len() implies (#[trigger] ov[i]).1 == group_of(
        rows,
        ov[i].0,
    ) && ov[i].1.len() > 0 by {
        let e = os[i];
        assert(os.contains(e));
        let k = choose|k: int| 0 <= k < gs.len() && gs[k] == e;
        assert(bucket_views(gs)[k] == bucket_view(e));
        assert(ov[i] == bucket_view(e));
    }
    // every tag that occurs is listed
    assert forall|tag: Seq<char>| group_of(rows, tag).len() > 0 implies exists|i: int|
        0 <= i < ov.len() && (#[trigger] ov[i]).0 == tag by {
        let k = choose|k: int|
            0 <= k < bucket_views(gs).len() && (#[trigger] bucket_views(gs)[k]).0 == tag;
        let e = gs[k];
        assert(gs.contains(e));
        let i = choose|i: int| 0 <= i < os.len() && os[i] == e;
        assert(ov[i] == bucket_view(e));
        assert(bucket_views(gs)[k] == bucket_view(e));
        assert(ov[i].0 == tag);
    }
    // no tag is listed twice
    assert forall|i: int, j: int| 0 <= i < j < ov.len() implies (#[trigger] ov[i]).0 != (
    #[trigger] ov[j]).0 by {
        if ov[i].0 == ov[j].0 {
            let ei = os[i];
            let ej = os[j];
            assert(ei != ej);
            assert(os.contains(ei));
            assert(os.contains(ej));
            let ki = choose|k: int| 0 <= k < gs.len() && gs[k] == ei;
            let kj = choose|k: int| 0 <= k < gs.len() && gs[k] == ej;
            assert(ki != kj);
            assert(bucket_views(gs)[ki] == bucket_view(ei));
            assert(bucket_views(gs)[kj] == bucket_view(ej));
            assert(bucket_views(gs)[ki].0 == ov[i].0);
            assert(bucket_views(gs)[kj].0 == ov[j].0);
        }
    }
    // the non-strict chain is strict once tags are distinct
    assert forall|i: int, j: int| 0 <= i < j < ov.len() implies ranked_before(
        #[trigger] ov[i],
        #[trigger] ov[j],
    ) by {
        assert(ov[i] == bucket_view(os[i]));
        assert(ov[j] == bucket_view(os[j]));
        assert(ranked_ge(ov[i], ov[j]));
        assert(ov[i].0 != ov[j].0);
    }
}

impl TrendingAnalyzer for SimpleArixvTrendingAnalyzer {
    type Raw = Arxiv;

    type Ctx = ArxivTopicData;

    open spec fn rows(data: Seq<(Arxiv, ArxivTopicData)>, f: TagSelector) -> Seq<
        (ArxivView, Seq<Seq<char>>),
    > {
        spec_rows(data, f)
    }

    fn top_k(&self, data: &Vec<(Arxiv, ArxivTopicData)>, f: TagSelector) -> (out: Vec<
        (String, Vec<Arxiv>),
    >) {
        let groups = group_pairs(data, f);
        let ghost gs = groups@;
        let out = rank_sort(groups);
        proof {
            lemma_sorted_transfer(spec_rows(data@, f), gs, out@);
        }
        out
    }
}

} // verus!

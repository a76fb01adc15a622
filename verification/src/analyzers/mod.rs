//! The trending analyzer: group enriched pairs by tag value and rank the
//! groups.
//!
//! `top_k` consumes the pairs the pipeline collected together with a
//! selector naming which tag list of the structured result to group by. It
//! returns every tag value that occurs, each with the raw items whose
//! result carried it, ordered by descending group size with ties broken by
//! descending lexicographic order of the tag value. Despite the name no
//! truncation happens: the whole ranked list comes back and callers take a
//! prefix if they want one.

pub mod simple;

use crate::text::lex_lt;
use vstd::prelude::*;

verus! {

/// Which tag list of a structured result the analyzer groups by.
#[derive(Clone, Copy, Debug)]
pub enum TagSelector {
    SolvedProblem,
    ResearchField,
    TechniquesUsed,
}

/// How often `tag` occurs in one result's tag list.
pub open spec fn occurrences(tags: Seq<Seq<char>>, tag: Seq<char>) -> nat
    decreases tags.len(),
{
    if tags.len() == 0 {
        0
    } else {
        occurrences(tags.drop_last(), tag) + (if tags.last() == tag {
            1nat
        } else {
            0nat
        })
    }
}

/// The group for `tag`: every row's raw item, in row order, repeated once
/// per occurrence of `tag` in that row's tag list.
pub open spec fn group_of<RV>(rows: Seq<(RV, Seq<Seq<char>>)>, tag: Seq<char>) -> Seq<RV>
    decreases rows.len(),
{
    if rows.len() == 0 {
        Seq::empty()
    } else {
        group_of(rows.drop_last(), tag) + Seq::new(
            occurrences(rows.last().1, tag),
            |i: int| rows.last().0,
        )
    }
}

/// Bucket `a` may stand no later than bucket `b`: it is strictly larger,
/// or equally large with the lexicographically larger tag.
pub open spec fn ranked_before<RV>(a: (Seq<char>, Seq<RV>), b: (Seq<char>, Seq<RV>)) -> bool {
    a.1.len() > b.1.len() || (a.1.len() == b.1.len() && lex_lt(b.0, a.0))
}

/// Bucket `a` may stand anywhere no later than bucket `b`: the non-strict
/// companion of `ranked_before`, met also when the tags coincide.
pub open spec fn ranked_ge<RV>(a: (Seq<char>, Seq<RV>), b: (Seq<char>, Seq<RV>)) -> bool {
    a.1.len() > b.1.len() || (a.1.len() == b.1.len() && (a.0 == b.0 || lex_lt(b.0, a.0)))
}

/// The mathematical image of one bucket.
pub open spec fn bucket_view<R: View>(b: (String, Vec<R>)) -> (Seq<char>, Seq<<R as View>::V>) {
    (b.0@, b.1@.map(|j: int, x: R| x@))
}

/// The mathematical image of a bucket list.
pub open spec fn bucket_views<R: View>(out: Seq<(String, Vec<R>)>) -> Seq<
    (Seq<char>, Seq<<R as View>::V>),
> {
    out.map(|i: int, b: (String, Vec<R>)| bucket_view(b))
}

/// The buckets are exactly the groups of `rows`: every listed tag's bucket
/// is its group and is non-empty, every tag that occurs in `rows` is
/// listed, and no tag is listed twice.
pub open spec fn grouped<RV>(
    rows: Seq<(RV, Seq<Seq<char>>)>,
    out: Seq<(Seq<char>, Seq<RV>)>,
) -> bool {
    &&& forall|i: int|
        0 <= i < out.len() ==> (#[trigger] out[i]).1 == group_of(rows, out[i].0) && out[i].1.len()
            > 0
    &&& forall|tag: Seq<char>|
        group_of(rows, tag).len() > 0 ==> exists|i: int|
            0 <= i < out.len() && (#[trigger] out[i]).0 == tag
    &&& forall|i: int, j: int|
        0 <= i < j < out.len() ==> (#[trigger] out[i]).0 != (#[trigger] out[j]).0
}

/// The full contract of the analyzer: the buckets are the groups of
/// `rows`, ordered by descending size with ties broken by descending
/// lexicographic order of the tag.
pub open spec fn top_k_post<RV>(
    rows: Seq<(RV, Seq<Seq<char>>)>,
    out: Seq<(Seq<char>, Seq<RV>)>,
) -> bool {
    &&& grouped(rows, out)
    &&& forall|i: int, j: int|
        0 <= i < j < out.len() ==> ranked_before(#[trigger] out[i], #[trigger] out[j])
}

/// Appending one tag to a list adds one occurrence of that tag and none of
/// any other.
pub proof fn lemma_occurrences_push(tags: Seq<Seq<char>>, t: Seq<char>, tag: Seq<char>)
    ensures
        occurrences(tags.push(t), tag) == occurrences(tags, tag) + (if t == tag {
            1nat
        } else {
            0nat
        }),
{
    assert(tags.push(t).drop_last() =~= tags);
}

/// Appending one row appends that row's contribution to every group.
pub proof fn lemma_group_of_push_row<RV>(
    rows: Seq<(RV, Seq<Seq<char>>)>,
    row: (RV, Seq<Seq<char>>),
    tag: Seq<char>,
)
    ensures
        group_of(rows.push(row), tag) == group_of(rows, tag) + Seq::new(
            occurrences(row.1, tag),
            |i: int| row.0,
        ),
{
    assert(rows.push(row).drop_last() =~= rows);
}

/// Extending the open row's tag list by one tag extends exactly that tag's
/// group by the open row's raw item.
pub proof fn lemma_group_of_extend<RV>(
    rows: Seq<(RV, Seq<Seq<char>>)>,
    rv: RV,
    tags: Seq<Seq<char>>,
    t: Seq<char>,
    tag: Seq<char>,
)
    ensures
        group_of(rows.push((rv, tags.push(t))), tag) == (if t == tag {
            group_of(rows.push((rv, tags)), tag).push(rv)
        } else {
            group_of(rows.push((rv, tags)), tag)
        }),
{
    lemma_group_of_push_row(rows, (rv, tags.push(t)), tag);
    lemma_group_of_push_row(rows, (rv, tags), tag);
    lemma_occurrences_push(tags, t, tag);
    let n = occurrences(tags, tag);
    if t == tag {
        assert(group_of(rows, tag) + Seq::new(n + 1, |i: int| rv) =~= (group_of(rows, tag)
            + Seq::new(n, |i: int| rv)).push(rv));
    }
}

/// Appending a bucket appends its image.
pub proof fn lemma_bucket_views_push<R: View>(out: Seq<(String, Vec<R>)>, b: (String, Vec<R>))
    ensures
        bucket_views(out.push(b)) =~= bucket_views(out).push(bucket_view(b)),
{
}

/// Replacing a bucket replaces its image.
pub proof fn lemma_bucket_views_update<R: View>(
    out: Seq<(String, Vec<R>)>,
    i: int,
    b: (String, Vec<R>),
)
    requires
        0 <= i < out.len(),
    ensures
        bucket_views(out.update(i, b)) =~= bucket_views(out).update(i, bucket_view(b)),
{
}

/// Two buckets always stand in the non-strict rank order one way or the
/// other; when one refuses, the other holds strictly.
pub proof fn lemma_ranked_total<RV>(a: (Seq<char>, Seq<RV>), b: (Seq<char>, Seq<RV>))
    requires
        !ranked_ge(a, b),
    ensures
        ranked_before(b, a),
{
    if a.1.len() == b.1.len() {
        crate::text::lemma_lex_lt_total(a.0, b.0);
    }
}

/// The non-strict rank order chains.
pub proof fn lemma_ranked_ge_transitive<RV>(
    a: (Seq<char>, Seq<RV>),
    b: (Seq<char>, Seq<RV>),
    c: (Seq<char>, Seq<RV>),
)
    requires
        ranked_ge(a, b),
        ranked_ge(b, c),
    ensures
        ranked_ge(a, c),
{
    if a.1.len() == b.1.len() && b.1.len() == c.1.len() {
        if a.0 != b.0 && b.0 != c.0 && a.0 != c.0 {
            crate::text::lemma_lex_lt_transitive(c.0, b.0, a.0);
        }
    }
}

proof fn lemma_top_k_prefix<RV>(
    rows: Seq<(RV, Seq<Seq<char>>)>,
    a: Seq<(Seq<char>, Seq<RV>)>,
    b: Seq<(Seq<char>, Seq<RV>)>,
    n: int,
)
    requires
        top_k_post(rows, a),
        top_k_post(rows, b),
        0 <= n <= a.len(),
        n <= b.len(),
    ensures
        forall|k: int| 0 <= k < n ==> a[k] == b[k],
    decreases n,
{
    if n > 0 {
        lemma_top_k_prefix(rows, a, b, n - 1);
        let i = n - 1;
        if a[i].0 != b[i].0 {
            assert(group_of(rows, a[i].0).len() > 0);
            let j = choose|j: int| 0 <= j < b.len() && (#[trigger] b[j]).0 == a[i].0;
            assert(j > i) by {
                if j < i {
                    assert(a[j] == b[j]);
                }
            }
            assert(ranked_before(b[i], b[j]));
            assert(b[j].1 == group_of(rows, a[i].0));
            assert(b[j].1 == a[i].1);
            assert(group_of(rows, b[i].0).len() > 0);
            let j2 = choose|j2: int| 0 <= j2 < a.len() && (#[trigger] a[j2]).0 == b[i].0;
            assert(j2 > i) by {
                if j2 < i {
                    assert(a[j2] == b[j2]);
                }
            }
            assert(ranked_before(a[i], a[j2]));
            assert(a[j2].1 == group_of(rows, b[i].0));
            assert(a[j2].1 == b[i].1);
            if a[i].1.len() == b[i].1.len() {
                crate::text::lemma_lex_lt_asymmetric(a[i].0, b[i].0);
            }
            assert(false);
        }
        assert(a[i].1 == group_of(rows, a[i].0));
        assert(b[i].1 == group_of(rows, b[i].0));
        assert(a[i] == b[i]);
    }
}

/// Ranking is deterministic: the full contract fixes the bucket list
/// outright, order included, so two runs over the same rows agree.
pub proof fn lemma_top_k_deterministic<RV>(
    rows: Seq<(RV, Seq<Seq<char>>)>,
    a: Seq<(Seq<char>, Seq<RV>)>,
    b: Seq<(Seq<char>, Seq<RV>)>,
)
    requires
        top_k_post(rows, a),
        top_k_post(rows, b),
    ensures
        a == b,
{
    let n = if a.len() <= b.len() {
        a.len() as int
    } else {
        b.len() as int
    };
    lemma_top_k_prefix(rows, a, b, n);
    if a.len() < b.len() {
        assert(group_of(rows, b[n].0).len() > 0);
        let j = choose|j: int| 0 <= j < a.len() && (#[trigger] a[j]).0 == b[n].0;
        assert(a[j] == b[j]);
        assert(b[j].0 == b[n].0);
        assert(false);
    }
    if b.len() < a.len() {
        assert(group_of(rows, a[n].0).len() > 0);
        let j = choose|j: int| 0 <= j < b.len() && (#[trigger] b[j]).0 == a[n].0;
        assert(a[j] == b[j]);
        assert(a[j].0 == a[n].0);
        assert(false);
    }
    assert(a =~= b);
}

/// An analyzer groups enriched pairs by the tags a selector extracts and
/// ranks the groups by size.
pub trait TrendingAnalyzer {
    type Raw: View;

    type Ctx;

    /// The rows the analyzer derives from the collected pairs: each raw
    /// item's image beside the tag list the selector reads from its result.
    spec fn rows(data: Seq<(Self::Raw, Self::Ctx)>, f: TagSelector) -> Seq<
        (<Self::Raw as View>::V, Seq<Seq<char>>),
    >;

    /// The ranked bucket list for `data` under selector `f`.
    fn top_k(&self, data: &Vec<(Self::Raw, Self::Ctx)>, f: TagSelector) -> (out: Vec<
        (String, Vec<Self::Raw>),
    >)
        ensures
            top_k_post(Self::rows(data@, f), bucket_views(out@)),
    ;
}

} // verus!

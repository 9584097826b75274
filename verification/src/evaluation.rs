//! Retrieval evaluation: how often the expected document ranks first, and
//! how often it is found at all.
use vstd::prelude::*;
use crate::search_result::{result_views, SearchResult, SearchResultView};

verus! {

/// A question with the document that should answer it.
#[derive(Debug)]
pub struct EvaluationQuery {
    pub query: String,
    pub expected_document: String,
}

/// The best hit belongs to the expected document.
pub open spec fn top1_hit(results: Seq<SearchResultView>, expected: Seq<char>) -> bool {
    results.len() > 0 && results[0].document_id == expected
}

/// Some hit belongs to the expected document.
pub open spec fn any_hit(results: Seq<SearchResultView>, expected: Seq<char>) -> bool {
    exists|i: int| 0 <= i < results.len() && #[trigger] results[i].document_id == expected
}

/// The expected documents of the queries.
pub open spec fn expected_documents(queries: Seq<EvaluationQuery>) -> Seq<Seq<char>> {
    queries.map_values(|q: EvaluationQuery| q.expected_document@)
}

/// The views of the hits of each query.
pub open spec fn hits_per_query(results: Seq<Vec<SearchResult>>) -> Seq<Seq<SearchResultView>> {
    results.map_values(|r: Vec<SearchResult>| result_views(r@))
}

/// How many queries have their expected document first.
pub open spec fn count_top1(expected: Seq<Seq<char>>, results: Seq<Seq<SearchResultView>>) -> nat
    decreases expected.len(),
{
    if expected.len() == 0 {
        0
    } else {
        count_top1(expected.drop_last(), results.drop_last()) + if top1_hit(
            results.last(),
            expected.last(),
        ) {
            1nat
        } else {
            0nat
        }
    }
}

/// How many queries find their expected document among their hits.
pub open spec fn count_any(expected: Seq<Seq<char>>, results: Seq<Seq<SearchResultView>>) -> nat
    decreases expected.len(),
{
    if expected.len() == 0 {
        0
    } else {
        count_any(expected.drop_last(), results.drop_last()) + if any_hit(
            results.last(),
            expected.last(),
        ) {
            1nat
        } else {
            0nat
        }
    }
}

/// Whether the expected document ranks first, and whether it is found.
pub fn query_outcome(results: &Vec<SearchResult>, expected: &String) -> (r: (bool, bool))
    ensures
        r.0 == top1_hit(result_views(results@), expected@),
        r.1 == any_hit(result_views(results@), expected@),
        r.0 <==> results@.len() > 0 && results@[0].document_id@ == expected@,
        r.1 <==> exists|i: int| 0 <= i < results@.len() && #[trigger] results@[i].document_id@ == expected@,
{
    let ghost rv = result_views(results@);
    let top1 = results.len() > 0 && results[0].document_id == *expected;
    let mut found = false;
    let mut i: usize = 0;
    while i < results.len()
        invariant
            rv == result_views(results@),
            0 <= i <= results@.len(),
            found == exists|j: int| 0 <= j < i && #[trigger] rv[j].document_id == expected@,
        decreases results@.len() - i,
    {
        assert(rv[i as int] == results@[i as int]@);
        if results[i].document_id == *expected {
            found = true;
        }
        proof {
            if !found {
                assert forall|j: int| 0 <= j < i + 1 implies #[trigger] rv[j].document_id != expected@ by {
                    if j < i {
                        if rv[j].document_id == expected@ {
                            assert(exists|j0: int| 0 <= j0 < i && #[trigger] rv[j0].document_id == expected@);
                        }
                    }
                }
            } else {
                if rv[i as int].document_id != expected@ {
                    let j0 = choose|j0: int| 0 <= j0 < i && #[trigger] rv[j0].document_id == expected@;
                    assert(0 <= j0 < i + 1);
                } else {
                    assert(0 <= i < i + 1);
                }
            }
        }
        i = i + 1;
    }
    proof {
        if found {
            let j = choose|j: int| 0 <= j < results@.len() && #[trigger] rv[j].document_id == expected@;
            assert(results@[j].document_id@ == expected@);
        } else {
            assert forall|j: int| 0 <= j < results@.len() implies #[trigger] results@[j].document_id@
                != expected@ by {
                assert(rv[j].document_id == results@[j].document_id@);
            }
        }
    }
    (top1, found)
}

/// A query finds its expected document exactly when some hit, at any rank
/// of the list, belongs to it; whether the document ranks first is decided
/// by the first hit alone.
pub proof fn lemma_found_at_any_rank(results: Seq<SearchResultView>, expected: Seq<char>)
    ensures
        any_hit(results, expected) <==> exists|i: int|
            0 <= i < results.len() && #[trigger] results[i].document_id == expected,
        forall|i: int|
            0 <= i < results.len() && #[trigger] results[i].document_id == expected ==> any_hit(
                results,
                expected,
            ),
        (forall|i: int| 0 <= i < results.len() ==> #[trigger] results[i].document_id != expected) ==> !any_hit(
            results,
            expected,
        ),
        top1_hit(results, expected) <==> (results.len() > 0 && results[0].document_id == expected),
{
}

/// Adding a query whose expected document is among its hits, at any rank,
/// adds one to the found count; adding one whose document is missing from
/// its hits leaves the found count as it was.
pub proof fn lemma_found_count_step(
    expected: Seq<Seq<char>>,
    results: Seq<Seq<SearchResultView>>,
    e: Seq<char>,
    hits: Seq<SearchResultView>,
)
    ensures
        (exists|i: int| 0 <= i < hits.len() && #[trigger] hits[i].document_id == e) ==> count_any(
            expected.push(e),
            results.push(hits),
        ) == count_any(expected, results) + 1,
        (forall|i: int| 0 <= i < hits.len() ==> #[trigger] hits[i].document_id != e) ==> count_any(
            expected.push(e),
            results.push(hits),
        ) == count_any(expected, results),
{
    assert(expected.push(e).drop_last() =~= expected);
    assert(results.push(hits).drop_last() =~= results);
}

/// A query whose expected document ranks first has found it.
pub proof fn lemma_top1_counts_as_found(results: Seq<SearchResultView>, expected: Seq<char>)
    ensures
        top1_hit(results, expected) ==> any_hit(results, expected),
{
    if top1_hit(results, expected) {
        assert(results[0].document_id == expected);
    }
}

/// Over any queries, the first-rank count is at most the found count, which
/// is at most the number of queries.
pub proof fn lemma_counts_ordered(expected: Seq<Seq<char>>, results: Seq<Seq<SearchResultView>>)
    requires
        expected.len() == results.len(),
    ensures
        count_top1(expected, results) <= count_any(expected, results) <= expected.len(),
    decreases expected.len(),
{
    if expected.len() > 0 {
        lemma_counts_ordered(expected.drop_last(), results.drop_last());
        lemma_top1_counts_as_found(results.last(), expected.last());
    }
}

/// The counts add up over concatenated query lists: evaluating two lists of
/// queries one after the other counts the sum of what each list counts.
pub proof fn lemma_counts_add(
    e1: Seq<Seq<char>>,
    r1: Seq<Seq<SearchResultView>>,
    e2: Seq<Seq<char>>,
    r2: Seq<Seq<SearchResultView>>,
)
    requires
        e1.len() == r1.len(),
        e2.len() == r2.len(),
    ensures
        count_top1(e1 + e2, r1 + r2) == count_top1(e1, r1) + count_top1(e2, r2),
        count_any(e1 + e2, r1 + r2) == count_any(e1, r1) + count_any(e2, r2),
    decreases e2.len(),
{
    if e2.len() == 0 {
        assert(e1 + e2 =~= e1);
        assert(r1 + r2 =~= r1);
    } else {
        lemma_counts_add(e1, r1, e2.drop_last(), r2.drop_last());
        assert((e1 + e2).drop_last() =~= e1 + e2.drop_last());
        assert((r1 + r2).drop_last() =~= r1 + r2.drop_last());
        assert((e1 + e2).last() == e2.last());
        assert((r1 + r2).last() == r2.last());
    }
}

/// The counts do not depend on the order in which two lists of queries are
/// evaluated.
pub proof fn lemma_counts_swap(
    e1: Seq<Seq<char>>,
    r1: Seq<Seq<SearchResultView>>,
    e2: Seq<Seq<char>>,
    r2: Seq<Seq<SearchResultView>>,
)
    requires
        e1.len() == r1.len(),
        e2.len() == r2.len(),
    ensures
        count_top1(e1 + e2, r1 + r2) == count_top1(e2 + e1, r2 + r1),
        count_any(e1 + e2, r1 + r2) == count_any(e2 + e1, r2 + r1),
{
    lemma_counts_add(e1, r1, e2, r2);
    lemma_counts_add(e2, r2, e1, r1);
}

/// Counts, over all queries, the first-rank hits and the found documents,
/// given the hits of each query.
pub fn tally(queries: &Vec<EvaluationQuery>, results: &Vec<Vec<SearchResult>>) -> (r: (usize, usize))
    requires
        queries@.len() == results@.len(),
    ensures
        r.0 == count_top1(expected_documents(queries@), hits_per_query(results@)),
        r.1 == count_any(expected_documents(queries@), hits_per_query(results@)),
{
    let ghost ex = expected_documents(queries@);
    let ghost hs = hits_per_query(results@);
    let mut top1: usize = 0;
    let mut found: usize = 0;
    let mut i: usize = 0;
    while i < queries.len()
        invariant
            queries@.len() == results@.len(),
            ex == expected_documents(queries@),
            hs == hits_per_query(results@),
            0 <= i <= queries@.len(),
            top1 == count_top1(ex.take(i as int), hs.take(i as int)),
            found == count_any(ex.take(i as int), hs.take(i as int)),
        decreases queries@.len() - i,
    {
        proof {
            assert(ex.take(i as int + 1).drop_last() =~= ex.take(i as int));
            assert(hs.take(i as int + 1).drop_last() =~= hs.take(i as int));
            lemma_counts_ordered(ex.take(i as int), hs.take(i as int));
        }
        let outcome = query_outcome(&results[i], &queries[i].expected_document);
        assert(hs[i as int] == result_views(results@[i as int]@));
        if outcome.0 {
            top1 = top1 + 1;
        }
        if outcome.1 {
            found = found + 1;
        }
        i = i + 1;
    }
    proof {
        assert(ex.take(i as int) =~= ex);
        assert(hs.take(i as int) =~= hs);
    }
    (top1, found)
}

} // verus!

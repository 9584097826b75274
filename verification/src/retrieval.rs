//! Search options and the steps of a search that follow the scoring of the
//! candidates: ranking, the minimum score and the diagnostics.
use vstd::prelude::*;
use crate::database::{passes, Database};
use crate::diagnostics::RetrievalDiagnostics;
use crate::embedding::EmbeddingProvider;
use crate::error::RecallError;
use crate::filter::MetadataFilter;
use crate::ieee::{f32_bits_ge, f32_ge};
use crate::metadata::{MetadataValue, ValueView};
use crate::ranking::{check_candidate_dimensions, first_mismatch, rank, scored, select_best, top_hits};
use crate::search_result::{result_views, SearchResult, SearchResultView};
use crate::vector::{Vector, VectorView};

verus! {

/// The views of a sequence of filters.
pub open spec fn filter_views(fs: Seq<MetadataFilter>) -> Seq<(Seq<char>, ValueView)> {
    fs.map_values(|f: MetadataFilter| f@)
}

/// How a search is run. `min_score`, when present, is an `f32` held as its
/// bit pattern (`f32::to_bits`).
#[derive(Debug)]
pub struct SearchOptions {
    pub top_k: usize,
    pub document_id: Option<String>,
    pub min_score: Option<u32>,
    pub filters: Vec<MetadataFilter>,
}

impl Default for SearchOptions {
    fn default() -> (r: Self)
        ensures
            r.top_k == 0,
            r.document_id is None,
            r.min_score is None,
            r.filters@.len() == 0,
    {
        SearchOptions { top_k: 0, document_id: None, min_score: None, filters: Vec::new() }
    }
}

impl Clone for SearchOptions {
    fn clone(&self) -> (r: Self)
        ensures
            r.top_k == self.top_k,
            r.document_id is Some == self.document_id is Some,
            r.document_id matches Some(d) ==> d@ == self.document_id->Some_0@,
            r.min_score == self.min_score,
            filter_views(r.filters@) == filter_views(self.filters@),
    {
        let document_id = match &self.document_id {
            Some(d) => Some(d.clone()),
            None => None,
        };
        let mut filters: Vec<MetadataFilter> = Vec::new();
        let mut i: usize = 0;
        while i < self.filters.len()
            invariant
                0 <= i <= self.filters@.len(),
                filters@.len() == i,
                forall|j: int| 0 <= j < i ==> #[trigger] filters@[j]@ == self.filters@[j]@,
            decreases self.filters@.len() - i,
        {
            filters.push(self.filters[i].clone());
            i = i + 1;
        }
        assert(filter_views(filters@) =~= filter_views(self.filters@));
        SearchOptions { top_k: self.top_k, document_id, min_score: self.min_score, filters }
    }
}

impl SearchOptions {
    /// The filters a search applies: the given ones, then, when a document
    /// is named, the filter on its `document_id`.
    pub open spec fn all_filters(&self) -> Seq<(Seq<char>, ValueView)> {
        match self.document_id {
            Some(d) => filter_views(self.filters@).push(("document_id"@, ValueView::Text(d@))),
            None => filter_views(self.filters@),
        }
    }

    /// Computes `all_filters`.
    pub fn effective_filters(&self) -> (r: Vec<MetadataFilter>)
        ensures
            filter_views(r@) == self.all_filters(),
    {
        let mut r: Vec<MetadataFilter> = Vec::new();
        let mut i: usize = 0;
        while i < self.filters.len()
            invariant
                0 <= i <= self.filters@.len(),
                r@.len() == i,
                filter_views(r@) == filter_views(self.filters@).take(i as int),
            decreases self.filters@.len() - i,
        {
            let f = self.filters[i].clone();
            let ghost before = r@;
            r.push(f);
            assert(r@ == before.push(f));
            assert(filter_views(r@) =~= filter_views(self.filters@).take(i as int + 1));
            i = i + 1;
        }
        assert(filter_views(self.filters@).take(i as int) =~= filter_views(self.filters@));
        if let Some(document_id) = &self.document_id {
            let f = MetadataFilter::new("document_id".to_owned(), MetadataValue::String(document_id.clone()));
            r.push(f);
            assert(filter_views(r@) =~= self.all_filters());
        }
        r
    }
}

/// A hit is kept under the minimum score: it scores at least `min_score`
/// (as `f32` `>=`), or there is no minimum.
pub open spec fn meets_min_score(min_score: Option<u32>) -> spec_fn(SearchResultView) -> bool {
    |r: SearchResultView|
        match min_score {
            Some(m) => f32_ge(r.score, m),
            None => true,
        }
}

/// The stored vectors that a search with `options` scores: those whose
/// metadata passes every filter of `options.all_filters()`.
pub fn candidates<'a>(database: &'a Database, options: &SearchOptions) -> (r: Vec<&'a Vector>)
    ensures
        r@.map_values(|v: &Vector| v@) == database@.filter(passes(options.all_filters())),
{
    let filters = options.effective_filters();
    database.matching(&filters)
}

/// Index `i` is the first vector of `f` whose embedding does not have `n`
/// components.
pub open spec fn mismatch_at(f: Seq<VectorView>, n: nat, i: int) -> bool {
    &&& 0 <= i < f.len()
    &&& f[i].values.len() != n
    &&& forall|j: int| 0 <= j < i ==> #[trigger] f[j].values.len() == n
}

/// The first step of a search for the text `query`: embeds the query, once,
/// and only then selects the candidates that `options` admits, checking that
/// each has as many components as the query's embedding. An embedder error
/// is returned as it came, before the store is read; otherwise a candidate of
/// another length gives `DimensionMismatch` for the first such candidate.
pub fn query_candidates<'a, E: EmbeddingProvider>(
    database: &'a Database,
    embedder: &E,
    query: &str,
    options: &SearchOptions,
) -> (r: Result<(Vec<u32>, Vec<&'a Vector>), RecallError>)
    ensures
        r matches Ok((q, found)) ==> {
            &&& embedder.embeds(query, &q)
            &&& found@.map_values(|v: &Vector| v@) == database@.filter(passes(options.all_filters()))
            &&& forall|i: int| 0 <= i < found@.len() ==> #[trigger] found@[i].values@.len() == q@.len()
        },
        r matches Err(e) ==> embedder.fails_on(query, &e) || exists|q: Vec<u32>, i: int|
            #[trigger] embedder.embeds(query, &q) && #[trigger] mismatch_at(
                database@.filter(passes(options.all_filters())),
                q@.len(),
                i,
            ) && e == (RecallError::DimensionMismatch {
                query: q@.len() as usize,
                stored: database@.filter(passes(options.all_filters()))[i].values.len() as usize,
            }),
{
    let q = match embedder.embed(query) {
        Ok(q) => q,
        Err(e) => {
            return Err(e);
        },
    };
    let found = candidates(database, options);
    match check_candidate_dimensions(q.len(), &found) {
        Ok(()) => Ok((q, found)),
        Err(e) => {
            proof {
                let f = database@.filter(passes(options.all_filters()));
                let i = choose|i: int| #[trigger]
                    first_mismatch(found@, q.len(), i) && e == (RecallError::DimensionMismatch {
                        query: q.len(),
                        stored: found@[i].values@.len() as usize,
                    });
                assert(found@.map_values(|v: &Vector| v@)[i] == found@[i]@);
                assert(f[i] == found@[i]@);
                assert forall|j: int| 0 <= j < i implies #[trigger] f[j].values.len() == q@.len() by {
                    assert(found@.map_values(|v: &Vector| v@)[j] == found@[j]@);
                    assert(found@[j].values@.len() == q.len());
                }
                assert(mismatch_at(f, q@.len(), i));
                assert(embedder.embeds(query, &q));
            }
            Err(e)
        },
    }
}

/// The hits of `results` that meet the minimum score, in order.
pub fn apply_min_score(results: Vec<SearchResult>, min_score: Option<u32>) -> (r: Vec<SearchResult>)
    ensures
        result_views(r@) == result_views(results@).filter(meets_min_score(min_score)),
{
    let ghost src = result_views(results@);
    let ghost pred = meets_min_score(min_score);
    let n = results.len();
    let mut kept: Vec<SearchResult> = Vec::new();
    for hit in iter: results.into_iter()
        invariant
            iter.seq() == results@,
            src == result_views(results@),
            src.len() == n,
            pred == meets_min_score(min_score),
            result_views(kept@) == src.take(iter.index() as int).filter(pred),
    {
        let ghost k = iter.index() as int;
        proof {
            reveal(Seq::filter);
            assert(src.take(k + 1).drop_last() =~= src.take(k));
            assert(src[k] == hit@);
        }
        let keep = match min_score {
            Some(m) => f32_bits_ge(hit.score, m),
            None => true,
        };
        if keep {
            kept.push(hit);
            assert(result_views(kept@) =~= src.take(k).filter(pred).push(src[k]));
        }
    }
    assert(src.take(n as int) =~= src);
    kept
}

/// The hits of a search over `candidates` scored by `scores`: the
/// `options.top_k` best, best first (ties in candidate order), of which those
/// that meet the minimum score.
pub open spec fn search_hits(candidates: Seq<&Vector>, scores: Seq<u32>, options: SearchOptions) -> Seq<
    SearchResultView,
> {
    select_best(scored(candidates, scores), options.top_k as nat).filter(meets_min_score(options.min_score))
}

/// Completes a search over `candidates` scored by `scores`: the `top_k` best
/// hits, best first, then those that meet the minimum score, with the
/// counts before and after that last step. Its hits are those of
/// `search_results` on the same arguments: `search_hits`.
pub fn complete_search(candidates: &Vec<&Vector>, scores: &Vec<u32>, options: &SearchOptions) -> (r: (
    Vec<SearchResult>,
    RetrievalDiagnostics,
))
    requires
        candidates@.len() == scores@.len(),
        candidates@.len() >= 2 ==> forall|i: int|
            0 <= i < scores@.len() ==> !crate::ieee::f32_is_nan(#[trigger] scores@[i]),
    ensures
        result_views(r.0@) == search_hits(candidates@, scores@, *options),
        top_hits(
            scored(candidates@, scores@),
            options.top_k,
            select_best(scored(candidates@, scores@), options.top_k as nat),
        ),
        r.1.candidates == select_best(scored(candidates@, scores@), options.top_k as nat).len(),
        r.1.results_before_min_score == r.1.candidates,
        r.1.results_after_min_score == r.0@.len(),
{
    let ranked = rank(candidates, scores, options.top_k);
    let candidates_count = ranked.len();
    let results_before_min_score = ranked.len();
    let results = apply_min_score(ranked, options.min_score);
    let results_after_min_score = results.len();
    let diagnostics = RetrievalDiagnostics {
        candidates: candidates_count,
        results_before_min_score,
        results_after_min_score,
    };
    (results, diagnostics)
}

/// A search over `candidates` scored by `scores`, without diagnostics: the
/// same hits as `complete_search` gives, `search_hits`.
pub fn search_results(candidates: &Vec<&Vector>, scores: &Vec<u32>, options: &SearchOptions) -> (r: Vec<
    SearchResult,
>)
    requires
        candidates@.len() == scores@.len(),
        candidates@.len() >= 2 ==> forall|i: int|
            0 <= i < scores@.len() ==> !crate::ieee::f32_is_nan(#[trigger] scores@[i]),
    ensures
        result_views(r@) == search_hits(candidates@, scores@, *options),
{
    let ranked = rank(candidates, scores, options.top_k);
    apply_min_score(ranked, options.min_score)
}

/// A minimum score only removes hits, and every hit it keeps meets it.
pub proof fn lemma_min_score_narrows(results: Seq<SearchResultView>, min_score: Option<u32>)
    ensures
        results.filter(meets_min_score(min_score)).len() <= results.len(),
        forall|i: int|
            0 <= i < results.filter(meets_min_score(min_score)).len() ==> meets_min_score(min_score)(
                #[trigger] results.filter(meets_min_score(min_score))[i],
            ),
{
    broadcast use vstd::seq_lib::group_filter_ensures;
    results.lemma_filter_len(meets_min_score(min_score));
}

/// Every hit of a search lies in the store and passes the search's filters.
pub proof fn lemma_hits_pass_filters(
    store: Seq<crate::vector::VectorView>,
    filters: Seq<(Seq<char>, ValueView)>,
    candidates: Seq<&Vector>,
    scores: Seq<u32>,
    top_k: usize,
    hits: Seq<SearchResultView>,
)
    requires
        candidates.map_values(|v: &Vector| v@) == store.filter(passes(filters)),
        candidates.len() == scores.len(),
        top_hits(scored(candidates, scores), top_k, hits),
    ensures
        forall|j: int| 0 <= j < hits.len() ==> crate::filter::all_hold(filters, #[trigger] hits[j].metadata),
{
    broadcast use vstd::seq_lib::group_to_multiset_ensures;
    let all = scored(candidates, scores);
    assert forall|j: int| 0 <= j < hits.len() implies crate::filter::all_hold(filters, #[trigger] hits[j].metadata) by {
        let x = hits[j];
        assert(hits.contains(x));
        assert(hits.to_multiset().count(x) > 0);
        assert(all.to_multiset().count(x) > 0);
        assert(all.contains(x));
        let i = choose|i: int| 0 <= i < all.len() && all[i] == x;
        assert(candidates.map_values(|v: &Vector| v@)[i] == candidates[i]@);
        store.lemma_filter_pred(passes(filters), i);
    }
}

} // verus!

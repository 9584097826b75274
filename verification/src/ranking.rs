//! Ranking of scored candidates: the `top_k` best hits, best first.
use vstd::prelude::*;
use crate::ieee::{f32_bits_position, f32_is_nan, f32_position};
use crate::search_result::{result_view, result_views, SearchResult, SearchResultView};
use crate::error::RecallError;
use crate::vector::Vector;

verus! {

broadcast use vstd::seq_lib::group_to_multiset_ensures;

/// The hits that `candidates` give with the scores at the same indices.
pub open spec fn scored(candidates: Seq<&Vector>, scores: Seq<u32>) -> Seq<SearchResultView> {
    Seq::new(candidates.len(), |i: int| result_view(candidates[i]@, scores[i]))
}

/// The hits are ordered from the highest score to the lowest.
pub open spec fn best_first(r: Seq<SearchResultView>) -> bool {
    forall|i: int, j: int| 0 <= i < j < r.len() ==> f32_position(r[i].score) >= f32_position(r[j].score)
}

/// `r` holds the `top_k` best hits of `all`, best first: each hit of `r`
/// comes from `all` (as often as it occurs there at most), and every hit of
/// `all` left out scores no higher than any hit of `r`.
pub open spec fn top_hits(all: Seq<SearchResultView>, top_k: usize, r: Seq<SearchResultView>) -> bool {
    &&& r.len() == if top_k < all.len() { top_k as int } else { all.len() as int }
    &&& best_first(r)
    &&& forall|x: SearchResultView| #[trigger]
        r.to_multiset().count(x) <= all.to_multiset().count(x)
    &&& forall|x: SearchResultView, j: int|
        #![trigger all.to_multiset().count(x), r[j]]
        r.to_multiset().count(x) < all.to_multiset().count(x) && 0 <= j < r.len() ==> f32_position(
            x.score,
        ) <= f32_position(r[j].score)
}

/// Index `i` is the first candidate whose embedding does not have
/// `query_len` components.
pub open spec fn first_mismatch(candidates: Seq<&Vector>, query_len: usize, i: int) -> bool {
    &&& 0 <= i < candidates.len()
    &&& candidates[i].values@.len() != query_len
    &&& forall|j: int| 0 <= j < i ==> #[trigger] candidates[j].values@.len() == query_len
}

/// Checks that every candidate's embedding has `query_len` components, as
/// scoring against the query needs. The first candidate that differs is
/// reported with its length.
pub fn check_candidate_dimensions(query_len: usize, candidates: &Vec<&Vector>) -> (r: Result<(), RecallError>)
    ensures
        r is Ok <==> forall|i: int| 0 <= i < candidates@.len() ==> #[trigger] candidates@[i].values@.len()
            == query_len,
        r matches Err(e) ==> exists|i: int| #[trigger]
            first_mismatch(candidates@, query_len, i) && e == (RecallError::DimensionMismatch {
                query: query_len,
                stored: candidates@[i].values@.len() as usize,
            }),
{
    let mut i: usize = 0;
    while i < candidates.len()
        invariant
            i <= candidates@.len(),
            forall|j: int| 0 <= j < i ==> #[trigger] candidates@[j].values@.len() == query_len,
        decreases candidates@.len() - i,
    {
        let stored = candidates[i].values.len();
        if stored != query_len {
            assert(first_mismatch(candidates@, query_len, i as int));
            return Err(RecallError::DimensionMismatch { query: query_len, stored });
        }
        i = i + 1;
    }
    Ok(())
}

/// Index `b` holds the first of the highest-scoring hits of `s`.
pub open spec fn first_best(s: Seq<SearchResultView>, b: int) -> bool {
    &&& 0 <= b < s.len()
    &&& forall|a: int| 0 <= a < s.len() ==> f32_position(#[trigger] s[a].score) <= f32_position(s[b].score)
    &&& forall|a: int| 0 <= a < b ==> f32_position(#[trigger] s[a].score) < f32_position(s[b].score)
}

/// The `k` best hits of `s`, best first, taking each time the first of the
/// highest-scoring hits left: hits of equal score keep their order in `s`,
/// as a stable sort from the highest score down would leave them.
pub open spec fn select_best(s: Seq<SearchResultView>, k: nat) -> Seq<SearchResultView>
    decreases k,
{
    if k == 0 || s.len() == 0 {
        Seq::empty()
    } else {
        let b = choose|b: int| first_best(s, b);
        seq![s[b]] + select_best(s.remove(b), (k - 1) as nat)
    }
}

/// At most one index holds the first of the highest-scoring hits.
proof fn lemma_first_best_unique(s: Seq<SearchResultView>, b1: int, b2: int)
    requires
        first_best(s, b1),
        first_best(s, b2),
    ensures
        b1 == b2,
{
    if b1 < b2 {
        assert(f32_position(s[b1].score) < f32_position(s[b2].score));
    } else if b2 < b1 {
        assert(f32_position(s[b2].score) < f32_position(s[b1].score));
    }
}

/// The `top_k` best hits among `candidates`, whose scores are `scores`,
/// best first; hits of equal score keep the order of `candidates`.
pub fn rank(candidates: &Vec<&Vector>, scores: &Vec<u32>, top_k: usize) -> (r: Vec<SearchResult>)
    requires
        candidates@.len() == scores@.len(),
        candidates@.len() >= 2 ==> forall|i: int| 0 <= i < scores@.len() ==> !f32_is_nan(#[trigger] scores@[i]),
    ensures
        result_views(r@) == select_best(scored(candidates@, scores@), top_k as nat),
        top_hits(scored(candidates@, scores@), top_k, result_views(r@)),
{
    let ghost all = scored(candidates@, scores@);
    let n = candidates.len();
    let mut pool: Vec<SearchResult> = Vec::new();
    let mut i: usize = 0;
    while i < n
        invariant
            n == candidates@.len(),
            n == scores@.len(),
            all == scored(candidates@, scores@),
            0 <= i <= n,
            pool@.len() == i,
            all.len() == n,
            result_views(pool@) == all.take(i as int),
        decreases n - i,
    {
        let hit = SearchResult::from_vector(candidates[i], scores[i]);
        assert(hit@ == all[i as int]);
        let ghost before = pool@;
        pool.push(hit);
        assert(pool@ == before.push(hit));
        assert forall|j: int| 0 <= j < i implies #[trigger] result_views(pool@)[j] == all.take(i as int + 1)[j] by {
            assert(result_views(before)[j] == all.take(i as int)[j]);
            assert(pool@[j] == before[j]);
        }
        assert(result_views(pool@) =~= all.take(i as int + 1));
        i = i + 1;
    }
    assert(all.take(n as int) =~= all);
    let limit = if top_k < n {
        top_k
    } else {
        n
    };
    let mut out: Vec<SearchResult> = Vec::new();
    while out.len() < limit
        invariant
            limit == if top_k < all.len() { top_k as int } else { all.len() as int },
            limit <= all.len(),
            out@.len() + pool@.len() == all.len(),
            out@.len() <= limit,
            forall|x: SearchResultView| #[trigger]
                result_views(out@).to_multiset().count(x) + result_views(pool@).to_multiset().count(x)
                    == all.to_multiset().count(x),
            best_first(result_views(out@)),
            out@.len() <= top_k,
            result_views(out@) + select_best(result_views(pool@), (top_k - out@.len()) as nat)
                == select_best(all, top_k as nat),
            forall|a: int, b: int|
                0 <= a < pool@.len() && 0 <= b < out@.len() ==> f32_position(
                    #[trigger] pool@[a].score,
                ) <= f32_position(#[trigger] out@[b].score),
        decreases limit - out@.len(),
    {
        let mut best: usize = 0;
        let mut best_pos = f32_bits_position(pool[0].score);
        let mut j: usize = 1;
        while j < pool.len()
            invariant
                0 <= best < j <= pool@.len(),
                best_pos == f32_position(pool@[best as int].score),
                forall|a: int| 0 <= a < j ==> f32_position(#[trigger] pool@[a].score) <= best_pos,
                forall|a: int| 0 <= a < best ==> f32_position(#[trigger] pool@[a].score) < best_pos,
            decreases pool@.len() - j,
        {
            let p = f32_bits_position(pool[j].score);
            if p > best_pos {
                best = j;
                best_pos = p;
            }
            j = j + 1;
        }
        let ghost old_out = result_views(out@);
        let ghost old_pool = result_views(pool@);
        proof {
            let m = (top_k - out@.len()) as nat;
            assert(first_best(old_pool, best as int)) by {
                assert forall|a: int| 0 <= a < old_pool.len() implies f32_position(#[trigger] old_pool[a].score)
                    <= f32_position(old_pool[best as int].score) by {
                    assert(old_pool[a].score == pool@[a].score);
                }
                assert forall|a: int| 0 <= a < best implies f32_position(#[trigger] old_pool[a].score)
                    < f32_position(old_pool[best as int].score) by {
                    assert(old_pool[a].score == pool@[a].score);
                }
            }
            let b = choose|b: int| first_best(old_pool, b);
            lemma_first_best_unique(old_pool, b, best as int);
            assert(select_best(old_pool, m) == seq![old_pool[best as int]] + select_best(
                old_pool.remove(best as int),
                (m - 1) as nat,
            ));
        }
        let ghost old_pool_exec = pool@;
        let ghost old_out_exec = out@;
        let hit = pool.remove(best);
        let ghost v = hit@;
        assert(v == old_pool[best as int]);
        assert(result_views(pool@) =~= old_pool.remove(best as int));
        out.push(hit);
        assert(result_views(out@) =~= old_out.push(v));
        proof {
            let m = (top_k - old_out.len()) as nat;
            let rest = select_best(old_pool.remove(best as int), (m - 1) as nat);
            assert(old_out.push(v) + rest =~= old_out + (seq![v] + rest));
            assert((top_k - out@.len()) as nat == (m - 1) as nat);
            assert forall|x: SearchResultView| #[trigger]
                result_views(out@).to_multiset().count(x) + result_views(pool@).to_multiset().count(x)
                    == all.to_multiset().count(x) by {
                assert(old_out.push(v).to_multiset() =~= old_out.to_multiset().insert(v));
                assert(old_pool.remove(best as int).to_multiset() =~= old_pool.to_multiset().remove(
                    v,
                ));
                assert(old_pool.to_multiset().count(v) > 0) by {
                    assert(old_pool.contains(v));
                }
            }
            assert forall|a: int, b: int|
                0 <= a < pool@.len() && 0 <= b < out@.len() implies f32_position(
                #[trigger] pool@[a].score,
            ) <= f32_position(#[trigger] out@[b].score) by {
                let a0 = if a < best { a } else { a + 1 };
                assert(pool@[a] == old_pool_exec[a0]);
                if b < old_out_exec.len() {
                    assert(out@[b] == old_out_exec[b]);
                } else {
                    assert(out@[b]@ == v);
                }
            }
            assert forall|a: int, b: int|
                0 <= a < b < result_views(out@).len() implies f32_position(
                result_views(out@)[a].score,
            ) >= f32_position(result_views(out@)[b].score) by {
                if b == old_out.len() {
                    assert(result_views(out@)[a] == old_out[a]);
                    assert(out@[a] == old_out_exec[a]);
                    assert(old_pool_exec[best as int].score == v.score);
                } else {
                    assert(result_views(out@)[a] == old_out[a]);
                    assert(result_views(out@)[b] == old_out[b]);
                }
            }
        }
    }
    proof {
        let rv = result_views(out@);
        let pv = result_views(pool@);
        assert(select_best(pv, (top_k - out@.len()) as nat) =~= Seq::<SearchResultView>::empty());
        assert(rv + Seq::<SearchResultView>::empty() =~= rv);
        assert forall|x: SearchResultView, j: int|
            #![trigger all.to_multiset().count(x), rv[j]]
            rv.to_multiset().count(x) < all.to_multiset().count(x) && 0 <= j < rv.len() implies f32_position(
            x.score,
        ) <= f32_position(rv[j].score) by {
            assert(pv.to_multiset().count(x) > 0);
            assert(pv.contains(x));
            let a = choose|a: int| 0 <= a < pv.len() && pv[a] == x;
            assert(pool@[a].score == x.score);
            assert(out@[j].score == rv[j].score);
        }
    }
    out
}

} // verus!

//! The decisions of a search request around the two retrievers: request
//! parameters, the query and candidate count handed to the retrievers, the
//! page of fused results, and the results returned for it.
use vstd::prelude::*;
use crate::model::{is_result_of, Movie, MovieResult};
use crate::query::{sanitize_query, sanitize_spec};

verus! {

/// Results per page when the request names no limit.
pub const DEFAULT_LIMIT: usize = 20;

/// The largest page a search request may ask for.
pub const MAX_LIMIT: usize = 100;

/// Suggestions when the request names no limit.
pub const DEFAULT_SUGGEST_LIMIT: usize = 8;

/// The most suggestions a request may ask for.
pub const MAX_SUGGEST_LIMIT: usize = 20;

/// The requested count, or `default` when none is given, brought into
/// `1..=max`.
pub open spec fn clamp_spec(requested: Option<usize>, default: usize, max: usize) -> usize {
    let n = match requested {
        Some(n) => n,
        None => default,
    };
    if n < 1 {
        1
    } else if n > max {
        max
    } else {
        n
    }
}

/// The requested count, or `default` when none is given, brought into
/// `1..=max`.
pub fn clamp_limit(requested: Option<usize>, default: usize, max: usize) -> (n: usize)
    requires
        1 <= max,
    ensures
        n == clamp_spec(requested, default, max),
        1 <= n <= max,
        requested matches Some(r) ==> (1 <= r <= max ==> n == r),
        requested matches Some(r) ==> (r > max ==> n == max),
        requested == Some(0usize) ==> n == 1,
        requested is None && 1 <= default <= max ==> n == default,
{
    let n = match requested {
        Some(n) => n,
        None => default,
    };
    if n < 1 {
        1
    } else if n > max {
        max
    } else {
        n
    }
}

/// The page size and offset of a search request: the limit defaults to
/// `DEFAULT_LIMIT` and is kept within `1..=MAX_LIMIT`; the offset defaults
/// to 0.
pub fn search_window(limit: Option<usize>, offset: Option<usize>) -> (r: (usize, usize))
    ensures
        r.0 == clamp_spec(limit, DEFAULT_LIMIT, MAX_LIMIT),
        limit matches Some(l) ==> (1 <= l <= MAX_LIMIT ==> r.0 == l),
        limit is None ==> r.0 == DEFAULT_LIMIT,
        r.1 == match offset {
            Some(o) => o,
            None => 0,
        },
{
    let l = clamp_limit(limit, DEFAULT_LIMIT, MAX_LIMIT);
    let o = match offset {
        Some(o) => o,
        None => 0,
    };
    (l, o)
}

/// The number of suggestions of an autocomplete request: 8 by default, kept
/// within `1..=20`.
pub fn suggest_limit(limit: Option<usize>) -> (n: usize)
    ensures
        n == clamp_spec(limit, DEFAULT_SUGGEST_LIMIT, MAX_SUGGEST_LIMIT),
        limit matches Some(l) ==> (1 <= l <= MAX_SUGGEST_LIMIT ==> n == l),
        limit is None ==> n == DEFAULT_SUGGEST_LIMIT,
{
    clamp_limit(limit, DEFAULT_SUGGEST_LIMIT, MAX_SUGGEST_LIMIT)
}

/// What a hybrid search hands to its retrievers.
pub enum SearchPlan {
    /// Nothing is left to search for: the answer is an empty page and a
    /// total of 0.
    Nothing,
    /// Ask each retriever for `candidates` results for `query`.
    Retrieve { query: String, candidates: usize },
}

/// The plan of a hybrid search for `query`, a page of `limit` results at
/// `offset`: four times as many candidates as the page reaches are fetched
/// from each retriever, for the sanitised query; an empty sanitised query
/// searches nothing.
pub fn plan_search(query: &str, limit: usize, offset: usize) -> (plan: SearchPlan)
    requires
        (limit + offset) * 4 <= usize::MAX,
    ensures
        match plan {
            SearchPlan::Nothing => sanitize_spec(query@).len() == 0,
            SearchPlan::Retrieve { query: q, candidates } => {
                &&& sanitize_spec(query@).len() > 0
                &&& q@ == sanitize_spec(query@)
                &&& candidates == (limit + offset) * 4
            },
        },
{
    let candidates = (limit + offset) * 4;
    let safe = sanitize_query(query);
    if safe.as_str().is_empty() {
        SearchPlan::Nothing
    } else {
        SearchPlan::Retrieve { query: safe, candidates }
    }
}

/// The page of `s` that starts at `offset` and holds at most `limit` items.
pub open spec fn page_spec<T>(s: Seq<T>, offset: int, limit: int) -> Seq<T> {
    let from = if offset < s.len() {
        offset
    } else {
        s.len() as int
    };
    let to = if offset + limit < s.len() {
        offset + limit
    } else {
        s.len() as int
    };
    s.subrange(from, to)
}

/// The ids of a page of the fused ranking, and the total number of fused
/// results.
pub fn page_of(fused: &Vec<(usize, u64)>, limit: usize, offset: usize) -> (r: (Vec<usize>, usize))
    ensures
        r.0@ == page_spec(fused@, offset as int, limit as int).map_values(|e: (usize, u64)| e.0),
        r.1 == fused.len(),
{
    let n = fused.len();
    let from = if offset < n {
        offset
    } else {
        n
    };
    let to = if limit < n - from {
        from + limit
    } else {
        n
    };
    let mut page: Vec<usize> = Vec::new();
    let mut k: usize = from;
    while k < to
        invariant
            from <= k <= to <= n == fused.len(),
            page@ == fused@.subrange(from as int, k as int).map_values(|e: (usize, u64)| e.0),
        decreases to - k,
    {
        page.push(fused[k].0);
        assert(fused@.subrange(from as int, k + 1) == fused@.subrange(from as int, k as int).push(
            fused@[k as int],
        ));
        k += 1;
    }
    (page, n)
}

/// Consecutive pages make up the page that spans them both.
pub proof fn lemma_pages_concatenate<T>(s: Seq<T>, offset: nat, a: nat, b: nat)
    ensures
        page_spec(s, offset as int, a as int) + page_spec(s, (offset + a) as int, b as int)
            == page_spec(s, offset as int, (a + b) as int),
{
    let n = s.len() as int;
    let f = if offset < n { offset as int } else { n };
    let m = if offset + a < n { (offset + a) as int } else { n };
    let t = if offset + a + b < n { (offset + a + b) as int } else { n };
    assert(s.subrange(f, m) + s.subrange(m, t) == s.subrange(f, t));
}

/// A page holds `limit` items, or fewer only at the end of the ranking.
pub proof fn lemma_page_len<T>(s: Seq<T>, offset: nat, limit: nat)
    ensures
        page_spec(s, offset as int, limit as int).len() == if offset + limit <= s.len() {
            limit as int
        } else if offset <= s.len() {
            s.len() - offset
        } else {
            0
        },
{
}

/// The movies with the given ids, in order, as search results; ids that name
/// no movie are skipped.
pub open spec fn results_spec(movies: Seq<Movie>, ids: Seq<usize>) -> Seq<Movie>
    decreases ids.len(),
{
    if ids.len() == 0 {
        Seq::empty()
    } else {
        let rest = results_spec(movies, ids.drop_last());
        if (ids.last() as int) < movies.len() {
            rest.push(movies[ids.last() as int])
        } else {
            rest
        }
    }
}

/// The search results for a page of ids: the movie at each id's position,
/// skipping ids past the end of the catalogue.
pub fn results_for(movies: &Vec<Movie>, ids: &Vec<usize>) -> (r: Vec<MovieResult>)
    ensures
        r.len() == results_spec(movies@, ids@).len(),
        forall|k: int| 0 <= k < r.len() ==> is_result_of(#[trigger] r@[k], results_spec(movies@, ids@)[k]),
{
    let mut r: Vec<MovieResult> = Vec::new();
    let mut k: usize = 0;
    while k < ids.len()
        invariant
            k <= ids.len(),
            r.len() == results_spec(movies@, ids@.take(k as int)).len(),
            forall|j: int|
                0 <= j < r.len() ==> is_result_of(#[trigger] r@[j], results_spec(movies@, ids@.take(k as int))[j]),
        decreases ids.len() - k,
    {
        let id = ids[k];
        assert(ids@.take(k + 1).drop_last() == ids@.take(k as int));
        if id < movies.len() {
            r.push(MovieResult::from_movie(&movies[id]));
        }
        k += 1;
    }
    assert(ids@.take(ids.len() as int) == ids@);
    r
}

/// The results and total of a search request, given what the retrievers
/// found: `None` when the trimmed query is blank or a retriever failed,
/// which gives no results and a total of 0; otherwise the page of ids and
/// the number of fused hits, which give the movies at those ids and that
/// total.
pub fn search_outcome(movies: &Vec<Movie>, hits: Option<(Vec<usize>, usize)>) -> (r: (Vec<MovieResult>, usize))
    ensures
        match hits {
            None => r.0.len() == 0 && r.1 == 0,
            Some((ids, total)) => {
                &&& r.1 == total
                &&& r.0.len() == results_spec(movies@, ids@).len()
                &&& forall|k: int| 0 <= k < r.0.len() ==> is_result_of(#[trigger] r.0@[k], results_spec(movies@, ids@)[k])
            },
        },
{
    match hits {
        None => (Vec::new(), 0),
        Some((ids, total)) => (results_for(movies, &ids), total),
    }
}

/// Clamping a requested count: the result lies in `1..=max`; a count already
/// in range is kept as it is, whatever the default; a count above `max`
/// becomes `max` and 0 becomes 1; with no count, the default is clamped in
/// the same way.
pub proof fn lemma_clamp_laws(requested: Option<usize>, d1: usize, d2: usize, max: usize)
    requires
        1 <= max,
    ensures
        1 <= clamp_spec(requested, d1, max) <= max,
        requested matches Some(n) ==> (1 <= n <= max ==> clamp_spec(requested, d1, max) == n),
        requested matches Some(n) ==> (n > max ==> clamp_spec(requested, d1, max) == max),
        requested == Some(0usize) ==> clamp_spec(requested, d1, max) == 1,
        requested is Some ==> clamp_spec(requested, d1, max) == clamp_spec(requested, d2, max),
        clamp_spec(None, d1, max) == clamp_spec(Some(d1), d2, max),
{
}

} // verus!

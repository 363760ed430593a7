//! Autocomplete: movie titles that start with the typed prefix, best rated
//! first, then plot keywords that contain it, each keyword once.
use vstd::prelude::*;
use vstd::hash_set::StringHashSet;
use crate::model::{views, Movie};
use crate::order::{is_rank_order, lemma_rank_order_unique, rank_order};
use crate::query::lemma_trim_empty;
use crate::text::{
    chars_of, contains_infix, has_infix, lowercase, starts_with, to_lowercase, trim, trim_str,
    white_space,
};

verus! {

/// Where a suggestion comes from.
#[derive(Clone, Copy, Debug, PartialEq, Eq, Structural)]
pub enum SuggestionKind {
    Title,
    Keyword,
}

/// One autocomplete suggestion.
pub struct Suggestion {
    pub kind: SuggestionKind,
    pub text: String,
}

/// A suggestion as its kind and text.
pub open spec fn suggestion_view(s: Suggestion) -> (SuggestionKind, Seq<char>) {
    (s.kind, s.text@)
}

/// The views of a list of suggestions.
pub open spec fn suggestion_views(v: Seq<Suggestion>) -> Seq<(SuggestionKind, Seq<char>)> {
    v.map_values(|s: Suggestion| suggestion_view(s))
}

/// The sign bit of an `f64` bit pattern.
pub open spec fn sign_bit() -> u64 {
    0x8000_0000_0000_0000u64
}

/// An integer that orders as the score does: for the bit pattern of an
/// `f64`, positive values map above the sign bit in increasing order and
/// negative values below it in decreasing magnitude, as `f64::total_cmp`
/// orders them, with `-0.0` placed with `+0.0`. A missing score counts as
/// `0.0` (bit pattern 0).
pub open spec fn score_order_key(bits: Option<u64>) -> u64 {
    let b = match bits {
        Some(b) => b,
        None => 0,
    };
    if b == sign_bit() {
        sign_bit()
    } else if b > sign_bit() {
        (u64::MAX - b) as u64
    } else {
        (b + sign_bit()) as u64
    }
}

/// The sign bit of an `f64` bit pattern is set.
pub open spec fn f64_negative(b: u64) -> bool {
    (b >> 63u64) == 1u64
}

/// The biased exponent field of an `f64` bit pattern.
pub open spec fn f64_exponent(b: u64) -> u64 {
    (b >> 52u64) & 0x7ffu64
}

/// The fraction field of an `f64` bit pattern.
pub open spec fn f64_fraction(b: u64) -> u64 {
    b & 0xf_ffff_ffff_ffffu64
}

/// The bit pattern is a NaN: all exponent bits set and a non-zero fraction.
pub open spec fn f64_is_nan(b: u64) -> bool {
    f64_exponent(b) == 0x7ffu64 && f64_fraction(b) != 0u64
}

/// The bit pattern is `+0.0` or `-0.0`.
pub open spec fn f64_is_zero(b: u64) -> bool {
    f64_exponent(b) == 0u64 && f64_fraction(b) == 0u64
}

/// The magnitude of `a` is below that of `b`: a smaller exponent, or the same
/// exponent and a smaller fraction.
pub open spec fn f64_magnitude_below(a: u64, b: u64) -> bool {
    f64_exponent(a) < f64_exponent(b) || (f64_exponent(a) == f64_exponent(b) && f64_fraction(a)
        < f64_fraction(b))
}

/// The IEEE 754 order of two non-NaN `f64` values, read from their sign,
/// exponent and fraction: the two zeros are equal, a negative value lies
/// below a non-negative one, and values of one sign order by magnitude
/// (reversed for negative values).
pub open spec fn f64_below(a: u64, b: u64) -> bool {
    if f64_is_zero(a) && f64_is_zero(b) {
        false
    } else if f64_negative(a) != f64_negative(b) {
        f64_negative(a)
    } else if f64_negative(a) {
        f64_magnitude_below(b, a)
    } else {
        f64_magnitude_below(a, b)
    }
}

proof fn lemma_f64_key_bits(a: u64, b: u64, ka: u64, kb: u64)
    by (bit_vector)
    requires
        !f64_is_nan(a),
        !f64_is_nan(b),
        ka == (if a == 0x8000_0000_0000_0000u64 {
            0x8000_0000_0000_0000u64
        } else if a > 0x8000_0000_0000_0000u64 {
            (0xffff_ffff_ffff_ffffu64 - a) as u64
        } else {
            (a + 0x8000_0000_0000_0000u64) as u64
        }),
        kb == (if b == 0x8000_0000_0000_0000u64 {
            0x8000_0000_0000_0000u64
        } else if b > 0x8000_0000_0000_0000u64 {
            (0xffff_ffff_ffff_ffffu64 - b) as u64
        } else {
            (b + 0x8000_0000_0000_0000u64) as u64
        }),
    ensures
        f64_below(a, b) <==> ka < kb,
        f64_is_zero(a) && f64_is_zero(b) ==> ka == kb,
{
}

/// Score keys order exactly as the scores: for non-NaN scores, one key is
/// below another exactly when its score is below the other's, the two
/// zeros get the same key, and a missing score counts as `0.0`.
pub proof fn lemma_score_key_orders(a: u64, b: u64)
    requires
        !f64_is_nan(a),
        !f64_is_nan(b),
    ensures
        f64_below(a, b) <==> score_order_key(Some(a)) < score_order_key(Some(b)),
        f64_is_zero(a) && f64_is_zero(b) ==> score_order_key(Some(a)) == score_order_key(Some(b)),
        score_order_key(None) == score_order_key(Some(0)),
{
    lemma_f64_key_bits(a, b, score_order_key(Some(a)), score_order_key(Some(b)));
}

/// The ordering key of an optional score bit pattern.
pub fn score_key(bits: Option<u64>) -> (k: u64)
    ensures
        k == score_order_key(bits),
{
    let b = match bits {
        Some(b) => b,
        None => 0,
    };
    if b == 0x8000_0000_0000_0000u64 {
        0x8000_0000_0000_0000u64
    } else if b > 0x8000_0000_0000_0000u64 {
        u64::MAX - b
    } else {
        b + 0x8000_0000_0000_0000u64
    }
}

/// The normalised prefix of a request: trimmed and lowercased.
pub open spec fn prefix_spec(query: Seq<char>) -> Seq<char> {
    lowercase(trim(query))
}

/// The movies whose trimmed, lowercased title starts with `q`, in catalogue
/// order, as their trimmed title and score key.
pub open spec fn title_hits(movies: Seq<Movie>, q: Seq<char>) -> Seq<(Seq<char>, u64)>
    decreases movies.len(),
{
    if movies.len() == 0 {
        Seq::empty()
    } else {
        let rest = title_hits(movies.drop_last(), q);
        let m = movies.last();
        let t = trim(m.title@);
        if q.is_prefix_of(lowercase(t)) {
            rest.push((t, score_order_key(m.imdb_score_bits)))
        } else {
            rest
        }
    }
}

/// The score keys of title hits.
pub open spec fn hit_keys(hits: Seq<(Seq<char>, u64)>) -> Seq<u64> {
    hits.map_values(|h: (Seq<char>, u64)| h.1)
}

/// The plot keywords of all movies, movie after movie.
pub open spec fn all_keywords(movies: Seq<Movie>) -> Seq<Seq<char>>
    decreases movies.len(),
{
    if movies.len() == 0 {
        Seq::empty()
    } else {
        all_keywords(movies.drop_last()) + views(movies.last().plot_keywords@)
    }
}

/// The lowercased forms of some keywords.
pub open spec fn lowercased(kws: Seq<Seq<char>>) -> Seq<Seq<char>> {
    kws.map_values(|k: Seq<char>| lowercase(k))
}

/// The keywords whose lowercased form contains `q`, in order, each lowercased
/// form taken at its first occurrence only.
pub open spec fn keyword_hits(kws: Seq<Seq<char>>, q: Seq<char>) -> Seq<Seq<char>>
    decreases kws.len(),
{
    if kws.len() == 0 {
        Seq::empty()
    } else {
        let rest = keyword_hits(kws.drop_last(), q);
        let l = lowercase(kws.last());
        if has_infix(l, q) && !lowercased(rest).contains(l) {
            rest.push(kws.last())
        } else {
            rest
        }
    }
}

/// Keywords as suggestions.
pub open spec fn keyword_suggestions(kws: Seq<Seq<char>>) -> Seq<(SuggestionKind, Seq<char>)> {
    kws.map_values(|k: Seq<char>| (SuggestionKind::Keyword, k))
}

/// The first `n` elements of `s`, or all of them when there are fewer.
pub open spec fn at_most<T>(s: Seq<T>, n: int) -> Seq<T> {
    if n < s.len() {
        s.take(n)
    } else {
        s
    }
}

/// The suggestions for a non-empty prefix `q`, given the order of the title
/// hits: at most `limit` titles in that order, then the keyword hits, the
/// whole cut to `limit`.
pub open spec fn suggestions_spec(movies: Seq<Movie>, q: Seq<char>, limit: nat, order: Seq<usize>) -> Seq<
    (SuggestionKind, Seq<char>),
> {
    let hits = title_hits(movies, q);
    let titles = order.map_values(|i: usize| (SuggestionKind::Title, hits[i as int].0));
    at_most(at_most(titles, limit as int) + keyword_suggestions(keyword_hits(all_keywords(movies), q)), limit as int)
}

/// The title hits of the catalogue for the prefix `q`.
fn title_candidates(movies: &Vec<Movie>, q: &Vec<char>) -> (r: (Vec<String>, Vec<u64>))
    ensures
        r.0.len() == r.1.len() == title_hits(movies@, q@).len(),
        forall|k: int| 0 <= k < r.0.len() ==> #[trigger] r.0@[k]@ == title_hits(movies@, q@)[k].0,
        r.1@ == hit_keys(title_hits(movies@, q@)),
{
    let mut titles: Vec<String> = Vec::new();
    let mut keys: Vec<u64> = Vec::new();
    let mut i: usize = 0;
    while i < movies.len()
        invariant
            i <= movies.len(),
            titles.len() == keys.len() == title_hits(movies@.take(i as int), q@).len(),
            forall|k: int|
                0 <= k < titles.len() ==> #[trigger] titles@[k]@ == title_hits(movies@.take(i as int), q@)[k].0,
            keys@ == hit_keys(title_hits(movies@.take(i as int), q@)),
        decreases movies.len() - i,
    {
        let m = &movies[i];
        let t = trim_str(m.title.as_str());
        let lower = to_lowercase(t.as_str());
        let lower_chars = chars_of(lower.as_str());
        assert(movies@.take(i + 1).drop_last() == movies@.take(i as int));
        assert(movies@.take(i + 1).last() == movies@[i as int]);
        let ghost prev = title_hits(movies@.take(i as int), q@);
        if starts_with(&lower_chars, q) {
            let key = score_key(m.imdb_score_bits);
            titles.push(t);
            keys.push(key);
            assert(hit_keys(prev.push((t@, key))) == hit_keys(prev).push(key));
        }
        i += 1;
    }
    assert(movies@.take(movies.len() as int) == movies@);
    (titles, keys)
}

/// The keywords of the first `i` movies are a prefix of all keywords.
proof fn lemma_all_keywords_prefix(movies: Seq<Movie>, i: int)
    requires
        0 <= i <= movies.len(),
    ensures
        all_keywords(movies.take(i)).is_prefix_of(all_keywords(movies)),
    decreases movies.len(),
{
    if i == movies.len() {
        assert(movies.take(i) == movies);
    } else {
        let p = movies.drop_last();
        lemma_all_keywords_prefix(p, i);
        assert(p.take(i) == movies.take(i));
        let a = all_keywords(movies.take(i));
        let b = all_keywords(p);
        let c = all_keywords(movies);
        assert(c == b + views(movies.last().plot_keywords@));
        assert forall|k: int| 0 <= k < a.len() implies a[k] == c[k] by {
            assert(a[k] == b[k]);
        }
        assert(a == c.subrange(0, a.len() as int));
    }
}

/// Keyword hits of a longer keyword list extend those of a shorter one.
proof fn lemma_keyword_hits_prefix(kws: Seq<Seq<char>>, n: int, q: Seq<char>)
    requires
        0 <= n <= kws.len(),
    ensures
        keyword_hits(kws.take(n), q).is_prefix_of(keyword_hits(kws, q)),
    decreases kws.len(),
{
    if n == kws.len() {
        assert(kws.take(n) == kws);
    } else {
        let p = kws.drop_last();
        lemma_keyword_hits_prefix(p, n, q);
        assert(p.take(n) == kws.take(n));
        let a = keyword_hits(kws.take(n), q);
        let b = keyword_hits(p, q);
        let c = keyword_hits(kws, q);
        assert forall|k: int| 0 <= k < a.len() implies a[k] == c[k] by {
            assert(a[k] == b[k]);
        }
        assert(a == c.subrange(0, a.len() as int));
    }
}

/// Appends the keyword suggestions for the prefix `q`, scanning the keywords
/// movie after movie, and stops scanning once `out` holds `2 * limit`
/// suggestions (compared as `out.len() / 2 >= limit`, which cannot overflow).
fn push_keyword_suggestions(movies: &Vec<Movie>, q: &Vec<char>, limit: usize, out: &mut Vec<Suggestion>)
    ensures
        exists|n: int|
            0 <= n <= all_keywords(movies@).len() && suggestion_views(final(out)@) == suggestion_views(
                old(out)@,
            ) + keyword_suggestions(keyword_hits(all_keywords(movies@).take(n), q@)) && (n
                == all_keywords(movies@).len() || final(out).len() >= limit * 2),
{
    let ghost base = suggestion_views(out@);
    let ghost all = all_keywords(movies@);
    let mut seen = StringHashSet::new();
    let mut mi: usize = 0;
    while mi < movies.len()
        invariant
            mi <= movies.len(),
            base == suggestion_views(old(out)@),
            all == all_keywords(movies@),
            suggestion_views(out@) == base + keyword_suggestions(
                keyword_hits(all_keywords(movies@.take(mi as int)), q@),
            ),
            forall|x: Seq<char>| seen@.contains(x) <==> lowercased(keyword_hits(all_keywords(movies@.take(mi as int)), q@)).contains(x),
        decreases movies.len() - mi,
    {
        let kws = &movies[mi].plot_keywords;
        let ghost before = all_keywords(movies@.take(mi as int));
        assert(movies@.take(mi + 1).drop_last() == movies@.take(mi as int));
        assert(movies@.take(mi + 1).last() == movies@[mi as int]);
        assert(all_keywords(movies@.take(mi + 1)) == before + views(kws@));
        proof {
            lemma_all_keywords_prefix(movies@, mi + 1);
        }
        let mut ki: usize = 0;
        while ki < kws.len()
            invariant
                mi < movies.len(),
                ki <= kws.len(),
                kws@ == movies@[mi as int].plot_keywords@,
                base == suggestion_views(old(out)@),
                all == all_keywords(movies@),
                all_keywords(movies@.take(mi + 1)) == before + views(kws@),
                all_keywords(movies@.take(mi + 1)).is_prefix_of(all),
                suggestion_views(out@) == base + keyword_suggestions(
                    keyword_hits(before + views(kws@).take(ki as int), q@),
                ),
                forall|x: Seq<char>| seen@.contains(x) <==> lowercased(keyword_hits(before + views(kws@).take(ki as int), q@)).contains(x),
            decreases kws.len() - ki,
        {
            let ghost cur = before + views(kws@).take(ki as int);
            let ghost next = before + views(kws@).take(ki + 1);
            assert(next.drop_last() == cur);
            assert(next.last() == kws@[ki as int]@);
            let ghost hits = keyword_hits(cur, q@);
            let lower = to_lowercase(kws[ki].as_str());
            let lower_chars = chars_of(lower.as_str());
            let ghost lower_view = lower@;
            let ghost old_seen = seen@;
            if contains_infix(&lower_chars, q) && seen.insert(lower) {
                let ghost old_out = out@;
                out.push(Suggestion { kind: SuggestionKind::Keyword, text: kws[ki].clone() });
                assert(keyword_hits(next, q@) == hits.push(kws@[ki as int]@));
                assert(lowercased(hits.push(kws@[ki as int]@)) == lowercased(hits).push(lower_view));
                assert forall|x: Seq<char>| seen@.contains(x) <==> lowercased(hits).push(lower_view).contains(x) by {
                    let l = lowercased(hits);
                    if l.push(lower_view).contains(x) {
                        let k = choose|k: int| 0 <= k < l.push(lower_view).len() && l.push(lower_view)[k] == x;
                        if k < l.len() {
                            assert(l[k] == x);
                        }
                    }
                    if l.contains(x) {
                        let k = choose|k: int| 0 <= k < l.len() && l[k] == x;
                        assert(l.push(lower_view)[k] == x);
                    }
                    if x == lower_view {
                        assert(l.push(lower_view)[l.len() as int] == x);
                    }
                }
                assert(suggestion_views(out@) == suggestion_views(old_out).push(
                    (SuggestionKind::Keyword, kws@[ki as int]@),
                ));
                assert(keyword_suggestions(hits.push(kws@[ki as int]@)) == keyword_suggestions(hits).push(
                    (SuggestionKind::Keyword, kws@[ki as int]@),
                ));
                if out.len() / 2 >= limit {
                    proof {
                        let n = before.len() + ki + 1;
                        assert(next == all.take(n)) by {
                            assert(all_keywords(movies@.take(mi + 1)) == all.subrange(
                                0,
                                all_keywords(movies@.take(mi + 1)).len() as int,
                            ));
                        }
                        assert(suggestion_views(out@) == base + keyword_suggestions(
                            keyword_hits(all.take(n), q@),
                        ));
                        assert(0 <= n <= all.len());
                    }
                    return;
                }
            }
            ki += 1;
        }
        assert(views(kws@).take(kws.len() as int) == views(kws@));
        if out.len() / 2 >= limit {
            proof {
                let n = all_keywords(movies@.take(mi + 1)).len() as int;
                assert(all_keywords(movies@.take(mi + 1)) == all.take(n));
                assert(suggestion_views(out@) == base + keyword_suggestions(
                    keyword_hits(all.take(n), q@),
                ));
            }
            return;
        }
        mi += 1;
    }
    assert(movies@.take(movies.len() as int) == movies@);
    assert(all.take(all.len() as int) == all);
    assert(suggestion_views(out@) == base + keyword_suggestions(
        keyword_hits(all.take(all.len() as int), q@),
    ));
}

/// Autocomplete for `query`: movie titles (trimmed) whose lowercased form
/// starts with the trimmed, lowercased query, best IMDB score first (ties in
/// catalogue order), at most `limit` of them; then plot keywords whose
/// lowercased form contains the query, each lowercased form once; at most
/// `limit` suggestions in all. An empty query suggests nothing.
pub fn suggest(movies: &Vec<Movie>, query: &str, limit: usize) -> (r: Vec<Suggestion>)
    ensures
        trim(query@).len() == 0 ==> r@.len() == 0,
        (forall|k: int| 0 <= k < query@.len() ==> white_space(#[trigger] query@[k])) ==> r@.len() == 0,
        prefix_spec(query@).len() == 0 ==> r@.len() == 0,
        prefix_spec(query@).len() > 0 ==> exists|order: Seq<usize>|
            is_rank_order(hit_keys(title_hits(movies@, prefix_spec(query@))), order)
                && suggestion_views(r@) == suggestions_spec(movies@, prefix_spec(query@), limit as nat, order),
{
    proof {
        lemma_trim_empty(query@);
    }
    let trimmed = trim_str(query);
    let q = to_lowercase(trimmed.as_str());
    if q.as_str().is_empty() {
        return Vec::new();
    }
    let qv = chars_of(q.as_str());
    let ghost hits = title_hits(movies@, qv@);
    let (titles, keys) = title_candidates(movies, &qv);
    let order = rank_order(&keys);
    let ghost title_part = order@.map_values(|i: usize| (SuggestionKind::Title, hits[i as int].0));
    let shown = if limit < order.len() {
        limit
    } else {
        order.len()
    };
    let mut out: Vec<Suggestion> = Vec::new();
    let mut j: usize = 0;
    while j < shown
        invariant
            shown <= order.len(),
            shown <= limit,
            j <= shown,
            is_rank_order(keys@, order@),
            keys@ == hit_keys(hits),
            titles.len() == keys.len() == hits.len(),
            forall|k: int| 0 <= k < titles.len() ==> #[trigger] titles@[k]@ == hits[k].0,
            title_part == order@.map_values(|i: usize| (SuggestionKind::Title, hits[i as int].0)),
            suggestion_views(out@) == title_part.take(j as int),
        decreases shown - j,
    {
        let i = order[j];
        let ghost old_out = out@;
        out.push(Suggestion { kind: SuggestionKind::Title, text: titles[i].clone() });
        assert(suggestion_views(out@) == suggestion_views(old_out).push(
            (SuggestionKind::Title, titles@[i as int]@),
        ));
        assert(title_part.take(j + 1) == title_part.take(j as int).push(title_part[j as int]));
        j += 1;
    }
    assert(title_part.take(shown as int) == at_most(title_part, limit as int));
    let ghost titles_shown = suggestion_views(out@);
    push_keyword_suggestions(movies, &qv, limit, &mut out);
    let ghost all = all_keywords(movies@);
    let ghost n = choose|n: int|
        0 <= n <= all.len() && suggestion_views(out@) == titles_shown + keyword_suggestions(
            keyword_hits(all.take(n), qv@),
        ) && (n == all.len() || out.len() >= limit * 2);
    let ghost before_cut = suggestion_views(out@);
    out.truncate(limit);
    proof {
        let full = titles_shown + keyword_suggestions(keyword_hits(all, qv@));
        lemma_keyword_hits_prefix(all, n, qv@);
        let a = keyword_hits(all.take(n), qv@);
        let b = keyword_hits(all, qv@);
        assert(keyword_suggestions(a) == keyword_suggestions(b).subrange(0, a.len() as int));
        if n == all.len() {
            assert(all.take(n) == all);
        }
        assert(before_cut.len() >= limit || before_cut == full);
        assert(suggestion_views(out@) == at_most(before_cut, limit as int));
        assert(at_most(before_cut, limit as int) == at_most(full, limit as int));
        assert(suggestion_views(out@) == suggestions_spec(movies@, qv@, limit as nat, order@));
    }
    out
}

/// Every title hit's lowercased title starts with the prefix.
pub proof fn lemma_title_hits_match(movies: Seq<Movie>, q: Seq<char>)
    ensures
        forall|k: int|
            0 <= k < title_hits(movies, q).len() ==> q.is_prefix_of(
                lowercase(#[trigger] title_hits(movies, q)[k].0),
            ),
    decreases movies.len(),
{
    if movies.len() > 0 {
        lemma_title_hits_match(movies.drop_last(), q);
        let r = title_hits(movies, q);
        let rest = title_hits(movies.drop_last(), q);
        assert forall|k: int| 0 <= k < r.len() implies q.is_prefix_of(lowercase(#[trigger] r[k].0)) by {
            if k < rest.len() {
                assert(r[k] == rest[k]);
            }
        }
    }
}

/// Every keyword hit's lowercased form contains the prefix, and no two hits
/// share a lowercased form.
pub proof fn lemma_keyword_hits_sound(kws: Seq<Seq<char>>, q: Seq<char>)
    ensures
        forall|k: int|
            0 <= k < keyword_hits(kws, q).len() ==> has_infix(
                lowercase(#[trigger] keyword_hits(kws, q)[k]),
                q,
            ),
        lowercased(keyword_hits(kws, q)).no_duplicates(),
    decreases kws.len(),
{
    if kws.len() > 0 {
        lemma_keyword_hits_sound(kws.drop_last(), q);
        let r = keyword_hits(kws, q);
        let rest = keyword_hits(kws.drop_last(), q);
        assert forall|k: int| 0 <= k < r.len() implies has_infix(lowercase(#[trigger] r[k]), q) by {
            if k < rest.len() {
                assert(r[k] == rest[k]);
            }
        }
        let lr = lowercased(r);
        let lrest = lowercased(rest);
        if r.len() > rest.len() {
            assert forall|i: int, j: int| 0 <= i < lr.len() && 0 <= j < lr.len() && i != j implies lr[i]
                != lr[j] by {
                if i < lrest.len() && j < lrest.len() {
                    assert(lr[i] == lrest[i] && lr[j] == lrest[j]);
                } else if i < lrest.len() {
                    assert(lr[i] == lrest[i]);
                    assert(lrest.contains(lr[i]));
                } else {
                    assert(lr[j] == lrest[j]);
                    assert(lrest.contains(lr[j]));
                }
            }
        }
    }
}

/// At most `limit` suggestions are made, and titles come before keywords.
pub proof fn lemma_suggestions_shape(movies: Seq<Movie>, q: Seq<char>, limit: nat, order: Seq<usize>)
    ensures
        suggestions_spec(movies, q, limit, order).len() <= limit,
        forall|i: int, j: int|
            0 <= i < j < suggestions_spec(movies, q, limit, order).len() && (#[trigger] suggestions_spec(
                movies,
                q,
                limit,
                order,
            )[j]).0 == SuggestionKind::Title ==> (#[trigger] suggestions_spec(movies, q, limit, order)[i]).0
                == SuggestionKind::Title,
{
    let hits = title_hits(movies, q);
    let titles = at_most(order.map_values(|i: usize| (SuggestionKind::Title, hits[i as int].0)), limit as int);
    let kws = keyword_suggestions(keyword_hits(all_keywords(movies), q));
    let all = titles + kws;
    let r = suggestions_spec(movies, q, limit, order);
    assert(r == at_most(all, limit as int));
    assert forall|i: int, j: int|
        0 <= i < j < r.len() && (#[trigger] r[j]).0 == SuggestionKind::Title implies (#[trigger] r[i]).0
            == SuggestionKind::Title by {
        assert(r[j] == all[j]);
        assert(r[i] == all[i]);
        if j >= titles.len() {
            assert(all[j] == kws[j - titles.len()]);
        }
    }
}

/// Suggesting is case-insensitive and ignores whitespace around the query:
/// two queries with the same trimmed, lowercased form get the same
/// suggestions, whichever rank orders of the title hits are taken.
pub proof fn lemma_suggestions_follow_prefix(
    movies: Seq<Movie>,
    q1: Seq<char>,
    q2: Seq<char>,
    limit: nat,
    o1: Seq<usize>,
    o2: Seq<usize>,
)
    requires
        prefix_spec(q1) == prefix_spec(q2),
        is_rank_order(hit_keys(title_hits(movies, prefix_spec(q1))), o1),
        is_rank_order(hit_keys(title_hits(movies, prefix_spec(q2))), o2),
    ensures
        suggestions_spec(movies, prefix_spec(q1), limit, o1) == suggestions_spec(
            movies,
            prefix_spec(q2),
            limit,
            o2,
        ),
{
    lemma_rank_order_unique(hit_keys(title_hits(movies, prefix_spec(q1))), o1, o2);
}

/// Every movie whose trimmed, lowercased title starts with the prefix `q`
/// (a title equal to it included) is a title hit, with its trimmed title and
/// its score key.
pub proof fn lemma_title_hits_complete(movies: Seq<Movie>, q: Seq<char>)
    ensures
        forall|k: int|
            0 <= k < movies.len() && q.is_prefix_of(lowercase(trim(#[trigger] movies[k].title@)))
                ==> title_hits(movies, q).contains(
                (trim(movies[k].title@), score_order_key(movies[k].imdb_score_bits)),
            ),
    decreases movies.len(),
{
    if movies.len() > 0 {
        let p = movies.drop_last();
        lemma_title_hits_complete(p, q);
        let r = title_hits(movies, q);
        let rest = title_hits(p, q);
        assert forall|k: int|
            0 <= k < movies.len() && q.is_prefix_of(lowercase(trim(#[trigger] movies[k].title@)))
                implies r.contains((trim(movies[k].title@), score_order_key(movies[k].imdb_score_bits))) by {
            let h = (trim(movies[k].title@), score_order_key(movies[k].imdb_score_bits));
            if k < movies.len() - 1 {
                assert(p[k] == movies[k]);
                assert(rest.contains(h));
                let j = choose|j: int| 0 <= j < rest.len() && rest[j] == h;
                assert(r[j] == h);
            } else {
                assert(r[r.len() - 1] == h);
            }
        }
    }
}

/// Every keyword whose lowercased form contains the prefix `q` is covered:
/// its lowercased form is that of a keyword hit. (Hits are deduplicated by
/// lowercased form, so the first keyword with that form stands for it.)
pub proof fn lemma_keyword_hits_complete(kws: Seq<Seq<char>>, q: Seq<char>)
    ensures
        forall|k: int|
            0 <= k < kws.len() && has_infix(lowercase(#[trigger] kws[k]), q) ==> lowercased(
                keyword_hits(kws, q),
            ).contains(lowercase(kws[k])),
    decreases kws.len(),
{
    if kws.len() > 0 {
        let p = kws.drop_last();
        lemma_keyword_hits_complete(p, q);
        let r = keyword_hits(kws, q);
        let rest = keyword_hits(p, q);
        let lr = lowercased(r);
        let lrest = lowercased(rest);
        assert forall|k: int|
            0 <= k < kws.len() && has_infix(lowercase(#[trigger] kws[k]), q) implies lr.contains(
                lowercase(kws[k]),
            ) by {
            let l = lowercase(kws[k]);
            if k < kws.len() - 1 {
                assert(p[k] == kws[k]);
                assert(lrest.contains(l));
                let j = choose|j: int| 0 <= j < lrest.len() && lrest[j] == l;
                assert(lr[j] == l);
            } else if lrest.contains(l) {
                let j = choose|j: int| 0 <= j < lrest.len() && lrest[j] == l;
                assert(lr[j] == l);
            } else {
                assert(lr[lr.len() - 1] == l);
            }
        }
    }
}

} // verus!

//! Movie records: cleaning of raw CSV cells, splitting of `|`-separated lists,
//! the `Movie` and `MovieResult` types and the text used for embeddings.
use vstd::prelude::*;
use crate::query::lemma_trim_idempotent;
use crate::text::{chars_of, decimal, join, join_strings, push_decimal, lowercase, string_of, to_lowercase, trim, trim_range, trim_str};

verus! {

/// The character view of an optional string.
pub open spec fn opt_view(o: Option<String>) -> Option<Seq<char>> {
    match o {
        Some(s) => Some(s@),
        None => None,
    }
}

/// The character views of a sequence of strings.
pub open spec fn views(v: Seq<String>) -> Seq<Seq<char>> {
    v.map_values(|s: String| s@)
}

/// The placeholders that the dataset uses for a missing value in a cell.
pub open spec fn is_missing_marker(t: Seq<char>) -> bool {
    ||| t == seq!['N', 'a', 'N']
    ||| t == seq!['n', 'a', 'n']
    ||| t == seq!['N', 'U', 'L', 'L']
}

/// A cleaned cell: the trimmed text, or nothing when it is empty or a
/// missing-value placeholder.
pub open spec fn clean_spec(raw: Seq<char>) -> Option<Seq<char>> {
    let t = trim(raw);
    if t.len() == 0 || is_missing_marker(t) {
        None
    } else {
        Some(t)
    }
}

/// The pieces of `s` between occurrences of `sep`, as `str::split` with a
/// character pattern yields them: one more piece than there are separators.
pub open spec fn split_char(s: Seq<char>, sep: char) -> Seq<Seq<char>>
    decreases s.len(),
{
    if s.len() == 0 {
        seq![Seq::empty()]
    } else {
        let prev = split_char(s.drop_last(), sep);
        if s.last() == sep {
            prev.push(Seq::empty())
        } else {
            prev.update(prev.len() - 1, prev.last().push(s.last()))
        }
    }
}

/// Whether a trimmed list item is kept: not empty and not a missing-value
/// placeholder (`NaN` in any letter case, `NULL`, `N/A`).
pub open spec fn keep_item(t: Seq<char>) -> bool {
    &&& t.len() > 0
    &&& t != seq!['N', 'a', 'N']
    &&& lowercase(t) != seq!['n', 'a', 'n']
    &&& t != seq!['N', 'U', 'L', 'L']
    &&& t != seq!['N', '/', 'A']
}

/// The trimmed pieces that are kept, in order.
pub open spec fn kept_items(pieces: Seq<Seq<char>>) -> Seq<Seq<char>>
    decreases pieces.len(),
{
    if pieces.len() == 0 {
        Seq::empty()
    } else {
        let rest = kept_items(pieces.drop_last());
        let t = trim(pieces.last());
        if keep_item(t) {
            rest.push(t)
        } else {
            rest
        }
    }
}

/// The items of a `|`-separated list cell.
pub open spec fn split_pipe_spec(raw: Seq<char>) -> Seq<Seq<char>> {
    kept_items(split_char(raw, '|'))
}

/// Cleaning is idempotent: a cleaned value cleans to itself.
pub proof fn lemma_clean_idempotent(raw: Seq<char>)
    ensures
        clean_spec(raw) matches Some(t) ==> clean_spec(t) == Some(t),
{
    lemma_trim_idempotent(raw);
}

/// Every item of a split list is trimmed, non-empty and not a missing-value
/// placeholder.
pub proof fn lemma_split_items(pieces: Seq<Seq<char>>)
    ensures
        forall|k: int|
            0 <= k < kept_items(pieces).len() ==> trim(#[trigger] kept_items(pieces)[k])
                == kept_items(pieces)[k] && keep_item(kept_items(pieces)[k]),
    decreases pieces.len(),
{
    if pieces.len() > 0 {
        lemma_split_items(pieces.drop_last());
        lemma_trim_idempotent(pieces.last());
        let r = kept_items(pieces);
        let rest = kept_items(pieces.drop_last());
        assert forall|k: int| 0 <= k < r.len() implies trim(#[trigger] r[k]) == r[k] && keep_item(r[k]) by {
            if k < rest.len() {
                assert(r[k] == rest[k]);
            }
        }
    }
}

/// `split_char` always yields at least one piece.
proof fn lemma_split_char_nonempty(s: Seq<char>, sep: char)
    ensures
        split_char(s, sep).len() >= 1,
    decreases s.len(),
{
    if s.len() > 0 {
        lemma_split_char_nonempty(s.drop_last(), sep);
    }
}

/// Appending a character to the last of some parts appends it to their join.
proof fn lemma_join_extend_last(p: Seq<Seq<char>>, sep: Seq<char>, c: char)
    requires
        p.len() >= 1,
    ensures
        join(p.update(p.len() - 1, p.last().push(c)), sep) == join(p, sep).push(c),
{
    let q = p.update(p.len() - 1, p.last().push(c));
    if p.len() == 1 {
        assert(q[0] == p[0].push(c));
    } else {
        assert(q.drop_last() == p.drop_last());
        assert(q.last() == p.last().push(c));
        assert(join(p.drop_last(), sep) + sep + p.last().push(c) == (join(p.drop_last(), sep) + sep
            + p.last()).push(c));
    }
}

/// Splitting cuts at the separator and nowhere else: no piece holds the
/// separator, and joining the pieces with it gives the input back.
pub proof fn lemma_split_char_rejoins(s: Seq<char>, sep: char)
    ensures
        join(split_char(s, sep), seq![sep]) == s,
        forall|k: int|
            0 <= k < split_char(s, sep).len() ==> !(#[trigger] split_char(s, sep)[k]).contains(sep),
    decreases s.len(),
{
    if s.len() == 0 {
        assert(split_char(s, sep) == seq![Seq::<char>::empty()]);
    } else {
        let t = s.drop_last();
        let prev = split_char(t, sep);
        lemma_split_char_rejoins(t, sep);
        lemma_split_char_nonempty(t, sep);
        let r = split_char(s, sep);
        if s.last() == sep {
            assert(r == prev.push(Seq::empty()));
            assert(r.drop_last() == prev);
            assert(join(r, seq![sep]) == t + seq![sep] + Seq::<char>::empty());
            assert(t + seq![sep] + Seq::<char>::empty() == s);
            assert forall|k: int| 0 <= k < r.len() implies !(#[trigger] r[k]).contains(sep) by {
                if k < prev.len() {
                    assert(r[k] == prev[k]);
                } else {
                    assert(r[k] == Seq::<char>::empty());
                }
            }
        } else {
            lemma_join_extend_last(prev, seq![sep], s.last());
            assert(t.push(s.last()) == s);
            assert forall|k: int| 0 <= k < r.len() implies !(#[trigger] r[k]).contains(sep) by {
                if k < prev.len() - 1 {
                    assert(r[k] == prev[k]);
                } else {
                    let l = prev.last();
                    assert(r[k] == l.push(s.last()));
                    assert(!prev[prev.len() - 1].contains(sep));
                    if l.push(s.last()).contains(sep) {
                        let i = choose|i: int| 0 <= i < l.push(s.last()).len() && l.push(s.last())[i] == sep;
                        assert(i < l.len());
                        assert(l[i] == sep);
                    }
                }
            }
        }
    }
}

/// Text without the separator is a single piece.
pub proof fn lemma_split_char_whole(s: Seq<char>, sep: char)
    requires
        !s.contains(sep),
    ensures
        split_char(s, sep) == seq![s],
    decreases s.len(),
{
    if s.len() > 0 {
        let t = s.drop_last();
        assert(!t.contains(sep)) by {
            if t.contains(sep) {
                let i = choose|i: int| 0 <= i < t.len() && t[i] == sep;
                assert(s[i] == sep);
            }
        }
        lemma_split_char_whole(t, sep);
        assert(s[s.len() - 1] != sep);
        assert(t.push(s.last()) == s);
    } else {
        assert(s == Seq::<char>::empty());
    }
}

/// A list cell without `|` holds one item, the trimmed cell, unless that is
/// empty or a missing-value placeholder.
pub proof fn lemma_split_pipe_single(raw: Seq<char>)
    requires
        !raw.contains('|'),
    ensures
        split_pipe_spec(raw) == (if keep_item(trim(raw)) {
            seq![trim(raw)]
        } else {
            Seq::<Seq<char>>::empty()
        }),
{
    lemma_split_char_whole(raw, '|');
    let pieces = seq![raw];
    assert(pieces.drop_last() == Seq::<Seq<char>>::empty());
    assert(pieces.last() == raw);
    assert(kept_items(pieces.drop_last()) == Seq::<Seq<char>>::empty());
    if keep_item(trim(raw)) {
        assert(kept_items(pieces) == Seq::<Seq<char>>::empty().push(trim(raw)));
    } else {
        assert(kept_items(pieces) == Seq::<Seq<char>>::empty());
    }
}

/// Splitting `a`, a separator and `b` gives the pieces of `a` followed by
/// those of `b`.
pub proof fn lemma_split_char_concat(a: Seq<char>, b: Seq<char>, sep: char)
    ensures
        split_char(a + seq![sep] + b, sep) == split_char(a, sep) + split_char(b, sep),
    decreases b.len(),
{
    let s = a + seq![sep] + b;
    if b.len() == 0 {
        assert(s == a + seq![sep]);
        assert(s.drop_last() == a);
        assert(split_char(b, sep) == seq![Seq::<char>::empty()]);
    } else {
        let b1 = b.drop_last();
        lemma_split_char_concat(a, b1, sep);
        assert(s.drop_last() == a + seq![sep] + b1);
        assert(s.last() == b.last());
        lemma_split_char_nonempty(b1, sep);
        let pa = split_char(a, sep);
        let pb = split_char(b1, sep);
        if b.last() == sep {
            assert((pa + pb).push(Seq::empty()) == pa + pb.push(Seq::empty()));
        } else {
            let prev = pa + pb;
            assert(prev.update(prev.len() - 1, prev.last().push(b.last())) == pa + pb.update(
                pb.len() - 1,
                pb.last().push(b.last()),
            ));
        }
    }
}

/// The kept items of two runs of pieces are those of the first followed by
/// those of the second.
pub proof fn lemma_kept_items_concat(x: Seq<Seq<char>>, y: Seq<Seq<char>>)
    ensures
        kept_items(x + y) == kept_items(x) + kept_items(y),
    decreases y.len(),
{
    if y.len() == 0 {
        assert(x + y == x);
    } else {
        lemma_kept_items_concat(x, y.drop_last());
        assert((x + y).drop_last() == x + y.drop_last());
        assert((x + y).last() == y.last());
    }
}

/// Splitting a list cell made of `a`, `|` and `b` gives the items of `a`
/// followed by the items of `b`.
pub proof fn lemma_split_pipe_concat(a: Seq<char>, b: Seq<char>)
    ensures
        split_pipe_spec(a + seq!['|'] + b) == split_pipe_spec(a) + split_pipe_spec(b),
{
    lemma_split_char_concat(a, b, '|');
    lemma_kept_items_concat(split_char(a, '|'), split_char(b, '|'));
}

/// Whether a string's characters equal those of a literal.
pub fn same_text(a: &String, b: &str) -> (r: bool)
    ensures
        r == (a@ == b@),
{
    let owned = String::from_str(b);
    *a == owned
}

/// Normalises a raw CSV value: trims it and turns an empty value or a
/// placeholder (`NaN`, `nan`, `NULL`) into `None`.
pub fn clean(raw: &str) -> (r: Option<String>)
    ensures
        opt_view(r) == clean_spec(raw@),
{
    let t = trim_str(raw);
    let nan_upper = same_text(&t, "NaN");
    let nan_lower = same_text(&t, "nan");
    let null = same_text(&t, "NULL");
    proof {
        reveal_strlit("NaN");
        reveal_strlit("nan");
        reveal_strlit("NULL");
        assert("NaN"@ == seq!['N', 'a', 'N']);
        assert("nan"@ == seq!['n', 'a', 'n']);
        assert("NULL"@ == seq!['N', 'U', 'L', 'L']);
    }
    if t.as_str().is_empty() || nan_upper || nan_lower || null {
        None
    } else {
        Some(t)
    }
}

/// The `(from, to)` bounds of the pieces of `v` between occurrences of `sep`.
pub fn split_ranges(v: &Vec<char>, sep: char) -> (r: Vec<(usize, usize)>)
    ensures
        forall|k: int| 0 <= k < r.len() ==> #[trigger] r@[k].0 <= r@[k].1 <= v.len(),
        r@.map_values(|p: (usize, usize)| v@.subrange(p.0 as int, p.1 as int)) == split_char(v@, sep),
{
    let mut r: Vec<(usize, usize)> = Vec::new();
    let mut start: usize = 0;
    let mut i: usize = 0;
    assert(v@.take(0) == Seq::<char>::empty());
    assert(r@.map_values(|p: (usize, usize)| v@.subrange(p.0 as int, p.1 as int)).push(
        v@.subrange(0, 0)) == seq![Seq::<char>::empty()]);
    while i < v.len()
        invariant
            start <= i <= v.len(),
            forall|k: int| 0 <= k < r.len() ==> #[trigger] r@[k].0 <= r@[k].1 <= v.len(),
            r@.map_values(|p: (usize, usize)| v@.subrange(p.0 as int, p.1 as int)).push(
                v@.subrange(start as int, i as int),
            ) == split_char(v@.take(i as int), sep),
        decreases v.len() - i,
    {
        let ghost prev = r@.map_values(|p: (usize, usize)| v@.subrange(p.0 as int, p.1 as int));
        let ghost s = v@.take(i + 1);
        assert(s.drop_last() == v@.take(i as int));
        if v[i] == sep {
            r.push((start, i));
            start = i + 1;
            assert(r@.map_values(|p: (usize, usize)| v@.subrange(p.0 as int, p.1 as int)) == prev.push(
                v@.subrange(r@[r.len() - 1].0 as int, i as int),
            ));
            assert(v@.subrange(start as int, i + 1) == Seq::<char>::empty());
        } else {
            assert(v@.subrange(start as int, i + 1) == v@.subrange(start as int, i as int).push(v@[i as int]));
            assert(prev.push(v@.subrange(start as int, i + 1)) == prev.push(
                v@.subrange(start as int, i as int),
            ).update(prev.len() as int, prev.push(v@.subrange(start as int, i as int)).last().push(s.last())));
        }
        i += 1;
    }
    r.push((start, i));
    assert(v@.take(v.len() as int) == v@);
    r
}

/// Splits a `|`-separated list cell into trimmed items, dropping empty items
/// and missing-value placeholders.
pub fn split_pipe(raw: &str) -> (r: Vec<String>)
    ensures
        views(r@) == split_pipe_spec(raw@),
{
    let v = chars_of(raw);
    let ranges = split_ranges(&v, '|');
    let ghost pieces = split_char(v@, '|');
    let mut out: Vec<String> = Vec::new();
    let mut i: usize = 0;
    while i < ranges.len()
        invariant
            i <= ranges.len(),
            pieces == split_char(v@, '|'),
            forall|k: int| 0 <= k < ranges.len() ==> #[trigger] ranges@[k].0 <= ranges@[k].1 <= v.len(),
            ranges@.map_values(|p: (usize, usize)| v@.subrange(p.0 as int, p.1 as int)) == pieces,
            views(out@) == kept_items(pieces.take(i as int)),
        decreases ranges.len() - i,
    {
        let (from, to) = ranges[i];
        assert(pieces[i as int] == v@.subrange(from as int, to as int));
        let (a, b) = trim_range(&v, from, to);
        let t = string_of(&v, a, b);
        let keep = a < b && keep_item_text(&t);
        assert(pieces.take(i + 1).drop_last() == pieces.take(i as int));
        if keep {
            out.push(t);
            assert(views(out@) == views(out@.drop_last()).push(t@));
        }
        i += 1;
    }
    assert(pieces.take(ranges.len() as int) == pieces);
    out
}

/// Whether a non-empty trimmed item is kept (see `keep_item`).
fn keep_item_text(t: &String) -> (r: bool)
    requires
        t@.len() > 0,
    ensures
        r == keep_item(t@),
{
    let lower = to_lowercase(t.as_str());
    let a = same_text(t, "NaN");
    let b = same_text(&lower, "nan");
    let c = same_text(t, "NULL");
    let d = same_text(t, "N/A");
    proof {
        reveal_strlit("NaN");
        reveal_strlit("nan");
        reveal_strlit("NULL");
        reveal_strlit("N/A");
        assert("NaN"@ == seq!['N', 'a', 'N']);
        assert("nan"@ == seq!['n', 'a', 'n']);
        assert("NULL"@ == seq!['N', 'U', 'L', 'L']);
        assert("N/A"@ == seq!['N', '/', 'A']);
    }
    !a && !b && !c && !d
}


/// A movie of the catalogue.
///
/// `imdb_score_bits` holds the bit pattern of the IMDB score (an `f64`), so
/// that the score travels through the library unchanged; `score_order_key`
/// turns it into an integer that sorts as the score does.
pub struct Movie {
    pub id: usize,
    pub title: String,
    pub year: Option<i64>,
    pub genres: Vec<String>,
    pub director: String,
    pub actors: Vec<String>,
    pub imdb_score_bits: Option<u64>,
    pub plot_keywords: Vec<String>,
    pub link: String,
    pub language: String,
    pub country: String,
}

/// The raw cells of one CSV record for the columns a movie is built from;
/// `None` where the column is missing from the header or the record is
/// shorter.
pub struct MovieRow {
    pub title: Option<String>,
    pub title_year: Option<String>,
    pub genres: Option<String>,
    pub director_name: Option<String>,
    pub actor_1_name: Option<String>,
    pub actor_2_name: Option<String>,
    pub actor_3_name: Option<String>,
    pub imdb_score: Option<String>,
    pub plot_keywords: Option<String>,
    pub movie_imdb_link: Option<String>,
    pub language: Option<String>,
    pub country: Option<String>,
}

/// A cleaned optional cell, the empty string when missing.
pub open spec fn cleaned_or_empty(cell: Option<String>) -> Seq<char> {
    match cell {
        Some(c) => match clean_spec(c@) {
            Some(t) => t,
            None => Seq::empty(),
        },
        None => Seq::empty(),
    }
}

/// A `|`-separated optional cell, no items when missing.
pub open spec fn items_or_none(cell: Option<String>) -> Seq<Seq<char>> {
    match cell {
        Some(c) => split_pipe_spec(c@),
        None => Seq::empty(),
    }
}

/// The cleaned value of an optional cell, if any.
pub open spec fn cleaned_cell(cell: Option<String>) -> Option<Seq<char>> {
    match cell {
        Some(c) => clean_spec(c@),
        None => None,
    }
}

/// The listed actors: the cleaned actor cells that hold a value, in column
/// order.
pub open spec fn actors_spec(row: MovieRow) -> Seq<Seq<char>> {
    let one = |c: Option<String>| match cleaned_cell(c) {
        Some(t) => seq![t],
        None => Seq::<Seq<char>>::empty(),
    };
    one(row.actor_1_name) + one(row.actor_2_name) + one(row.actor_3_name)
}

/// The title of the movie at position `id`: the cleaned title cell, or
/// `Movie {id}` when it holds no value.
pub open spec fn title_spec(row: MovieRow, id: nat) -> Seq<char> {
    match cleaned_cell(row.title) {
        Some(t) => t,
        None => "Movie "@ + decimal(id),
    }
}

/// The movie built from record `id`, given the year and score that were read
/// from its `title_year` and `imdb_score` cells.
pub open spec fn movie_from_row_spec(
    m: Movie,
    id: usize,
    row: MovieRow,
    year: Option<i64>,
    imdb_score_bits: Option<u64>,
) -> bool {
    &&& m.id == id
    &&& m.title@ == title_spec(row, id as nat)
    &&& m.year == year
    &&& views(m.genres@) == items_or_none(row.genres)
    &&& m.director@ == cleaned_or_empty(row.director_name)
    &&& views(m.actors@) == actors_spec(row)
    &&& m.imdb_score_bits == imdb_score_bits
    &&& views(m.plot_keywords@) == items_or_none(row.plot_keywords)
    &&& m.link@ == cleaned_or_empty(row.movie_imdb_link)
    &&& m.language@ == cleaned_or_empty(row.language)
    &&& m.country@ == cleaned_or_empty(row.country)
}

/// `clean` on an optional cell.
pub fn clean_cell(cell: &Option<String>) -> (r: Option<String>)
    ensures
        opt_view(r) == cleaned_cell(*cell),
{
    match cell {
        Some(c) => clean(c.as_str()),
        None => None,
    }
}

fn cleaned_or_default(cell: &Option<String>) -> (r: String)
    ensures
        r@ == cleaned_or_empty(*cell),
{
    match clean_cell(cell) {
        Some(t) => t,
        None => String::new(),
    }
}

fn items_of(cell: &Option<String>) -> (r: Vec<String>)
    ensures
        views(r@) == items_or_none(*cell),
{
    match cell {
        Some(c) => split_pipe(c.as_str()),
        None => Vec::new(),
    }
}

impl Movie {
    /// Builds the movie of record number `id` from its cells. `year` and
    /// `imdb_score_bits` are the numbers read from the cleaned `title_year`
    /// and `imdb_score` cells.
    pub fn from_row(id: usize, row: &MovieRow, year: Option<i64>, imdb_score_bits: Option<u64>) -> (m: Movie)
        ensures
            movie_from_row_spec(m, id, *row, year, imdb_score_bits),
    {
        let title = match clean_cell(&row.title) {
            Some(t) => t,
            None => {
                let mut t = String::from_str("Movie ");
                push_decimal(&mut t, id);
                t
            },
        };
        let mut actors: Vec<String> = Vec::new();
        let a1 = clean_cell(&row.actor_1_name);
        let a2 = clean_cell(&row.actor_2_name);
        let a3 = clean_cell(&row.actor_3_name);
        let ghost one = |c: Option<String>| match cleaned_cell(c) {
            Some(t) => seq![t],
            None => Seq::<Seq<char>>::empty(),
        };
        if let Some(a) = a1 {
            actors.push(a);
        }
        assert(views(actors@) == one(row.actor_1_name));
        let ghost first = views(actors@);
        if let Some(a) = a2 {
            actors.push(a);
        }
        assert(views(actors@) == first + one(row.actor_2_name));
        let ghost second = views(actors@);
        if let Some(a) = a3 {
            actors.push(a);
        }
        assert(views(actors@) == second + one(row.actor_3_name));
        Movie {
            id,
            title,
            year,
            genres: items_of(&row.genres),
            director: cleaned_or_default(&row.director_name),
            actors,
            imdb_score_bits,
            plot_keywords: items_of(&row.plot_keywords),
            link: cleaned_or_default(&row.movie_imdb_link),
            language: cleaned_or_default(&row.language),
            country: cleaned_or_default(&row.country),
        }
    }
}

/// One labelled part of the embedding text, present only when there are
/// items: the label followed by the items joined with `, `.
pub open spec fn labelled_part(label: Seq<char>, items: Seq<Seq<char>>) -> Seq<Seq<char>> {
    if items.len() > 0 {
        seq![label + join(items, ", "@)]
    } else {
        Seq::empty()
    }
}

/// The parts of a movie's embedding text: the title, then the genres,
/// director, cast and keywords that are present.
pub open spec fn embed_parts(m: Movie) -> Seq<Seq<char>> {
    seq![m.title@] + labelled_part("genres: "@, views(m.genres@)) + (if m.director@.len() > 0 {
        seq!["director: "@ + m.director@]
    } else {
        Seq::empty()
    }) + labelled_part("cast: "@, views(m.actors@)) + labelled_part(
        "keywords: "@,
        views(m.plot_keywords@),
    )
}

/// The text a movie is embedded from: its parts joined with ` | `.
pub open spec fn embed_text_spec(m: Movie) -> Seq<char> {
    join(embed_parts(m), " | "@)
}

fn labelled(label: &str, items: &Vec<String>) -> (r: String)
    ensures
        r@ == label@ + join(views(items@), ", "@),
{
    let mut r = String::from_str(label);
    let joined = join_strings(items, ", ");
    r.append(joined.as_str());
    r
}

/// Copies of a list of strings.
pub fn clone_strings(v: &Vec<String>) -> (r: Vec<String>)
    ensures
        views(r@) == views(v@),
{
    let mut r: Vec<String> = Vec::new();
    let mut i: usize = 0;
    while i < v.len()
        invariant
            i <= v.len(),
            views(r@) == views(v@.take(i as int)),
        decreases v.len() - i,
    {
        let ghost prev = r@;
        r.push(v[i].clone());
        assert(v@.take(i + 1) == v@.take(i as int).push(v@[i as int]));
        assert(views(r@) == views(prev).push(v@[i as int]@));
        assert(views(v@.take(i + 1)) == views(v@.take(i as int)).push(v@[i as int]@));
        i += 1;
    }
    assert(v@.take(v.len() as int) == v@);
    r
}

impl Movie {
    /// The combined text used to build the movie's embedding (its semantic
    /// representation).
    pub fn embed_text(&self) -> (r: String)
        ensures
            r@ == embed_text_spec(*self),
    {
        let mut parts: Vec<String> = Vec::new();
        parts.push(self.title.clone());
        let ghost p0 = views(parts@);
        assert(p0 == seq![self.title@]);
        if !self.genres.is_empty() {
            parts.push(labelled("genres: ", &self.genres));
        }
        let ghost p1 = views(parts@);
        assert(p1 == p0 + labelled_part("genres: "@, views(self.genres@)));
        if !self.director.as_str().is_empty() {
            let mut d = String::from_str("director: ");
            d.append(self.director.as_str());
            parts.push(d);
        }
        let ghost p2 = views(parts@);
        assert(p2 == p1 + (if self.director@.len() > 0 {
            seq!["director: "@ + self.director@]
        } else {
            Seq::empty()
        }));
        if !self.actors.is_empty() {
            parts.push(labelled("cast: ", &self.actors));
        }
        let ghost p3 = views(parts@);
        assert(p3 == p2 + labelled_part("cast: "@, views(self.actors@)));
        if !self.plot_keywords.is_empty() {
            parts.push(labelled("keywords: ", &self.plot_keywords));
        }
        assert(views(parts@) == p3 + labelled_part("keywords: "@, views(self.plot_keywords@)));
        join_strings(&parts, " | ")
    }
}

/// The part of a movie that the search API returns.
pub struct MovieResult {
    pub id: usize,
    pub title: String,
    pub year: Option<i64>,
    pub genres: Vec<String>,
    pub director: String,
    pub actors: Vec<String>,
    pub imdb_score_bits: Option<u64>,
    pub plot_keywords: Vec<String>,
    pub link: String,
}

/// `r` carries the fields of `m` that the search API returns.
pub open spec fn is_result_of(r: MovieResult, m: Movie) -> bool {
    &&& r.id == m.id
    &&& r.title@ == m.title@
    &&& r.year == m.year
    &&& views(r.genres@) == views(m.genres@)
    &&& r.director@ == m.director@
    &&& views(r.actors@) == views(m.actors@)
    &&& r.imdb_score_bits == m.imdb_score_bits
    &&& views(r.plot_keywords@) == views(m.plot_keywords@)
    &&& r.link@ == m.link@
}

impl MovieResult {
    /// The search-API view of a movie.
    pub fn from_movie(m: &Movie) -> (r: MovieResult)
        ensures
            is_result_of(r, *m),
    {
        MovieResult {
            id: m.id,
            title: m.title.clone(),
            year: m.year,
            genres: clone_strings(&m.genres),
            director: m.director.clone(),
            actors: clone_strings(&m.actors),
            imdb_score_bits: m.imdb_score_bits,
            plot_keywords: clone_strings(&m.plot_keywords),
            link: m.link.clone(),
        }
    }
}

} // verus!

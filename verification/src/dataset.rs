//! Reading the movie table: CSV parsing through the `csv` crate, lookup of
//! cells by header name, and the raw rows movies are built from.
use vstd::prelude::*;
use crate::model::{opt_view, views, MovieRow};

verus! {

#[verifier::external_type_specification]
#[verifier::external_body]
pub struct ExCsvError(csv::Error);

/// A parsed CSV table: the header record and the data records.
pub struct CsvTable {
    pub headers: Vec<String>,
    pub records: Vec<Vec<String>>,
}

/// The character views of a list of records.
pub open spec fn record_views(records: Seq<Vec<String>>) -> Seq<Seq<Seq<char>>> {
    records.map_values(|r: Vec<String>| views(r@))
}

/// What `csv::Reader` with its default settings (the first record is the
/// header, comma-separated, double-quoted fields, records of equal length,
/// UTF-8 text) reads from these bytes: the header fields and the records, or
/// `None` where it reports an error.
pub uninterp spec fn csv_parse(bytes: Seq<u8>) -> Option<(Seq<Seq<char>>, Seq<Seq<Seq<char>>>)>;

/// Parses CSV bytes with `csv::Reader::from_reader`, reading the headers with
/// `Reader::headers` and every record with `Reader::records`. The contract
/// claims that the outcome is a function of the bytes alone, named by
/// `csv_parse`; the CSV grammar itself is the crate's and is not stated.
#[verifier::external_body]
fn parse_csv(bytes: &[u8]) -> (r: Result<CsvTable, csv::Error>)
    ensures
        match r {
            Ok(t) => csv_parse(bytes@) == Some((views(t.headers@), record_views(t.records@))),
            Err(_) => csv_parse(bytes@) is None,
        },
{
    let mut reader = csv::Reader::from_reader(bytes);
    let headers: Vec<String> = reader.headers()?.iter().map(|h| h.to_string()).collect();
    let mut records: Vec<Vec<String>> = Vec::new();
    for record in reader.records() {
        records.push(record?.iter().map(|f| f.to_string()).collect());
    }
    Ok(CsvTable { headers, records })
}

/// Why the movie table could not be read.
pub enum LoadError {
    /// The bytes are not a well-formed CSV table.
    Csv(csv::Error),
}

/// The position of the first header equal to `name`.
pub open spec fn column_of(headers: Seq<Seq<char>>, name: Seq<char>) -> Option<int>
    decreases headers.len(),
{
    if headers.len() == 0 {
        None
    } else if headers[0] == name {
        Some(0)
    } else {
        match column_of(headers.drop_first(), name) {
            Some(i) => Some(i + 1),
            None => None,
        }
    }
}

/// The cell of `record` under the first header equal to `name`; `None` when
/// no header is `name` or the record is too short.
pub open spec fn cell_spec(headers: Seq<Seq<char>>, record: Seq<Seq<char>>, name: Seq<char>) -> Option<
    Seq<char>,
> {
    match column_of(headers, name) {
        Some(i) => if i < record.len() {
            Some(record[i])
        } else {
            None
        },
        None => None,
    }
}

/// `row` holds the cells of `record` for the movie columns.
pub open spec fn row_of(row: MovieRow, headers: Seq<Seq<char>>, record: Seq<Seq<char>>) -> bool {
    &&& opt_view(row.title) == cell_spec(headers, record, "movie_title"@)
    &&& opt_view(row.title_year) == cell_spec(headers, record, "title_year"@)
    &&& opt_view(row.genres) == cell_spec(headers, record, "genres"@)
    &&& opt_view(row.director_name) == cell_spec(headers, record, "director_name"@)
    &&& opt_view(row.actor_1_name) == cell_spec(headers, record, "actor_1_name"@)
    &&& opt_view(row.actor_2_name) == cell_spec(headers, record, "actor_2_name"@)
    &&& opt_view(row.actor_3_name) == cell_spec(headers, record, "actor_3_name"@)
    &&& opt_view(row.imdb_score) == cell_spec(headers, record, "imdb_score"@)
    &&& opt_view(row.plot_keywords) == cell_spec(headers, record, "plot_keywords"@)
    &&& opt_view(row.movie_imdb_link) == cell_spec(headers, record, "movie_imdb_link"@)
    &&& opt_view(row.language) == cell_spec(headers, record, "language"@)
    &&& opt_view(row.country) == cell_spec(headers, record, "country"@)
}

proof fn lemma_column_of_skip(headers: Seq<Seq<char>>, name: Seq<char>, i: int)
    requires
        0 <= i <= headers.len(),
        forall|j: int| 0 <= j < i ==> #[trigger] headers[j] != name,
    ensures
        column_of(headers, name) == match column_of(headers.skip(i), name) {
            Some(k) => Some(k + i),
            None => None,
        },
    decreases i,
{
    if i == 0 {
        assert(headers.skip(0) == headers);
        match column_of(headers, name) {
            Some(k) => {},
            None => {},
        }
    } else {
        let t = headers.drop_first();
        assert(headers[0] != name);
        assert forall|j: int| 0 <= j < i - 1 implies #[trigger] t[j] != name by {
            assert(t[j] == headers[j + 1]);
        }
        lemma_column_of_skip(t, name, i - 1);
        assert(t.skip(i - 1) == headers.skip(i));
    }
}

/// The position of the first header equal to `name`.
pub fn column_index(headers: &Vec<String>, name: &str) -> (r: Option<usize>)
    ensures
        opt_int(r) == column_of(views(headers@), name@),
{
    let ghost hs = views(headers@);
    let mut i: usize = 0;
    while i < headers.len()
        invariant
            i <= headers.len(),
            hs == views(headers@),
            forall|j: int| 0 <= j < i ==> #[trigger] hs[j] != name@,
        decreases headers.len() - i,
    {
        let h = headers[i].as_str();
        if same_chars(h, name) {
            proof {
                lemma_column_of_skip(hs, name@, i as int);
                assert(hs.skip(i as int)[0] == name@);
            }
            return Some(i);
        }
        i += 1;
    }
    proof {
        lemma_column_of_skip(hs, name@, i as int);
        assert(hs.skip(i as int).len() == 0);
    }
    None
}

/// An optional position as an integer.
pub open spec fn opt_int(o: Option<usize>) -> Option<int> {
    match o {
        Some(i) => Some(i as int),
        None => None,
    }
}

/// Whether two string slices hold the same characters.
fn same_chars(a: &str, b: &str) -> (r: bool)
    ensures
        r == (a@ == b@),
{
    let x = String::from_str(a);
    let y = String::from_str(b);
    x == y
}

/// The cell of `record` at an optional column position.
fn cell_at(record: &Vec<String>, column: Option<usize>) -> (r: Option<String>)
    ensures
        opt_view(r) == match column {
            Some(i) => if i < record.len() {
                Some(record@[i as int]@)
            } else {
                None
            },
            None => None,
        },
{
    match column {
        Some(i) => if i < record.len() {
            Some(record[i].clone())
        } else {
            None
        },
        None => None,
    }
}

/// Reads the movie table from CSV bytes: for every record, the cells under
/// the movie columns (by header name, first matching header).
pub fn read_movie_rows(bytes: &[u8]) -> (r: Result<Vec<MovieRow>, LoadError>)
    ensures
        r is Ok <==> csv_parse(bytes@) is Some,
        r matches Ok(rows) ==> {
            let (headers, records) = csv_parse(bytes@)->Some_0;
            &&& rows.len() == records.len()
            &&& forall|k: int| 0 <= k < rows.len() ==> row_of(#[trigger] rows@[k], headers, records[k])
        },
{
    let table = match parse_csv(bytes) {
        Ok(t) => t,
        Err(e) => return Err(LoadError::Csv(e)),
    };
    let ghost hs = views(table.headers@);
    let title = column_index(&table.headers, "movie_title");
    let title_year = column_index(&table.headers, "title_year");
    let genres = column_index(&table.headers, "genres");
    let director_name = column_index(&table.headers, "director_name");
    let actor_1_name = column_index(&table.headers, "actor_1_name");
    let actor_2_name = column_index(&table.headers, "actor_2_name");
    let actor_3_name = column_index(&table.headers, "actor_3_name");
    let imdb_score = column_index(&table.headers, "imdb_score");
    let plot_keywords = column_index(&table.headers, "plot_keywords");
    let movie_imdb_link = column_index(&table.headers, "movie_imdb_link");
    let language = column_index(&table.headers, "language");
    let country = column_index(&table.headers, "country");
    let mut rows: Vec<MovieRow> = Vec::new();
    let mut k: usize = 0;
    while k < table.records.len()
        invariant
            k <= table.records.len(),
            rows.len() == k,
            hs == views(table.headers@),
            opt_int(title) == column_of(hs, "movie_title"@),
            opt_int(title_year) == column_of(hs, "title_year"@),
            opt_int(genres) == column_of(hs, "genres"@),
            opt_int(director_name) == column_of(hs, "director_name"@),
            opt_int(actor_1_name) == column_of(hs, "actor_1_name"@),
            opt_int(actor_2_name) == column_of(hs, "actor_2_name"@),
            opt_int(actor_3_name) == column_of(hs, "actor_3_name"@),
            opt_int(imdb_score) == column_of(hs, "imdb_score"@),
            opt_int(plot_keywords) == column_of(hs, "plot_keywords"@),
            opt_int(movie_imdb_link) == column_of(hs, "movie_imdb_link"@),
            opt_int(language) == column_of(hs, "language"@),
            opt_int(country) == column_of(hs, "country"@),
            forall|j: int|
                0 <= j < k ==> row_of(#[trigger] rows@[j], hs, views(table.records@[j]@)),
        decreases table.records.len() - k,
    {
        let record = &table.records[k];
        let row = MovieRow {
            title: cell_at(record, title),
            title_year: cell_at(record, title_year),
            genres: cell_at(record, genres),
            director_name: cell_at(record, director_name),
            actor_1_name: cell_at(record, actor_1_name),
            actor_2_name: cell_at(record, actor_2_name),
            actor_3_name: cell_at(record, actor_3_name),
            imdb_score: cell_at(record, imdb_score),
            plot_keywords: cell_at(record, plot_keywords),
            movie_imdb_link: cell_at(record, movie_imdb_link),
            language: cell_at(record, language),
            country: cell_at(record, country),
        };
        rows.push(row);
        k += 1;
    }
    proof {
        assert forall|j: int| 0 <= j < rows.len() implies row_of(
            #[trigger] rows@[j],
            csv_parse(bytes@)->Some_0.0,
            csv_parse(bytes@)->Some_0.1[j],
        ) by {
            assert(record_views(table.records@)[j] == views(table.records@[j]@));
        }
    }
    Ok(rows)
}

} // verus!

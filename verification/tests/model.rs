use movie_search_backend::{clean, read_movie_rows, Movie};

const HEADERS: &str = "movie_title,title_year,genres,director_name,actor_1_name,actor_2_name,actor_3_name,imdb_score,plot_keywords,movie_imdb_link,language,country";

fn csv_bytes(rows: &[&str]) -> Vec<u8> {
    let mut content = String::from(HEADERS);
    content.push('\n');
    for r in rows {
        content.push_str(r);
        content.push('\n');
    }
    content.into_bytes()
}

fn number(cell: &Option<String>) -> Option<f64> {
    cell.as_deref().and_then(clean).and_then(|s| s.parse::<f64>().ok())
}

/// The movies of a CSV table, read as the server reads its data file.
fn load_movies(bytes: &[u8]) -> Vec<Movie> {
    let rows = read_movie_rows(bytes).ok().unwrap();
    rows.iter()
        .enumerate()
        .map(|(i, row)| {
            let year = number(&row.title_year).map(|v| v as i64);
            let score = number(&row.imdb_score).map(|v| v.to_bits());
            Movie::from_row(i, row, year, score)
        })
        .collect()
}

fn score(m: &Movie) -> Option<f64> {
    m.imdb_score_bits.map(f64::from_bits)
}

#[test]
fn loads_rows_and_assigns_ids() {
    let bytes = csv_bytes(&[
        "Inception,2010,Action|Sci-Fi,Christopher Nolan,Leonardo DiCaprio,,,8.8,dream|heist,http://tt1375666/,English,USA",
        "The Matrix,1999,Action|Sci-Fi,Lana Wachowski,Keanu Reeves,,,8.7,virtual|reality,http://tt0133093/,English,USA",
    ]);
    let movies = load_movies(&bytes);

    assert_eq!(movies.len(), 2);
    assert_eq!(movies[0].id, 0);
    assert_eq!(movies[0].title, "Inception");
    assert_eq!(movies[0].year, Some(2010));
    assert_eq!(movies[0].genres, vec!["Action", "Sci-Fi"]);
    assert_eq!(movies[0].director, "Christopher Nolan");
    assert_eq!(movies[0].actors, vec!["Leonardo DiCaprio"]);
    assert_eq!(score(&movies[0]), Some(8.8));
    assert_eq!(movies[0].plot_keywords, vec!["dream", "heist"]);
    assert_eq!(movies[0].link, "http://tt1375666/");
}

#[test]
fn empty_and_nan_fields_are_handled_without_panic() {
    let bytes = csv_bytes(&[
        "Pulp Fiction,1994,Crime,,,,,8.9,,,English,USA",
        "NaN,NaN,NaN,NaN,NaN,NaN,NaN,NaN,NaN,NaN,NaN,NaN",
    ]);
    let movies = load_movies(&bytes);

    assert_eq!(movies.len(), 2);
    assert_eq!(movies[1].title, "Movie 1");
    assert_eq!(movies[1].year, None);
    assert!(movies[1].genres.is_empty());
    assert!(movies[1].actors.is_empty());
    assert_eq!(score(&movies[1]), None);
    assert!(movies[1].plot_keywords.is_empty());
    assert_eq!(movies[1].language, "");
    assert_eq!(movies[1].country, "");
}

#[test]
fn embed_text_joins_fields() {
    let bytes = csv_bytes(&[
        "Inception,2010,Action|Sci-Fi,Christopher Nolan,Leonardo DiCaprio,,,8.8,dream|heist,http://tt1375666/,English,USA",
    ]);
    let movies = load_movies(&bytes);

    let text = movies[0].embed_text();
    assert!(text.contains("Inception"));
    assert!(text.contains("genres: Action, Sci-Fi"));
    assert!(text.contains("director: Christopher Nolan"));
    assert!(text.contains("cast: Leonardo DiCaprio"));
    assert!(text.contains("keywords: dream, heist"));
}

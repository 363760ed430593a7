use movie_search_backend::cache::cache_fits;
use movie_search_backend::fusion::{fused_ranking, fusion_groups};
use movie_search_backend::order::{rank_order, similarity_key, top_ranked};
use movie_search_backend::search::{
    clamp_limit, page_of, plan_search, results_for, search_outcome, search_window, suggest_limit,
    SearchPlan,
};
use movie_search_backend::suggest::score_key;
use movie_search_backend::text::trim_str;
use movie_search_backend::{
    clean, read_movie_rows, sanitize_query, split_pipe, suggest, LoadError, Movie, MovieRow,
    SuggestionKind,
};

fn movie(id: usize, title: &str, score: Option<f64>, keywords: &[&str]) -> Movie {
    Movie {
        id,
        title: title.to_string(),
        year: None,
        genres: vec![],
        director: String::new(),
        actors: vec![],
        imdb_score_bits: score.map(|s| s.to_bits()),
        plot_keywords: keywords.iter().map(|k| k.to_string()).collect(),
        link: String::new(),
        language: String::new(),
        country: String::new(),
    }
}

fn texts(s: &[movie_search_backend::Suggestion]) -> Vec<(SuggestionKind, String)> {
    s.iter().map(|x| (x.kind, x.text.clone())).collect()
}

#[test]
fn clean_trims_and_drops_placeholders() {
    assert_eq!(clean("  Avatar  "), Some("Avatar".to_string()));
    assert_eq!(clean(""), None);
    assert_eq!(clean("   "), None);
    assert_eq!(clean(" NaN "), None);
    assert_eq!(clean("nan"), None);
    assert_eq!(clean("NULL"), None);
    assert_eq!(clean("NAN"), Some("NAN".to_string()));
    assert_eq!(clean("N/A"), Some("N/A".to_string()));
}

#[test]
fn clean_is_idempotent_on_examples() {
    for raw in ["  x y ", "\tNaN\n", "a", "  NULLx "] {
        if let Some(t) = clean(raw) {
            assert_eq!(clean(&t), Some(t.clone()));
        }
    }
}

#[test]
fn split_pipe_drops_empty_items_and_placeholders() {
    assert_eq!(split_pipe("Action|Sci-Fi"), vec!["Action", "Sci-Fi"]);
    assert_eq!(split_pipe(" a | b ||nan|NULL|N/A|NAN|nAn| c"), vec!["a", "b", "c"]);
    assert!(split_pipe("").is_empty());
    assert!(split_pipe("|||").is_empty());
    assert_eq!(split_pipe("single"), vec!["single"]);
}

#[test]
fn trim_uses_unicode_whitespace() {
    assert_eq!(trim_str("\u{3000} x y\t\n"), "x y");
    assert_eq!(trim_str(""), "");
}

#[test]
fn sanitize_is_idempotent_on_examples() {
    for raw in ["star+: wars", "!!!", "  ", " (a) ", "münchen*", "::"] {
        let once = sanitize_query(raw);
        assert_eq!(sanitize_query(&once), once);
    }
}

#[test]
fn sanitize_is_empty_only_for_whitespace() {
    assert_eq!(sanitize_query(" \t "), "");
    assert_eq!(sanitize_query(" :: "), "::");
    assert_eq!(sanitize_query("a_b-c"), "a_b-c");
}

#[test]
fn rank_order_is_descending_and_stable() {
    assert_eq!(rank_order(&vec![5, 7, 5, 9]), vec![3, 1, 0, 2]);
    assert_eq!(rank_order(&vec![]), Vec::<usize>::new());
    assert_eq!(rank_order(&vec![1, 1, 1]), vec![0, 1, 2]);
}

#[test]
fn fusion_groups_gather_ranks_in_first_appearance_order() {
    let (ids, ranks) = fusion_groups(&vec![vec![1, 2], vec![2, 3, 1]]);
    assert_eq!(ids, vec![1, 2, 3]);
    assert_eq!(ranks, vec![vec![0, 2], vec![1, 0], vec![1]]);
    let (ids, ranks) = fusion_groups(&vec![vec![4, 4]]);
    assert_eq!(ids, vec![4]);
    assert_eq!(ranks, vec![vec![0, 1]]);
}

#[test]
fn fused_ranking_orders_by_key_then_first_appearance() {
    let r = fused_ranking(&vec![10, 11, 12], &vec![3, 8, 8]);
    assert_eq!(r, vec![(11, 8), (12, 8), (10, 3)]);
}

#[test]
fn pages_of_the_fused_ranking() {
    let fused: Vec<(usize, u64)> = (0..5).map(|i| (i * 10, 100 - i as u64)).collect();
    assert_eq!(page_of(&fused, 2, 1), (vec![10, 20], 5));
    assert_eq!(page_of(&fused, 10, 3), (vec![30, 40], 5));
    assert_eq!(page_of(&fused, 2, 10), (vec![], 5));
    let (a, _) = page_of(&fused, 2, 0);
    let (b, _) = page_of(&fused, 3, 2);
    let (ab, _) = page_of(&fused, 5, 0);
    assert_eq!([a, b].concat(), ab);
}

#[test]
fn search_plan_fetches_four_times_the_page() {
    match plan_search("star+: wars", 20, 10) {
        SearchPlan::Retrieve { query, candidates } => {
            assert_eq!(query, "star wars");
            assert_eq!(candidates, 120);
        }
        SearchPlan::Nothing => panic!("expected a retrieval"),
    }
    assert!(matches!(plan_search("   ", 20, 0), SearchPlan::Nothing));
}

#[test]
fn request_limits_are_clamped() {
    assert_eq!(search_window(None, None), (20, 0));
    assert_eq!(search_window(Some(0), Some(7)), (1, 7));
    assert_eq!(search_window(Some(500), None), (100, 0));
    assert_eq!(suggest_limit(None), 8);
    assert_eq!(suggest_limit(Some(50)), 20);
    assert_eq!(clamp_limit(Some(3), 8, 20), 3);
}

#[test]
fn results_skip_unknown_ids() {
    let movies = vec![movie(0, "A", Some(7.0), &[]), movie(1, "B", None, &[])];
    let r = results_for(&movies, &vec![1, 5, 0]);
    let titles: Vec<&str> = r.iter().map(|m| m.title.as_str()).collect();
    assert_eq!(titles, vec!["B", "A"]);
    assert_eq!(r[1].imdb_score_bits, Some(7.0f64.to_bits()));
}

#[test]
fn score_keys_order_as_scores() {
    let k = |x: f64| score_key(Some(x.to_bits()));
    assert!(k(-1.5) < k(-0.5));
    assert!(k(-0.5) < k(0.0));
    assert!(k(0.0) < k(0.1));
    assert!(k(7.9) < k(8.8));
    assert_eq!(k(-0.0), k(0.0));
    assert_eq!(score_key(None), k(0.0));
}

#[test]
fn suggest_titles_by_score_then_distinct_keywords() {
    let movies = vec![
        movie(0, " Star Trek ", Some(7.0), &["space", "Starship"]),
        movie(1, "Star Wars", Some(8.6), &["STARSHIP", "rebel"]),
        movie(2, "Stardust", None, &["fairy star"]),
        movie(3, "Alien", Some(8.5), &["space"]),
    ];
    let got = texts(&suggest(&movies, "  STAR ", 8));
    assert_eq!(
        got,
        vec![
            (SuggestionKind::Title, "Star Wars".to_string()),
            (SuggestionKind::Title, "Star Trek".to_string()),
            (SuggestionKind::Title, "Stardust".to_string()),
            (SuggestionKind::Keyword, "Starship".to_string()),
            (SuggestionKind::Keyword, "fairy star".to_string()),
        ]
    );
}

#[test]
fn suggest_respects_the_limit_and_empty_queries() {
    let movies = vec![
        movie(0, "Alpha", Some(5.0), &["alpine", "alps"]),
        movie(1, "Alps", Some(6.0), &["alpha"]),
    ];
    let got = texts(&suggest(&movies, "al", 1));
    assert_eq!(got, vec![(SuggestionKind::Title, "Alps".to_string())]);
    let got = texts(&suggest(&movies, "alp", 3));
    assert_eq!(got.len(), 3);
    assert_eq!(got[2], (SuggestionKind::Keyword, "alpine".to_string()));
    assert!(suggest(&movies, "   ", 8).is_empty());
    assert!(suggest(&movies, "zzz", 8).is_empty());
}

#[test]
fn cache_fits_one_nonempty_vector_per_movie() {
    assert!(cache_fits(2, &vec![384, 384]));
    assert!(!cache_fits(3, &vec![384, 384]));
    assert!(!cache_fits(2, &vec![384, 0]));
    assert!(cache_fits(0, &vec![]));
}

#[test]
fn rows_follow_header_names() {
    let bytes = b"imdb_score,movie_title,extra\n7.5,  Heat ,x\n".to_vec();
    let rows: Vec<MovieRow> = read_movie_rows(&bytes).ok().unwrap();
    assert_eq!(rows.len(), 1);
    assert_eq!(rows[0].title.as_deref(), Some("  Heat "));
    assert_eq!(rows[0].imdb_score.as_deref(), Some("7.5"));
    assert_eq!(rows[0].genres, None);
    let m = Movie::from_row(105, &rows[0], None, None);
    assert_eq!(m.title, "Heat");
    assert!(m.genres.is_empty());
    assert_eq!(m.embed_text(), "Heat");
}

#[test]
fn missing_title_falls_back_to_the_record_number() {
    let row = MovieRow {
        title: Some("NULL".to_string()),
        title_year: None,
        genres: Some("Drama".to_string()),
        director_name: None,
        actor_1_name: Some(" A ".to_string()),
        actor_2_name: Some("nan".to_string()),
        actor_3_name: Some("C".to_string()),
        imdb_score: None,
        plot_keywords: None,
        movie_imdb_link: None,
        language: None,
        country: None,
    };
    let m = Movie::from_row(105, &row, Some(1999), None);
    assert_eq!(m.title, "Movie 105");
    assert_eq!(m.actors, vec!["A", "C"]);
    assert_eq!(m.embed_text(), "Movie 105 | genres: Drama | cast: A, C");
}

#[test]
fn malformed_csv_is_an_error() {
    let bytes = b"movie_title,genres\nA,B,C\n".to_vec();
    assert!(matches!(read_movie_rows(&bytes), Err(LoadError::Csv(_))));
}

#[test]
fn unicode_whitespace_is_trimmed() {
    assert_eq!(trim_str("  "), "");
    assert_eq!(trim_str("\u{85}\u{a0}\u{1680}\u{2000}\u{200a}\u{2028}\u{2029}\u{202f}\u{205f}\u{3000}x\u{b}\u{c}\r"), "x");
    assert_eq!(trim_str("\u{200b}x"), "\u{200b}x");
}

#[test]
fn blank_queries_suggest_nothing_for_any_limit() {
    let movies = vec![movie(0, "Alpha", Some(5.0), &["alpine"])];
    assert!(suggest(&movies, " \t ", usize::MAX).is_empty());
    assert!(suggest(&movies, "", 0).is_empty());
    assert_eq!(suggest(&movies, "al", usize::MAX).len(), 2);
}

#[test]
fn split_pipe_of_joined_cells_concatenates() {
    for (a, b) in [("x| y", "NaN |z"), ("", ""), ("a|", "|b"), (" N/A ", "q")] {
        let joined = format!("{a}|{b}");
        assert_eq!(split_pipe(&joined), [split_pipe(a), split_pipe(b)].concat());
    }
}

#[test]
fn similarity_ranking_keeps_the_best() {
    let scores = [0.2f32, -0.5, 0.9, 0.2, -0.0, 0.0];
    let keys: Vec<u64> = scores.iter().map(|s| similarity_key(s.to_bits())).collect();
    assert_eq!(top_ranked(&keys, 3), vec![2, 0, 3]);
    assert_eq!(top_ranked(&keys, 10), vec![2, 0, 3, 4, 5, 1]);
    assert_eq!(top_ranked(&keys, 0), Vec::<usize>::new());
}

#[test]
fn suggest_ignores_case_and_surrounding_whitespace() {
    let movies = vec![
        movie(0, " Star Trek ", Some(7.0), &["space", "Starship"]),
        movie(1, "Star Wars", Some(8.6), &["STARSHIP", "rebel"]),
    ];
    for limit in [0, 1, 3, 8] {
        let plain = texts(&suggest(&movies, "star", limit));
        assert_eq!(texts(&suggest(&movies, "\t StAr  ", limit)), plain);
        assert_eq!(texts(&suggest(&movies, "STAR", limit)), plain);
    }
}

#[test]
fn search_outcome_is_empty_without_hits() {
    let movies = vec![movie(0, "Alien", Some(8.5), &[]), movie(1, "Heat", Some(8.3), &[])];
    let (results, total) = search_outcome(&movies, None);
    assert!(results.is_empty());
    assert_eq!(total, 0);
    let (results, total) = search_outcome(&movies, Some((vec![1, 7, 0], 12)));
    assert_eq!(total, 12);
    let titles: Vec<String> = results.iter().map(|r| r.title.clone()).collect();
    assert_eq!(titles, vec!["Heat".to_string(), "Alien".to_string()]);
}

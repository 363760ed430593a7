use movie_search_backend::fulltext::{movie_document, FullTextIndex};
use movie_search_backend::Movie;
use tantivy::collector::Count;
use tantivy::query::QueryParser;

fn movie(id: usize, title: &str, genres: &[&str], keywords: &[&str]) -> Movie {
    Movie {
        id,
        title: title.to_string(),
        year: None,
        genres: genres.iter().map(|g| g.to_string()).collect(),
        director: "Someone".to_string(),
        actors: vec!["A B".to_string(), "C".to_string()],
        imdb_score_bits: None,
        plot_keywords: keywords.iter().map(|k| k.to_string()).collect(),
        link: String::new(),
        language: String::new(),
        country: String::new(),
    }
}

#[test]
fn movie_document_joins_lists_with_spaces() {
    let d = movie_document(&movie(7, "Inception", &["Action", "Sci-Fi"], &["dream", "heist"]));
    assert_eq!(d.title, "Inception");
    assert_eq!(d.genres, "Action Sci-Fi");
    assert_eq!(d.director, "Someone");
    assert_eq!(d.actors, "A B C");
    assert_eq!(d.keywords, "dream heist");
    assert_eq!(d.movie_id, 7);
}

#[test]
fn full_text_index_holds_one_document_per_movie() {
    let movies = vec![
        movie(0, "Inception", &["Action"], &["dream"]),
        movie(1, "The Matrix", &["Action", "Sci-Fi"], &["virtual", "reality"]),
    ];
    let ft = FullTextIndex::build(&movies).ok().unwrap();
    assert_eq!(ft.fields.len(), 5);
    for (k, f) in ft.fields.iter().enumerate() {
        assert_eq!(f.field_id() as usize, k);
    }
    assert_eq!(ft.movie_id_field.field_id(), 5);
    let searcher = ft.reader.searcher();
    assert_eq!(searcher.num_docs(), 2);
    let parser = QueryParser::for_index(&ft.index, ft.fields.clone());
    let count = |q: &str| searcher.search(&parser.parse_query(q).unwrap(), &Count).unwrap();
    assert_eq!(count("inception"), 1);
    assert_eq!(count("action"), 2);
    assert_eq!(count("reality"), 1);
    assert_eq!(count("someone"), 2);
}

#[test]
fn full_text_fields_are_tokenized_and_indexed() {
    let ft = FullTextIndex::build(&[movie(3, "Heat", &["Crime"], &["heist"])]).ok().unwrap();
    let schema = ft.index.schema();
    let names: Vec<String> = schema.fields().map(|(_, e)| e.name().to_string()).collect();
    assert_eq!(
        names,
        vec!["movie_title", "genres", "director_name", "actors", "plot_keywords", "movie_id"]
    );
    for f in &ft.fields {
        let entry = schema.get_field_entry(*f);
        assert!(entry.is_indexed());
        assert!(!entry.is_stored());
        let options = match entry.field_type() {
            tantivy::schema::FieldType::Str(o) => o.clone(),
            _ => panic!("not a text field"),
        };
        let indexing = options.get_indexing_options().unwrap();
        assert_eq!(indexing.tokenizer(), "default");
        assert!(indexing.fieldnorms());
        assert_eq!(indexing.index_option(), tantivy::schema::IndexRecordOption::WithFreqsAndPositions);
    }
    assert!(schema.get_field_entry(ft.movie_id_field).is_indexed());
    let parser = QueryParser::for_index(&ft.index, vec![ft.movie_id_field]);
    let searcher = ft.reader.searcher();
    assert_eq!(searcher.search(&parser.parse_query("3").unwrap(), &Count).unwrap(), 1);
}

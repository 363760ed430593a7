//! Verified core of a movie search engine: query sanitising, record cleaning,
//! reciprocal-rank fusion, ranking, pagination and autocomplete.
use vstd::prelude::*;

pub mod text;
pub mod model;
pub mod query;
pub mod order;
pub mod dataset;
pub mod fusion;
pub mod search;
pub mod suggest;
pub mod cache;
pub mod fulltext;

pub use dataset::{read_movie_rows, LoadError};
pub use model::{clean, split_pipe, Movie, MovieResult, MovieRow};
pub use query::sanitize_query;
pub use suggest::{suggest, Suggestion, SuggestionKind};

# movie_search_backend

A movie search engine over the IMDB 5000-movie dataset: BM25 full-text search
and semantic embeddings fused by reciprocal rank fusion, with autocomplete and
pagination, served over HTTP.

- `src/` is the verified library: text helpers (`text`), record cleaning and
  the movie types (`model`), query sanitising (`query`), stable ranking by
  integer keys (`order`), CSV reading by header name (`dataset`), rank fusion
  (`fusion`), request parameters and pagination (`search`), autocomplete
  (`suggest`), the embedding-cache check (`cache`) and the Tantivy index
  build (`fulltext`).
- `app/` is the server: CSV file loading, BM25 search and the fastembed
  index (their scores are floating point), the fusion scores, JSON and HTTP.
- `tests/` exercises the library.

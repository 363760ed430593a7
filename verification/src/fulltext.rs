//! Building the full-text (BM25) index over the movies with Tantivy: one
//! document per movie holding its title, genres, director, actors and plot
//! keywords as text, and its id as a number.
use vstd::prelude::*;
use vstd::multiset::Multiset;
use std::sync::Arc;
use tantivy::schema::{Field, NumericOptions, Schema, SchemaBuilder, TextOptions, TEXT};
use tantivy::{Index, IndexReader, IndexWriter, TantivyDocument, TantivyError};
use crate::model::{views, Movie};
use crate::text::{join, join_strings};

verus! {

#[verifier::external_type_specification]
#[verifier::external_body]
pub struct ExField(Field);

#[verifier::external_type_specification]
#[verifier::external_body]
pub struct ExSchemaBuilder(SchemaBuilder);

#[verifier::external_type_specification]
#[verifier::external_body]
pub struct ExSchema(Schema);

#[verifier::external_type_specification]
#[verifier::external_body]
pub struct ExTextOptions(TextOptions);

#[verifier::external_type_specification]
#[verifier::external_body]
pub struct ExNumericOptions(NumericOptions);

#[verifier::external_type_specification]
#[verifier::external_body]
pub struct ExIndex(Index);

#[verifier::external_type_specification]
#[verifier::external_body]
pub struct ExIndexReader(IndexReader);

/// A Tantivy index writer for `TantivyDocument`s. (The writer's type is
/// generic over a document trait, which cannot be declared; it is held here.)
#[verifier::external_body]
pub struct DocumentWriter {
    writer: IndexWriter<TantivyDocument>,
}

#[verifier::external_type_specification]
#[verifier::external_body]
pub struct ExTantivyDocument(TantivyDocument);

#[verifier::external_type_specification]
#[verifier::external_body]
pub struct ExTantivyError(TantivyError);

/// The number of a schema field, as `Field::field_id` returns it.
pub uninterp spec fn field_number(f: Field) -> u32;

/// The names of the fields a schema builder holds, in the order they were
/// added.
pub uninterp spec fn builder_field_names(b: SchemaBuilder) -> Seq<Seq<char>>;

/// How a text field is indexed: the tokenizer's name, and whether field
/// norms, term frequencies and term positions are recorded.
pub type TextIndexing = (Seq<char>, bool, bool, bool);

/// The options of a text field: its indexing (`None`: not indexed), and
/// whether it is stored, a fast field, and coerced to text.
pub type TextSpec = (Option<TextIndexing>, bool, bool, bool);

/// The options of a numeric field: whether it is indexed, has field norms,
/// is a fast field, is stored, and is coerced.
pub type NumericSpec = (bool, bool, bool, bool, bool);

/// The type and options of a schema field: a text field's options, or a
/// `u64` field's options.
pub type FieldSpec = (Option<TextSpec>, Option<NumericSpec>);

/// The options a `TextOptions` value holds.
pub uninterp spec fn text_spec(o: TextOptions) -> TextSpec;

/// The options a `NumericOptions` value holds.
pub uninterp spec fn numeric_spec(o: NumericOptions) -> NumericSpec;

/// The types and options of the fields a schema builder holds, in the order
/// they were added.
pub uninterp spec fn builder_field_specs(b: SchemaBuilder) -> Seq<FieldSpec>;

/// The text values of a document, as `(field number, text)` in the order
/// they were added.
pub uninterp spec fn document_texts(d: TantivyDocument) -> Seq<(u32, Seq<char>)>;

/// The `u64` values of a document, as `(field number, value)` in the order
/// they were added.
pub uninterp spec fn document_numbers(d: TantivyDocument) -> Seq<(u32, u64)>;

/// A document as its text values, `(field number, text)`, and its `u64`
/// values, `(field number, value)`.
pub type IndexedDoc = (Seq<(u32, Seq<char>)>, Seq<(u32, u64)>);

/// No documents.
pub open spec fn no_documents() -> Multiset<IndexedDoc> {
    Multiset::empty()
}

/// A document as its text values and its `u64` values.
pub open spec fn document_view(d: TantivyDocument) -> IndexedDoc {
    (document_texts(d), document_numbers(d))
}

/// The field names of a schema, in field-number order.
pub uninterp spec fn schema_field_names(s: Schema) -> Seq<Seq<char>>;

/// The types and options of a schema's fields, in field-number order.
pub uninterp spec fn schema_field_specs(s: Schema) -> Seq<FieldSpec>;

/// The schema an index was created with.
pub uninterp spec fn index_schema(i: Index) -> Schema;

/// The documents committed to an index, as of the latest change made through
/// this handle. Every commit in this library is made through the handle
/// (`commit` takes it by `&mut`), so a handle's value changes with each one.
pub uninterp spec fn index_documents(i: Index) -> Multiset<IndexedDoc>;

/// The index a writer writes to.
pub uninterp spec fn writer_index(w: DocumentWriter) -> Index;

/// The number of indexing threads a writer was opened with.
pub uninterp spec fn writer_threads(w: DocumentWriter) -> usize;

/// The memory budget, in bytes, a writer was opened with.
pub uninterp spec fn writer_budget(w: DocumentWriter) -> usize;

/// The documents added to a writer since its last commit.
pub uninterp spec fn pending_documents(w: DocumentWriter) -> Multiset<IndexedDoc>;

/// The index a reader reads.
pub uninterp spec fn reader_index(r: IndexReader) -> Index;

/// The documents a reader's searcher held when the reader was opened.
pub uninterp spec fn reader_documents(r: IndexReader) -> Multiset<IndexedDoc>;

/// Whether a reader reloads itself shortly after each commit
/// (`ReloadPolicy::OnCommitWithDelay`).
pub uninterp spec fn reader_reloads_on_commit(r: IndexReader) -> bool;

/// `Schema::builder`: the builder starts with no fields.
#[verifier::external_body]
fn new_schema_builder() -> (b: SchemaBuilder)
    ensures
        builder_field_names(b) == Seq::<Seq<char>>::empty(),
        builder_field_specs(b) == Seq::<FieldSpec>::empty(),
{
    Schema::builder()
}

/// Tantivy's rule for a field name: at least one character, and not
/// starting with `-`.
pub open spec fn valid_field_name(name: Seq<char>) -> bool {
    name.len() > 0 && name[0] != '-'
}

/// `SchemaBuilder::add_text_field`: appends a field named `name` and returns
/// it; its number is the number of fields added before it. The builder
/// panics on an invalid name and on a name it already holds, and the number
/// is the field count cast to `u32`, hence the requirements.
#[verifier::external_body]
fn add_text_field(b: &mut SchemaBuilder, name: &str, options: TextOptions) -> (f: Field)
    requires
        valid_field_name(name@),
        !builder_field_names(*old(b)).contains(name@),
        builder_field_names(*old(b)).len() < u32::MAX,
    ensures
        builder_field_names(*final(b)) == builder_field_names(*old(b)).push(name@),
        builder_field_specs(*final(b)) == builder_field_specs(*old(b)).push((Some(text_spec(options)), None)),
        field_number(f) == builder_field_names(*old(b)).len(),
{
    b.add_text_field(name, options)
}

/// `SchemaBuilder::add_u64_field`: as `add_text_field`, for a `u64` field.
#[verifier::external_body]
fn add_u64_field(b: &mut SchemaBuilder, name: &str, options: NumericOptions) -> (f: Field)
    requires
        valid_field_name(name@),
        !builder_field_names(*old(b)).contains(name@),
        builder_field_names(*old(b)).len() < u32::MAX,
    ensures
        builder_field_names(*final(b)) == builder_field_names(*old(b)).push(name@),
        builder_field_specs(*final(b)) == builder_field_specs(*old(b)).push((None, Some(numeric_spec(options)))),
        field_number(f) == builder_field_names(*old(b)).len(),
{
    b.add_u64_field(name, options)
}

/// `schema::TEXT`: indexed with the `default` tokenizer, recording field
/// norms, term frequencies and positions; not stored, not fast, not coerced.
#[verifier::external_body]
fn text_options() -> (o: TextOptions)
    ensures
        text_spec(o) == (Some(("default"@, true, true, true)), false, false, false),
{
    TEXT
}

/// `NumericOptions::default`: every option off.
#[verifier::external_body]
fn numeric_options() -> (o: NumericOptions)
    ensures
        numeric_spec(o) == (false, false, false, false, false),
{
    NumericOptions::default()
}

/// `NumericOptions::set_indexed`: the same options, with the field indexed.
#[verifier::external_body]
fn set_indexed(options: NumericOptions) -> (o: NumericOptions)
    ensures
        numeric_spec(o) == (true, numeric_spec(options).1, numeric_spec(options).2, numeric_spec(options).3, numeric_spec(options).4),
{
    options.set_indexed()
}

/// `SchemaBuilder::build`: a schema with the builder's fields, in order.
#[verifier::external_body]
fn build_schema(b: SchemaBuilder) -> (s: Schema)
    ensures
        schema_field_names(s) == builder_field_names(b),
        schema_field_specs(s) == builder_field_specs(b),
{
    b.build()
}

/// `Index::create_in_ram`: a new index over `schema`, held in memory, with
/// no documents.
#[verifier::external_body]
fn create_in_ram(schema: Schema) -> (i: Index)
    ensures
        index_schema(i) == schema,
        index_documents(i) == no_documents(),
{
    Index::create_in_ram(schema)
}

/// `Index::writer_with_num_threads`: a writer for `index`, with `num_threads`
/// indexing threads sharing `memory_budget` bytes, and nothing pending. The
/// budget is divided by the thread count, hence the requirement. Nothing is
/// claimed on failure.
#[verifier::external_body]
fn open_writer(index: &Index, num_threads: usize, memory_budget: usize) -> (r: Result<DocumentWriter, TantivyError>)
    requires
        num_threads > 0,
    ensures
        r matches Ok(w) ==> {
            &&& writer_index(w) == *index
            &&& writer_threads(w) == num_threads
            &&& writer_budget(w) == memory_budget
            &&& pending_documents(w) == no_documents()
        },
{
    index.writer_with_num_threads(num_threads, memory_budget).map(|writer| DocumentWriter { writer })
}

/// `TantivyDocument::new`: a document with no values.
#[verifier::external_body]
fn new_document() -> (d: TantivyDocument)
    ensures
        document_texts(d) == Seq::<(u32, Seq<char>)>::empty(),
        document_numbers(d) == Seq::<(u32, u64)>::empty(),
{
    TantivyDocument::new()
}

/// `TantivyDocument::add_text`: appends a text value for `field`. The
/// document stores field numbers as `u16` and panics beyond.
#[verifier::external_body]
fn add_text(d: &mut TantivyDocument, field: Field, text: &str)
    requires
        field_number(field) <= 0xffff,
    ensures
        document_texts(*final(d)) == document_texts(*old(d)).push((field_number(field), text@)),
        document_numbers(*final(d)) == document_numbers(*old(d)),
{
    d.add_text(field, text)
}

/// `TantivyDocument::add_u64`: appends a `u64` value for `field`. The
/// document stores field numbers as `u16` and panics beyond.
#[verifier::external_body]
fn add_u64(d: &mut TantivyDocument, field: Field, value: u64)
    requires
        field_number(field) <= 0xffff,
    ensures
        document_numbers(*final(d)) == document_numbers(*old(d)).push((field_number(field), value)),
        document_texts(*final(d)) == document_texts(*old(d)),
{
    d.add_u64(field, value)
}

/// `IndexWriter::add_document`: queues `d` for the next commit. On success
/// the document is pending; the writer's index and settings stay. Nothing is
/// claimed on failure.
#[verifier::external_body]
fn add_document(w: &mut DocumentWriter, d: TantivyDocument) -> (r: Result<(), TantivyError>)
    ensures
        r is Ok ==> {
            &&& pending_documents(*final(w)) == pending_documents(*old(w)).insert(document_view(d))
            &&& writer_index(*final(w)) == writer_index(*old(w))
            &&& writer_threads(*final(w)) == writer_threads(*old(w))
            &&& writer_budget(*final(w)) == writer_budget(*old(w))
        },
{
    w.writer.add_document(d).map(|_| ())
}

/// `IndexWriter::commit`, for a writer of `index`: on success the pending
/// documents join those committed to the index and none is pending; the
/// index keeps its schema and the writer its settings. Nothing is claimed on
/// failure. The handle is taken by `&mut` because the commit changes what it
/// refers to.
#[verifier::external_body]
fn commit(w: &mut DocumentWriter, index: &mut Index) -> (r: Result<(), TantivyError>)
    requires
        writer_index(*old(w)) == *old(index),
    ensures
        r is Ok ==> {
            &&& pending_documents(*final(w)) == no_documents()
            &&& index_documents(*final(index)) == index_documents(*old(index)).add(pending_documents(*old(w)))
            &&& index_schema(*final(index)) == index_schema(*old(index))
            &&& writer_index(*final(w)) == *final(index)
            &&& writer_threads(*final(w)) == writer_threads(*old(w))
            &&& writer_budget(*final(w)) == writer_budget(*old(w))
        },
{
    let _ = &index;
    w.writer.commit().map(|_| ())
}

/// `Index::reader`: a reader of `index`, which reloads shortly after each
/// commit (its default policy) and, when opened, holds the documents
/// committed to the index. Nothing is claimed on failure.
#[verifier::external_body]
fn open_reader(index: &Index) -> (r: Result<IndexReader, TantivyError>)
    ensures
        r matches Ok(rd) ==> {
            &&& reader_index(rd) == *index
            &&& reader_documents(rd) == index_documents(*index)
            &&& reader_reloads_on_commit(rd)
        },
{
    index.reader()
}

/// The text of a movie that the index holds: title, genres joined by
/// spaces, director, actors joined by spaces, plot keywords joined by
/// spaces, and the movie id.
pub struct MovieDocument {
    pub title: String,
    pub genres: String,
    pub director: String,
    pub actors: String,
    pub keywords: String,
    pub movie_id: u64,
}

/// The indexed text of a movie.
pub open spec fn document_of(m: Movie) -> (Seq<char>, Seq<char>, Seq<char>, Seq<char>, Seq<char>, u64) {
    (
        m.title@,
        join(views(m.genres@), " "@),
        m.director@,
        join(views(m.actors@), " "@),
        join(views(m.plot_keywords@), " "@),
        m.id as u64,
    )
}

/// The indexed document of a movie: its texts under fields 0 to 4 (title,
/// genres, director, actors, plot keywords) and its id under field 5.
pub open spec fn indexed_document(m: Movie) -> IndexedDoc {
    let d = document_of(m);
    (seq![(0u32, d.0), (1u32, d.1), (2u32, d.2), (3u32, d.3), (4u32, d.4)], seq![(5u32, d.5)])
}

/// The indexed text of a movie.
pub fn movie_document(m: &Movie) -> (d: MovieDocument)
    ensures
        (d.title@, d.genres@, d.director@, d.actors@, d.keywords@, d.movie_id) == document_of(*m),
{
    MovieDocument {
        title: m.title.clone(),
        genres: join_strings(&m.genres, " "),
        director: m.director.clone(),
        actors: join_strings(&m.actors, " "),
        keywords: join_strings(&m.plot_keywords, " "),
        movie_id: m.id as u64,
    }
}

/// The names of the index's fields: the five text fields, then the movie id.
pub open spec fn index_field_names() -> Seq<Seq<char>> {
    seq![
        "movie_title"@,
        "genres"@,
        "director_name"@,
        "actors"@,
        "plot_keywords"@,
        "movie_id"@,
    ]
}

/// The options of a tokenized text field for BM25 search: indexed with the
/// `default` tokenizer, with field norms, term frequencies and positions.
pub open spec fn searchable_text() -> FieldSpec {
    (Some((Some(("default"@, true, true, true)), false, false, false)), None)
}

/// The types and options of the index's fields: five searchable text fields,
/// then an indexed `u64` field.
pub open spec fn index_field_specs() -> Seq<FieldSpec> {
    seq![
        searchable_text(),
        searchable_text(),
        searchable_text(),
        searchable_text(),
        searchable_text(),
        (None, Some((true, false, false, false, false))),
    ]
}

/// The full-text index over the movie fields.
pub struct FullTextIndex {
    pub reader: IndexReader,
    pub index: Arc<Index>,
    /// The text fields: title, genres, director, actors, plot keywords.
    pub fields: Vec<Field>,
    /// The hidden field that recovers the movie id of a document.
    pub movie_id_field: Field,
    /// The writer that built the index, as it stood after its commit.
    pub writer: Ghost<DocumentWriter>,
}

impl FullTextIndex {
    /// Builds the index in memory: a schema with the text fields
    /// `movie_title`, `genres`, `director_name`, `actors`, `plot_keywords` and
    /// the indexed `u64` field `movie_id`, then one committed document per
    /// movie, written with 4 threads and a 64 MiB budget.
    pub fn build(movies: &[Movie]) -> (r: Result<FullTextIndex, TantivyError>)
        ensures
            r matches Ok(ft) ==> {
                &&& index_documents(*ft.index) == movies@.map_values(|m: Movie| indexed_document(m)).to_multiset()
                &&& schema_field_names(index_schema(*ft.index)) == index_field_names()
                &&& schema_field_specs(index_schema(*ft.index)) == index_field_specs()
                &&& reader_reloads_on_commit(ft.reader)
                &&& reader_index(ft.reader) == *ft.index
                &&& reader_documents(ft.reader) == index_documents(*ft.index)
                &&& writer_index(ft.writer@) == *ft.index
                &&& writer_threads(ft.writer@) == 4
                &&& writer_budget(ft.writer@) == 64 * 1024 * 1024
                &&& ft.fields.len() == 5
                &&& forall|k: int| 0 <= k < 5 ==> field_number(#[trigger] ft.fields@[k]) == k
                &&& field_number(ft.movie_id_field) == 5
            },
    {
        let mut builder = new_schema_builder();
        proof {
            reveal_strlit("movie_title");
            reveal_strlit("genres");
            reveal_strlit("director_name");
            reveal_strlit("actors");
            reveal_strlit("plot_keywords");
            reveal_strlit("movie_id");
        }
        let title = add_text_field(&mut builder, "movie_title", text_options());
        assert(!seq!["movie_title"@].contains("genres"@)) by {
            assert("movie_title"@[0] != "genres"@[0]);
        }
        let genres = add_text_field(&mut builder, "genres", text_options());
        assert(!seq!["movie_title"@, "genres"@].contains("director_name"@)) by {
            assert("movie_title"@[0] != "director_name"@[0]);
            assert("genres"@[0] != "director_name"@[0]);
        }
        let director = add_text_field(&mut builder, "director_name", text_options());
        assert(!seq!["movie_title"@, "genres"@, "director_name"@].contains("actors"@)) by {
            assert("movie_title"@[0] != "actors"@[0]);
            assert("genres"@[0] != "actors"@[0]);
            assert("director_name"@[0] != "actors"@[0]);
        }
        let actors = add_text_field(&mut builder, "actors", text_options());
        assert(!seq!["movie_title"@, "genres"@, "director_name"@, "actors"@].contains(
            "plot_keywords"@,
        )) by {
            assert("movie_title"@[0] != "plot_keywords"@[0]);
            assert("genres"@[0] != "plot_keywords"@[0]);
            assert("director_name"@[0] != "plot_keywords"@[0]);
            assert("actors"@[0] != "plot_keywords"@[0]);
        }
        let keywords = add_text_field(&mut builder, "plot_keywords", text_options());
        assert(!seq!["movie_title"@, "genres"@, "director_name"@, "actors"@, "plot_keywords"@].contains(
            "movie_id"@,
        )) by {
            assert("movie_title"@[6] != "movie_id"@[6]);
            assert("genres"@[0] != "movie_id"@[0]);
            assert("director_name"@[0] != "movie_id"@[0]);
            assert("actors"@[0] != "movie_id"@[0]);
            assert("plot_keywords"@[0] != "movie_id"@[0]);
        }
        // Hidden field to recover the movie id of a document.
        let movie_id = add_u64_field(&mut builder, "movie_id", set_indexed(numeric_options()));
        let schema = build_schema(builder);
        assert(schema_field_names(schema) == index_field_names());
        assert(schema_field_specs(schema) == index_field_specs());

        let mut index = create_in_ram(schema);
        let mut writer = match open_writer(&index, 4, 64 * 1024 * 1024) {
            Ok(w) => w,
            Err(e) => return Err(e),
        };

        let mut i: usize = 0;
        proof {
            let s0 = movies@.take(0).map_values(|m: Movie| indexed_document(m));
            assert(s0 =~= Seq::<IndexedDoc>::empty());
            assert(s0.to_multiset() =~= Multiset::<IndexedDoc>::empty()) by {
                broadcast use vstd::multiset::group_multiset_axioms;
                s0.to_multiset_ensures();
            }
        }
        while i < movies.len()
            invariant
                i <= movies.len(),
                field_number(title) == 0,
                field_number(genres) == 1,
                field_number(director) == 2,
                field_number(actors) == 3,
                field_number(keywords) == 4,
                field_number(movie_id) == 5,
                pending_documents(writer) == movies@.take(i as int).map_values(
                    |m: Movie| indexed_document(m),
                ).to_multiset(),
                writer_index(writer) == index,
                writer_threads(writer) == 4,
                writer_budget(writer) == 64 * 1024 * 1024,
                index_documents(index) == no_documents(),
                schema_field_names(index_schema(index)) == index_field_names(),
                schema_field_specs(index_schema(index)) == index_field_specs(),
            decreases movies.len() - i,
        {
            let d = movie_document(&movies[i]);
            let mut doc = new_document();
            add_text(&mut doc, title, d.title.as_str());
            add_text(&mut doc, genres, d.genres.as_str());
            add_text(&mut doc, director, d.director.as_str());
            add_text(&mut doc, actors, d.actors.as_str());
            add_text(&mut doc, keywords, d.keywords.as_str());
            add_u64(&mut doc, movie_id, d.movie_id);
            assert(document_view(doc) == indexed_document(movies@[i as int]));
            match add_document(&mut writer, doc) {
                Ok(()) => {},
                Err(e) => return Err(e),
            }
            proof {
                let s = movies@.take(i as int).map_values(|m: Movie| indexed_document(m));
                s.to_multiset_ensures();
                assert(movies@.take(i + 1).map_values(|m: Movie| indexed_document(m)) == s.push(
                    indexed_document(movies@[i as int]),
                ));
            }
            i += 1;
        }

        match commit(&mut writer, &mut index) {
            Ok(()) => {},
            Err(e) => return Err(e),
        }
        proof {
            assert(movies@.take(movies.len() as int) == movies@);
            assert(index_documents(index) =~= movies@.map_values(|m: Movie| indexed_document(m)).to_multiset());
        }

        let reader = match open_reader(&index) {
            Ok(r) => r,
            Err(e) => return Err(e),
        };
        let index = Arc::new(index);

        let mut fields: Vec<Field> = Vec::new();
        fields.push(title);
        fields.push(genres);
        fields.push(director);
        fields.push(actors);
        fields.push(keywords);
        Ok(FullTextIndex { reader, index, fields, movie_id_field: movie_id, writer: Ghost(writer) })
    }
}

} // verus!

//! The language-partitioned search index.
//!
//! One physical tantivy index exists per language code. Its schema stores
//! three fields per document: `video_id` (raw, exact-match), `time` (raw,
//! stored verbatim for snippet display) and `body` (analyzed full text; a
//! morphological analyzer for Korean, default word segmentation otherwise).
//!
//! Re-indexing one video's cues is an upsert-by-key in two committed steps:
//! first delete-and-commit of everything under the key, then add-and-commit
//! of the new documents, so replaying the same request converges to the same
//! document set (see [`lemma_upsert_idempotent`]).
//!
//! The index is modeled by the multiset of its stored-field triples
//! ([`index_docs`]); each trusted operation states its effect on that
//! multiset, and the upsert and query functions are verified against it.

use vstd::prelude::*;
use vstd::multiset::Multiset;
use vstd::string::StringSliceAdditionalSpecFns;

use crate::text::{
    split_lines,
    split_once_char,
    str_eq,
    spec_lines,
    spec_split_once,
};

use tantivy::schema::Value;

verus! {

broadcast use vstd::multiset::group_multiset_axioms, vstd::seq_lib::group_to_multiset_ensures;

#[verifier::external_type_specification]
#[verifier::external_body]
pub struct ExIndex(tantivy::Index);

#[verifier::external_type_specification]
#[verifier::external_body]
pub struct ExSchema(tantivy::schema::Schema);

#[verifier::external_type_specification]
#[verifier::external_body]
pub struct ExField(tantivy::schema::Field);

#[verifier::external_type_specification]
#[verifier::external_body]
pub struct ExTextOptions(tantivy::schema::TextOptions);

#[verifier::external_type_specification]
#[verifier::external_body]
pub struct ExTantivyDocument(tantivy::TantivyDocument);

/// One stored document, as the index keeps it: the three stored field texts.
#[verifier::ext_equal]
pub struct DocView {
    pub video_id: Seq<char>,
    pub time_label: Seq<char>,
    pub body: Seq<char>,
}

/// The documents an index holds: the multiset of the stored-text triples of
/// its committed, undeleted documents, read through the schema fields named
/// `video_id`, `time` and `body` (a missing or non-text field reading as the
/// empty string).
pub uninterp spec fn index_docs(ix: tantivy::Index) -> Multiset<DocView>;

/// That a schema has the crate's document shape: exactly the three stored
/// fields `video_id`, `time` and `body`, in that order — `video_id` and
/// `time` raw keyword fields (indexed as one untokenized term, stored
/// verbatim), `body` an analyzed, stored text field. Both schema
/// constructors establish it; the analyzer of `body` is the one axis on
/// which they differ.
pub uninterp spec fn doc_schema(s: tantivy::schema::Schema) -> bool;

/// Whether a schema's `body` field is analyzed by the Korean morphological
/// tokenizer, registered as `lang_ko` and recording term frequencies and
/// positions, rather than by the default word segmentation with
/// lowercasing: the one language-sensitive axis of the schema.
pub uninterp spec fn is_korean_schema(s: tantivy::schema::Schema) -> bool;

/// That text options index a field through the registered `lang_ko`
/// tokenizer, recording term frequencies and positions.
pub uninterp spec fn ko_body_options(o: tantivy::schema::TextOptions) -> bool;

/// That the index carries the Korean document schema (it was created with
/// it, or opened against it and found to match) rather than the default
/// one.
pub uninterp spec fn index_korean(ix: tantivy::Index) -> bool;

/// That the Korean morphological tokenizer is registered on the index
/// under the name `lang_ko` — the name the Korean schema's `body` field
/// refers to — so that writes and queries on that field can analyze text.
pub uninterp spec fn korean_analyzer_registered(ix: tantivy::Index) -> bool;

/// The index's ranked answer to a free-text query: the stored triples of
/// the at most ten best-ranked matching documents, in non-increasing
/// relevance-score order. Under the crate's reading of the index as a
/// value, the answer is a function of the index and the query text alone.
pub uninterp spec fn ranked_docs(ix: tantivy::Index, q: Seq<char>) -> Seq<DocView>;

/// Whether a query text parses under tantivy's query grammar, read against
/// this index's schema with `video_id` and `body` as the default fields.
pub uninterp spec fn query_parses(ix: tantivy::Index, q: Seq<char>) -> bool;

/// The longest video identifier, in encoded bytes, that the index can
/// delete by key: tantivy drops any token longer than this at indexing
/// time, so a longer key would leave no indexed term for the delete to
/// match.
pub const MAX_VIDEO_ID_BYTES: usize = 65530;

/// That the three field handles are the fields named `video_id`, `time` and
/// `body` of the index's schema, in that order. Established by the trusted
/// constructors and required by every operation that reads or writes through
/// the handles.
pub uninterp spec fn fields_ok(
    ix: tantivy::Index,
    video_id_field: tantivy::schema::Field,
    time_field: tantivy::schema::Field,
    body_field: tantivy::schema::Field,
) -> bool;

/// A failure while opening or writing a language index.
#[derive(Debug)]
pub enum IndexError {
    /// The index directory could not be opened, or its schema does not match.
    Open,
    /// The schema misses one of the three document fields.
    Schema,
    /// A write session could not be created or committed.
    Write,
    /// The language's analyzer could not be loaded.
    Analyzer,
}

/// A failure while querying a language index.
#[derive(Debug)]
pub enum SearchError {
    /// The free-text query does not parse.
    BadQuery,
    /// The index could not be read.
    Backend,
}

/// One language's index: the tantivy index and its three field handles.
pub struct LanguageIndex {
    index: tantivy::Index,
    video_id_field: tantivy::schema::Field,
    time_field: tantivy::schema::Field,
    body_field: tantivy::schema::Field,
}

impl LanguageIndex {
    /// The documents this index holds.
    pub closed spec fn docs(self) -> Multiset<DocView> {
        index_docs(self.index)
    }

    /// Well-formed: the field handles name the schema's document fields.
    pub closed spec fn wf(self) -> bool {
        fields_ok(self.index, self.video_id_field, self.time_field, self.body_field)
    }

    /// Whether this index carries the Korean document schema.
    pub closed spec fn korean(self) -> bool {
        index_korean(self.index)
    }

    /// Whether the Korean analyzer is registered on this index.
    pub closed spec fn analyzer_ready(self) -> bool {
        korean_analyzer_registered(self.index)
    }

    /// This index's ranked answer to a query text.
    pub closed spec fn ranked(self, q: Seq<char>) -> Seq<DocView> {
        ranked_docs(self.index, q)
    }

    /// Whether a query text parses against this index.
    pub closed spec fn parses(self, q: Seq<char>) -> bool {
        query_parses(self.index, q)
    }
}

/// Relies on tantivy's `TextOptions`/`TextFieldIndexing` builders: the text
/// options that index a field through the registered `lang_ko` tokenizer
/// with frequencies and positions.
#[verifier::external_body]
pub fn ko_text_option() -> (r: tantivy::schema::TextOptions)
    ensures
        ko_body_options(r),
{
    tantivy::schema::TextOptions::default().set_indexing_options(
        tantivy::schema::TextFieldIndexing::default().set_tokenizer("lang_ko").set_index_option(
            tantivy::schema::IndexRecordOption::WithFreqsAndPositions,
        ),
    )
}

/// Relies on tantivy's `SchemaBuilder`: the default-language schema, with
/// `video_id` and `time` as raw stored strings and `body` as stored,
/// default-analyzed text.
#[verifier::external_body]
pub fn tantivy_en_schema() -> (r: tantivy::schema::Schema)
    ensures
        doc_schema(r),
        !is_korean_schema(r),
{
    let mut schema_builder = tantivy::schema::Schema::builder();
    schema_builder.add_text_field(
        "video_id",
        tantivy::schema::STRING | tantivy::schema::STORED,
    );
    schema_builder.add_text_field("time", tantivy::schema::STRING | tantivy::schema::STORED);
    schema_builder.add_text_field("body", tantivy::schema::TEXT | tantivy::schema::STORED);
    schema_builder.build()
}

/// Relies on tantivy's `SchemaBuilder`: the Korean schema, identical to the
/// default one except that `body` is analyzed by the `lang_ko` tokenizer.
#[verifier::external_body]
pub fn tantivy_ko_schema() -> (r: tantivy::schema::Schema)
    ensures
        doc_schema(r),
        is_korean_schema(r),
{
    let mut schema_builder = tantivy::schema::Schema::builder();
    schema_builder.add_text_field(
        "video_id",
        tantivy::schema::STRING | tantivy::schema::STORED,
    );
    schema_builder.add_text_field("time", tantivy::schema::STRING | tantivy::schema::STORED);
    schema_builder.add_text_field("body", ko_text_option() | tantivy::schema::STORED);
    schema_builder.build()
}

/// The schema for a language: the Korean one for `ko`, the default one for
/// every other language code. Either way the schema has the crate's
/// three-field document shape; only the `body` analyzer is
/// language-sensitive.
pub fn tantivy_schema(lang: &str) -> (r: tantivy::schema::Schema)
    ensures
        doc_schema(r),
        is_korean_schema(r) <==> lang@ == "ko"@,
{
    if str_eq(lang, "ko") {
        tantivy_ko_schema()
    } else {
        tantivy_en_schema()
    }
}

/// Relies on `tantivy::Index::create_in_ram` and `Schema::get_field`: a
/// fresh in-memory index holds no documents, and the looked-up handles are
/// the schema's fields of those names.
#[verifier::external_body]
fn assemble_in_ram(schema: tantivy::schema::Schema) -> (r: Result<LanguageIndex, IndexError>)
    ensures
        r matches Ok(li) ==> fields_ok(li.index, li.video_id_field, li.time_field, li.body_field)
            && index_docs(li.index) == Multiset::<DocView>::empty() && (index_korean(li.index)
            <==> is_korean_schema(schema)),
{
    let video_id_field = schema.get_field("video_id").map_err(|_| IndexError::Schema)?;
    let time_field = schema.get_field("time").map_err(|_| IndexError::Schema)?;
    let body_field = schema.get_field("body").map_err(|_| IndexError::Schema)?;
    let index = tantivy::Index::create_in_ram(schema);
    Ok(LanguageIndex { index, video_id_field, time_field, body_field })
}

/// Relies on `tantivy::directory::MmapDirectory::open`,
/// `tantivy::Index::open_or_create` and `Schema::get_field`: opens (or
/// creates inside the existing directory at `path`) the on-disk index with
/// this schema; fails when the directory is missing or holds an index of a
/// different schema, so an opened index always carries the schema it was
/// asked for.
#[verifier::external_body]
fn assemble_in_dir(path: &str, schema: tantivy::schema::Schema) -> (r: Result<
    LanguageIndex,
    IndexError,
>)
    ensures
        r matches Ok(li) ==> fields_ok(li.index, li.video_id_field, li.time_field, li.body_field)
            && (index_korean(li.index) <==> is_korean_schema(schema)),
{
    let video_id_field = schema.get_field("video_id").map_err(|_| IndexError::Schema)?;
    let time_field = schema.get_field("time").map_err(|_| IndexError::Schema)?;
    let body_field = schema.get_field("body").map_err(|_| IndexError::Schema)?;
    let dir = tantivy::directory::MmapDirectory::open(path).map_err(|_| IndexError::Open)?;
    let index = tantivy::Index::open_or_create(dir, schema).map_err(|_| IndexError::Open)?;
    Ok(LanguageIndex { index, video_id_field, time_field, body_field })
}

/// Relies on `lindera::dictionary::load_dictionary`, `Segmenter::new` and
/// `lindera_tantivy::tokenizer::LinderaTokenizer`: registers the Korean
/// morphological tokenizer under the name `lang_ko` on this index; fails
/// when the dictionary is not available to the process. Registration adds
/// a tokenizer and touches neither the documents, the schema, nor the
/// field handles.
#[verifier::external_body]
fn register_korean_tokenizer(li: &mut LanguageIndex) -> (r: Result<(), IndexError>)
    ensures
        final(li).video_id_field == old(li).video_id_field,
        final(li).time_field == old(li).time_field,
        final(li).body_field == old(li).body_field,
        index_docs(final(li).index) == index_docs(old(li).index),
        index_korean(final(li).index) == index_korean(old(li).index),
        fields_ok(
            final(li).index,
            final(li).video_id_field,
            final(li).time_field,
            final(li).body_field,
        ) == fields_ok(
            old(li).index,
            old(li).video_id_field,
            old(li).time_field,
            old(li).body_field,
        ),
        r matches Ok(()) ==> korean_analyzer_registered(final(li).index),
{
    let dictionary = lindera::dictionary::load_dictionary("embedded://ko-dic").map_err(
        |_| IndexError::Analyzer,
    )?;
    let mode = lindera::mode::Mode::Decompose(lindera::mode::Penalty::default());
    let segmenter = lindera::segmenter::Segmenter::new(mode, dictionary, None);
    let tokenizer = lindera_tantivy::tokenizer::LinderaTokenizer::from_segmenter(segmenter);
    li.index.tokenizers().register("lang_ko", tokenizer);
    Ok(())
}

/// Relies on `Index::writer`, `IndexWriter::delete_term` with
/// `Term::from_field_text`, and `IndexWriter::commit`: deletes, within one
/// write session committed at its end, exactly the documents whose raw
/// `video_id` field equals `video_id`. The key must fit in one indexed
/// term ([`MAX_VIDEO_ID_BYTES`]): tantivy drops longer tokens at indexing
/// time, so a longer key's documents carry no term this delete could
/// match. On an error nothing is said of the document set; the field
/// handles are untouched either way.
#[verifier::external_body]
fn delete_and_commit(li: &mut LanguageIndex, video_id: &str) -> (r: Result<(), IndexError>)
    requires
        old(li).wf(),
        video_id.spec_bytes().len() <= MAX_VIDEO_ID_BYTES,
    ensures
        fields_ok(
            final(li).index,
            final(li).video_id_field,
            final(li).time_field,
            final(li).body_field,
        ),
        index_korean(final(li).index) == index_korean(old(li).index),
        korean_analyzer_registered(final(li).index) == korean_analyzer_registered(old(li).index),
        r matches Ok(()) ==> index_docs(final(li).index) == index_docs(old(li).index).filter(
            |d: DocView| d.video_id != video_id@,
        ),
{
    let mut writer: tantivy::IndexWriter = li.index.writer(50_000_000).map_err(
        |_| IndexError::Write,
    )?;
    writer.delete_term(tantivy::Term::from_field_text(li.video_id_field, video_id));
    writer.commit().map_err(|_| IndexError::Write)?;
    Ok(())
}

/// The document views of a document vector.
pub open spec fn docs_view(s: Seq<IndexDocument>) -> Seq<DocView> {
    s.map_values(|d: IndexDocument| d@)
}

/// Relies on `Index::writer`, `TantivyDocument::add_text`,
/// `IndexWriter::add_document` and `IndexWriter::commit`: adds, within one
/// write session committed at its end, one document per element of `docs`,
/// carrying its three field texts. On an error nothing is said of the
/// document set; the field handles are untouched either way.
#[verifier::external_body]
fn add_and_commit(li: &mut LanguageIndex, docs: &Vec<IndexDocument>) -> (r: Result<
    (),
    IndexError,
>)
    requires
        old(li).wf(),
    ensures
        fields_ok(
            final(li).index,
            final(li).video_id_field,
            final(li).time_field,
            final(li).body_field,
        ),
        index_korean(final(li).index) == index_korean(old(li).index),
        korean_analyzer_registered(final(li).index) == korean_analyzer_registered(old(li).index),
        r matches Ok(()) ==> index_docs(final(li).index) == index_docs(old(li).index).add(
            docs_view(docs@).to_multiset(),
        ),
{
    let mut writer: tantivy::IndexWriter = li.index.writer(50_000_000).map_err(
        |_| IndexError::Write,
    )?;
    for d in docs.iter() {
        let mut doc = tantivy::TantivyDocument::new();
        doc.add_text(li.video_id_field, &d.video_id);
        doc.add_text(li.time_field, &d.time_label);
        doc.add_text(li.body_field, &d.body);
        writer.add_document(doc).map_err(|_| IndexError::Write)?;
    }
    writer.commit().map_err(|_| IndexError::Write)?;
    Ok(())
}

/// The stored-text triple of one retrieved document, read through the given
/// field handles (a missing or non-text field reading as the empty string).
pub uninterp spec fn doc_stored(
    d: tantivy::TantivyDocument,
    video_id_field: tantivy::schema::Field,
    time_field: tantivy::schema::Field,
    body_field: tantivy::schema::Field,
) -> DocView;

/// Relies on `QueryParser::for_index` over the `video_id` and `body`
/// fields, `Index::reader`, `Searcher::search` with
/// `TopDocs::with_limit(10).order_by_score()`, and `Searcher::doc`: parses
/// the free-text query, then retrieves the ranked answer of the reader's
/// snapshot — the at most ten best-ranked documents, best first. Every
/// returned document is one the index holds. Parsing runs first, so the
/// call fails with [`SearchError::BadQuery`] exactly when the query text
/// does not parse.
#[verifier::external_body]
fn fetch_top_docs(li: &LanguageIndex, query: &str) -> (r: Result<
    Vec<tantivy::TantivyDocument>,
    SearchError,
>)
    requires
        li.wf(),
    ensures
        r matches Ok(docs) ==> {
            &&& query_parses(li.index, query@)
            &&& docs@.len() <= 10
            &&& docs@.len() == ranked_docs(li.index, query@).len()
            &&& (forall|i: int|
                0 <= i < docs@.len() ==> #[trigger] doc_stored(
                    docs@[i],
                    li.video_id_field,
                    li.time_field,
                    li.body_field,
                ) == ranked_docs(li.index, query@)[i])
            &&& (forall|i: int|
                0 <= i < docs@.len() ==> index_docs(li.index).count(
                    #[trigger] doc_stored(
                        docs@[i],
                        li.video_id_field,
                        li.time_field,
                        li.body_field,
                    ),
                ) > 0)
        },
        r matches Err(e) ==> (e is BadQuery <==> !query_parses(li.index, query@)),
{
    let fields = vec![li.video_id_field, li.body_field];
    let parser = tantivy::query::QueryParser::for_index(&li.index, fields);
    let query = parser.parse_query(query).map_err(|_| SearchError::BadQuery)?;
    let reader = li.index.reader().map_err(|_| SearchError::Backend)?;
    let searcher = reader.searcher();
    let collector = tantivy::collector::TopDocs::with_limit(10).order_by_score();
    let top = searcher.search(&query, &collector).map_err(|_| SearchError::Backend)?;
    let mut out = Vec::new();
    for (_score, addr) in top {
        out.push(searcher.doc(addr).map_err(|_| SearchError::Backend)?);
    }
    Ok(out)
}

/// Relies on `TantivyDocument::get_first` and `Value::as_str`: reads the
/// three stored field texts out of one retrieved document.
#[verifier::external_body]
fn doc_fields(d: &tantivy::TantivyDocument, li: &LanguageIndex) -> (r: IndexDocument)
    ensures
        r@ == doc_stored(*d, li.video_id_field, li.time_field, li.body_field),
{
    let get = |f: tantivy::schema::Field| {
        d.get_first(f).and_then(|v| v.as_str()).unwrap_or("").to_string()
    };
    IndexDocument {
        video_id: get(li.video_id_field),
        time_label: get(li.time_field),
        body: get(li.body_field),
    }
}

/// Relies on `Index::reader` and `Searcher::num_docs`: the number of
/// documents the index holds.
#[verifier::external_body]
pub fn doc_count(li: &LanguageIndex) -> (r: Result<u64, SearchError>)
    requires
        li.wf(),
    ensures
        r matches Ok(n) ==> n as nat == li.docs().len(),
{
    let reader = li.index.reader().map_err(|_| SearchError::Backend)?;
    Ok(reader.searcher().num_docs())
}

/// One searchable unit handed to or returned by the index: the complete
/// text of one cue, with the video it belongs to and its time label.
pub struct IndexDocument {
    pub video_id: String,
    pub time_label: String,
    pub body: String,
}

impl View for IndexDocument {
    type V = DocView;

    open spec fn view(&self) -> DocView {
        DocView { video_id: self.video_id@, time_label: self.time_label@, body: self.body@ }
    }
}

/// One line of a subtitle's index body: a time label and the cue text.
pub struct IndexEntry {
    pub time_label: String,
    pub body: String,
}

/// The mathematical content of an index entry.
#[verifier::ext_equal]
pub struct EntryView {
    pub time_label: Seq<char>,
    pub body: Seq<char>,
}

impl View for IndexEntry {
    type V = EntryView;

    open spec fn view(&self) -> EntryView {
        EntryView { time_label: self.time_label@, body: self.body@ }
    }
}

/// The entry views of an entry vector.
pub open spec fn entries_view(s: Seq<IndexEntry>) -> Seq<EntryView> {
    s.map_values(|e: IndexEntry| e@)
}

impl LanguageIndex {
    /// Opens a fresh in-memory index for `lang`, registering the Korean
    /// analyzer before the index is handed out when the language asks for
    /// it. The new index holds no documents and carries the language's
    /// schema.
    pub fn open_in_ram(lang: &str) -> (r: Result<LanguageIndex, IndexError>)
        ensures
            r matches Ok(li) ==> {
                &&& li.wf()
                &&& li.docs() == Multiset::<DocView>::empty()
                &&& (li.korean() <==> lang@ == "ko"@)
                &&& (lang@ == "ko"@ ==> li.analyzer_ready())
            },
    {
        let schema = tantivy_schema(lang);
        let mut li = match assemble_in_ram(schema) {
            Ok(li) => li,
            Err(e) => {
                return Err(e);
            },
        };
        if str_eq(lang, "ko") {
            match register_korean_tokenizer(&mut li) {
                Ok(()) => (),
                Err(e) => {
                    return Err(e);
                },
            }
        }
        Ok(li)
    }

    /// Opens (or creates, inside the existing directory `<mount>/<lang>`)
    /// the on-disk index for `lang`, registering the Korean analyzer before
    /// the index is handed out when the language asks for it. An opened
    /// index always carries the language's schema: a mismatched existing
    /// index is refused. The caller makes sure the directory exists.
    pub fn open_in_dir(mount: &str, lang: &str) -> (r: Result<LanguageIndex, IndexError>)
        ensures
            r matches Ok(li) ==> {
                &&& li.wf()
                &&& (li.korean() <==> lang@ == "ko"@)
                &&& (lang@ == "ko"@ ==> li.analyzer_ready())
            },
    {
        let schema = tantivy_schema(lang);
        let mut path = mount.to_owned();
        path.append("/");
        path.append(lang);
        let mut li = match assemble_in_dir(path.as_str(), schema) {
            Ok(li) => li,
            Err(e) => {
                return Err(e);
            },
        };
        if str_eq(lang, "ko") {
            match register_korean_tokenizer(&mut li) {
                Ok(()) => (),
                Err(e) => {
                    return Err(e);
                },
            }
        }
        Ok(li)
    }
}

/// The documents that indexing `entries` under `key` produces: one per
/// entry, in order, each carrying the key as its `video_id`.
pub open spec fn entry_docs(key: Seq<char>, entries: Seq<EntryView>) -> Seq<DocView> {
    entries.map_values(
        |e: EntryView| DocView { video_id: key, time_label: e.time_label, body: e.body },
    )
}

/// The document set after an upsert of `entries` under `key`: every prior
/// document of that key is gone, replaced by exactly one document per entry.
pub open spec fn upsert_model(
    m: Multiset<DocView>,
    key: Seq<char>,
    entries: Seq<EntryView>,
) -> Multiset<DocView> {
    m.filter(|d: DocView| d.video_id != key).add(entry_docs(key, entries).to_multiset())
}

/// Every document produced from `entries` under `key` carries `key`.
pub proof fn lemma_entry_docs_key(key: Seq<char>, entries: Seq<EntryView>, x: DocView)
    requires
        entry_docs(key, entries).to_multiset().count(x) > 0,
    ensures
        x.video_id == key,
{
    let s = entry_docs(key, entries);
    assert(s.contains(x));
    let i = choose|i: int| 0 <= i < s.len() && s[i] == x;
    assert(s[i].video_id == key);
}

/// Upsert idempotence: re-indexing the same entry set under the same key a
/// second time leaves the document set unchanged — the index never
/// accumulates duplicates under at-least-once delivery of the re-index
/// request.
pub proof fn lemma_upsert_idempotent(m: Multiset<DocView>, key: Seq<char>, entries: Seq<EntryView>)
    ensures
        upsert_model(upsert_model(m, key, entries), key, entries) == upsert_model(m, key, entries),
{
    let p = |d: DocView| d.video_id != key;
    let dm = entry_docs(key, entries).to_multiset();
    let m1 = upsert_model(m, key, entries);
    assert forall|x: DocView| #[trigger] m1.filter(p).count(x) == m.filter(p).count(x) by {
        if p(x) {
            assert(m1.count(x) == m.filter(p).count(x) + dm.count(x));
            if dm.count(x) > 0 {
                lemma_entry_docs_key(key, entries, x);
            }
        }
    }
    assert(m1.filter(p) =~= m.filter(p));
}

/// After an upsert, the documents under the key are exactly the entries:
/// one document per entry, never duplicates beyond what the entries
/// themselves repeat.
pub proof fn lemma_upsert_replaces(m: Multiset<DocView>, key: Seq<char>, entries: Seq<EntryView>)
    ensures
        upsert_model(m, key, entries).filter(|d: DocView| d.video_id == key) == entry_docs(
            key,
            entries,
        ).to_multiset(),
{
    let q = |d: DocView| d.video_id == key;
    let p = |d: DocView| d.video_id != key;
    let dm = entry_docs(key, entries).to_multiset();
    assert forall|x: DocView| #[trigger] upsert_model(m, key, entries).filter(q).count(x)
        == dm.count(x) by {
        if q(x) {
        } else {
            if dm.count(x) > 0 {
                lemma_entry_docs_key(key, entries, x);
            }
        }
    }
    assert(upsert_model(m, key, entries).filter(q) =~= dm);
}

/// Splits a subtitle's index body text into its entries: one per line that
/// carries a space, the time label before the first space, the cue text
/// after it. Lines without a space carry no time label and are skipped.
pub open spec fn spec_parse_index_body(lines: Seq<Seq<char>>) -> Seq<EntryView>
    decreases lines.len(),
{
    if lines.len() == 0 {
        Seq::empty()
    } else {
        let rest = spec_parse_index_body(lines.drop_last());
        match spec_split_once(lines.last(), ' ') {
            Some(p) => rest.push(EntryView { time_label: p.0, body: p.1 }),
            None => rest,
        }
    }
}

/// Parses a subtitle's index body text into index entries, one per
/// time-labeled line.
pub fn parse_index_body(body: &str) -> (r: Vec<IndexEntry>)
    ensures
        entries_view(r@) == spec_parse_index_body(spec_lines(body@)),
{
    let lines = split_lines(body);
    let ghost lv = lines@.map_values(|l: String| l@);
    let mut out: Vec<IndexEntry> = Vec::new();
    let n = lines.len();
    let mut i: usize = 0;
    while i < n
        invariant
            n == lines@.len(),
            lv == lines@.map_values(|l: String| l@),
            0 <= i <= n,
            entries_view(out@) == spec_parse_index_body(lv.take(i as int)),
        decreases n - i,
    {
        proof {
            assert(lv.take(i + 1).drop_last() =~= lv.take(i as int));
            assert(lv.take(i + 1).last() == lines@[i as int]@);
        }
        match split_once_char(lines[i].as_str(), ' ') {
            Some(p) => {
                out.push(IndexEntry { time_label: p.0, body: p.1 });
                proof {
                    assert(entries_view(out@) =~= spec_parse_index_body(lv.take(i + 1)));
                }
            },
            None => (),
        }
        i += 1;
    }
    proof {
        assert(lv.take(n as int) =~= lv);
    }
    out
}

/// Replaces all documents of `video_id` by one document per entry, in two
/// committed steps: the delete is committed before the adds, so a failure
/// between the two never leaves old and new documents coexisting under the
/// key, and replaying the whole upsert converges to the same document set.
/// The key must fit in one indexed term ([`MAX_VIDEO_ID_BYTES`]), else the
/// delete step could not match its documents.
pub fn upsert(li: &mut LanguageIndex, video_id: &str, entries: &Vec<IndexEntry>) -> (r: Result<
    (),
    IndexError,
>)
    requires
        old(li).wf(),
        video_id.spec_bytes().len() <= MAX_VIDEO_ID_BYTES,
    ensures
        final(li).wf(),
        final(li).korean() == old(li).korean(),
        final(li).analyzer_ready() == old(li).analyzer_ready(),
        r matches Ok(()) ==> final(li).docs() == upsert_model(
            old(li).docs(),
            video_id@,
            entries_view(entries@),
        ),
{
    let mut docs: Vec<IndexDocument> = Vec::new();
    let n = entries.len();
    let mut i: usize = 0;
    while i < n
        invariant
            n == entries@.len(),
            0 <= i <= n,
            docs_view(docs@) == entry_docs(video_id@, entries_view(entries@)).take(i as int),
        decreases n - i,
    {
        let e = &entries[i];
        proof {
            assert(entry_docs(video_id@, entries_view(entries@)).take(i as int).len() == i);
            assert(docs_view(docs@).len() == docs@.len());
        }
        docs.push(
            IndexDocument {
                video_id: video_id.to_owned(),
                time_label: e.time_label.clone(),
                body: e.body.clone(),
            },
        );
        proof {
            assert(docs_view(docs@) =~~= entry_docs(video_id@, entries_view(entries@)).take(i + 1));
        }
        i += 1;
    }
    proof {
        assert(entry_docs(video_id@, entries_view(entries@)).take(n as int) =~= entry_docs(
            video_id@,
            entries_view(entries@),
        ));
    }
    match delete_and_commit(li, video_id) {
        Ok(()) => (),
        Err(e) => {
            return Err(e);
        },
    }
    match add_and_commit(li, &docs) {
        Ok(()) => (),
        Err(e) => {
            return Err(e);
        },
    }
    Ok(())
}

/// Ranked free-text retrieval: the index's ranked answer to the query, at
/// most the ten best-ranked documents, best first. Every returned document
/// is one the index holds, so a language with no indexed documents yields
/// the empty list. The call fails with [`SearchError::BadQuery`] exactly
/// when the query text does not parse.
pub fn search(li: &LanguageIndex, query: &str) -> (r: Result<Vec<IndexDocument>, SearchError>)
    requires
        li.wf(),
    ensures
        r matches Ok(hits) ==> {
            &&& hits@.len() <= 10
            &&& docs_view(hits@) == li.ranked(query@)
            &&& (forall|i: int| 0 <= i < hits@.len() ==> li.docs().count(#[trigger] hits@[i]@) > 0)
            &&& (li.docs().len() == 0 ==> hits@.len() == 0)
        },
        r matches Err(e) ==> (e is BadQuery <==> !li.parses(query@)),
{
    let docs = match fetch_top_docs(li, query) {
        Ok(docs) => docs,
        Err(e) => {
            return Err(e);
        },
    };
    let mut hits: Vec<IndexDocument> = Vec::new();
    let n = docs.len();
    let mut i: usize = 0;
    while i < n
        invariant
            li.wf(),
            n == docs@.len(),
            n <= 10,
            n == ranked_docs(li.index, query@).len(),
            0 <= i <= n,
            hits@.len() == i,
            forall|j: int|
                0 <= j < docs@.len() ==> #[trigger] doc_stored(
                    docs@[j],
                    li.video_id_field,
                    li.time_field,
                    li.body_field,
                ) == ranked_docs(li.index, query@)[j],
            forall|j: int|
                0 <= j < docs@.len() ==> index_docs(li.index).count(
                    #[trigger] doc_stored(
                        docs@[j],
                        li.video_id_field,
                        li.time_field,
                        li.body_field,
                    ),
                ) > 0,
            forall|j: int| 0 <= j < i ==> #[trigger] hits@[j]@ == ranked_docs(li.index, query@)[j],
            forall|j: int| 0 <= j < i ==> li.docs().count(#[trigger] hits@[j]@) > 0,
        decreases n - i,
    {
        hits.push(doc_fields(&docs[i], li));
        i += 1;
    }
    proof {
        assert(docs_view(hits@) =~= ranked_docs(li.index, query@));
        if li.docs().len() == 0 && hits@.len() > 0 {
            assert(li.docs().count(hits@[0]@) <= li.docs().len());
        }
    }
    Ok(hits)
}

/// The composed query text: the free text parenthesized, and the video
/// filter joined with `AND` when one is given.
pub open spec fn spec_compose_query(q: Seq<char>, video_id: Option<Seq<char>>) -> Seq<char> {
    let base = seq!['('] + q + seq![')'];
    match video_id {
        Some(v) => base + seq![' ', 'A', 'N', 'D', ' '] + v,
        None => base,
    }
}

/// Composes the query text sent to the index: the free text parenthesized,
/// the video filter joined as a required `AND` clause when one is given.
pub fn compose_query(query: &str, video_id: &Option<String>) -> (r: String)
    ensures
        r@ == spec_compose_query(
            query@,
            match video_id {
                Some(v) => Some(v@),
                None => None,
            },
        ),
{
    let mut s = String::from_str("(");
    s.append(query);
    s.append(")");
    match video_id {
        Some(v) => {
            s.append(" AND ");
            s.append(v.as_str());
        },
        None => (),
    }
    proof {
        reveal_strlit("(");
        reveal_strlit(")");
        reveal_strlit(" AND ");
        assert(s@ =~= spec_compose_query(
            query@,
            match video_id {
                Some(v) => Some(v@),
                None => None,
            },
        ));
    }
    s
}

/// The documents of `s` carrying the video identifier `v`, in order.
pub open spec fn with_video(s: Seq<DocView>, v: Seq<char>) -> Seq<DocView> {
    s.filter(|d: DocView| d.video_id == v)
}

/// Taking one more document extends the filtered subsequence by that
/// document exactly when it carries the identifier.
pub proof fn lemma_with_video_step(s: Seq<DocView>, v: Seq<char>, i: int)
    requires
        0 <= i < s.len(),
    ensures
        s[i].video_id == v ==> with_video(s.take(i + 1), v) == with_video(s.take(i), v).push(s[i]),
        s[i].video_id != v ==> with_video(s.take(i + 1), v) == with_video(s.take(i), v),
{
    reveal(Seq::filter);
    assert(s.take(i + 1).drop_last() =~= s.take(i));
    assert(s.take(i + 1).last() == s[i]);
}

/// Free-text search with an optional exact video filter. With a filter,
/// no returned document carries another video's identifier; without one,
/// this is plain ranked retrieval. Every returned document is one the index
/// holds, and an empty index yields the empty list.
pub fn search_with_filter(li: &LanguageIndex, query: &str, video_id: &Option<String>) -> (r:
    Result<Vec<IndexDocument>, SearchError>)
    requires
        li.wf(),
    ensures
        r matches Ok(hits) ==> {
            &&& hits@.len() <= 10
            &&& (forall|i: int| 0 <= i < hits@.len() ==> li.docs().count(#[trigger] hits@[i]@) > 0)
            &&& (li.docs().len() == 0 ==> hits@.len() == 0)
            &&& (match video_id {
                Some(v) => docs_view(hits@) == with_video(
                    li.ranked(spec_compose_query(query@, Some(v@))),
                    v@,
                ),
                None => docs_view(hits@) == li.ranked(spec_compose_query(query@, None)),
            })
            &&& (video_id matches Some(v) ==> forall|i: int|
                0 <= i < hits@.len() ==> (#[trigger] hits@[i]@).video_id == v@)
        },
        r matches Err(e) ==> (e is BadQuery <==> !li.parses(
            spec_compose_query(
                query@,
                match video_id {
                    Some(v) => Some(v@),
                    None => None,
                },
            ),
        )),
{
    let q = compose_query(query, video_id);
    let hits = match search(li, q.as_str()) {
        Ok(hits) => hits,
        Err(e) => {
            return Err(e);
        },
    };
    match video_id {
        Some(v) => {
            let ghost ranked = li.ranked(q@);
            let mut out: Vec<IndexDocument> = Vec::new();
            let n = hits.len();
            let mut i: usize = 0;
            while i < n
                invariant
                    n == hits@.len(),
                    0 <= i <= n,
                    out@.len() <= i,
                    ranked == docs_view(hits@),
                    docs_view(out@) == with_video(docs_view(hits@).take(i as int), v@),
                    forall|j: int|
                        0 <= j < hits@.len() ==> li.docs().count(#[trigger] hits@[j]@) > 0,
                    forall|j: int|
                        0 <= j < out@.len() ==> li.docs().count(#[trigger] out@[j]@) > 0,
                    forall|j: int| 0 <= j < out@.len() ==> (#[trigger] out@[j]@).video_id == v@,
                decreases n - i,
            {
                proof {
                    lemma_with_video_step(docs_view(hits@), v@, i as int);
                }
                if str_eq(hits[i].video_id.as_str(), v.as_str()) {
                    let h = &hits[i];
                    out.push(
                        IndexDocument {
                            video_id: h.video_id.clone(),
                            time_label: h.time_label.clone(),
                            body: h.body.clone(),
                        },
                    );
                    proof {
                        assert(docs_view(out@) =~= with_video(
                            docs_view(hits@).take(i + 1),
                            v@,
                        ));
                    }
                }
                i += 1;
            }
            proof {
                assert(docs_view(hits@).take(n as int) =~= docs_view(hits@));
                if li.docs().len() == 0 && out@.len() > 0 {
                    assert(li.docs().count(out@[0]@) <= li.docs().len());
                }
            }
            Ok(out)
        },
        None => Ok(hits),
    }
}

} // verus!

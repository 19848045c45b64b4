use subsearch::search::{
    compose_query,
    doc_count,
    parse_index_body,
    search,
    search_with_filter,
    tantivy_schema,
    upsert,
    IndexEntry,
    IndexError,
    LanguageIndex,
    SearchError,
};
use subsearch::subtitle::{Subtitle, SubtitleItem, TokenKind, TranscriptToken};

fn entries(pairs: &[(&str, &str)]) -> Vec<IndexEntry> {
    pairs
        .iter()
        .map(|(t, b)| IndexEntry { time_label: t.to_string(), body: b.to_string() })
        .collect()
}

#[test]
fn parse_index_body_splits_lines() {
    let body = "00:00:00.000 Hello world.\n00:00:01.500 Goodbye.\n";
    let es = parse_index_body(body);
    assert_eq!(es.len(), 2);
    assert_eq!(es[0].time_label, "00:00:00.000");
    assert_eq!(es[0].body, "Hello world.");
    assert_eq!(es[1].time_label, "00:00:01.500");
    assert_eq!(es[1].body, "Goodbye.");
}

#[test]
fn parse_index_body_skips_unlabeled_lines() {
    let es = parse_index_body("nolabel\n00:00:02.000 Real line\n\n");
    assert_eq!(es.len(), 1);
    assert_eq!(es[0].body, "Real line");
}

#[test]
fn parse_index_body_of_rendered_subtitle() {
    let sub = Subtitle {
        items: vec![
            SubtitleItem { start_ms: 0, end_ms: 900, content: "An apple a day.".to_string() },
            SubtitleItem { start_ms: 1500, end_ms: 2100, content: "Keeps doctors away.".to_string() },
        ],
    };
    let es = parse_index_body(&sub.index_body());
    assert_eq!(es.len(), 2);
    assert_eq!(es[0].time_label, "00:00:00.000");
    assert_eq!(es[0].body, "An apple a day.");
    assert_eq!(es[1].time_label, "00:00:01.500");
}

#[test]
fn compose_query_shapes() {
    assert_eq!(compose_query("egg rice", &None), "(egg rice)");
    assert_eq!(compose_query("egg rice", &Some("vid-1".to_string())), "(egg rice) AND vid-1");
}

#[test]
fn upsert_idempotence() {
    let mut li = LanguageIndex::open_in_ram("en").unwrap();
    let es = entries(&[("00:00:00.000", "An apple a day."), ("00:00:01.500", "Keeps doctors away.")]);
    upsert(&mut li, "vid-1", &es).unwrap();
    assert_eq!(doc_count(&li).unwrap(), 2);
    upsert(&mut li, "vid-1", &es).unwrap();
    assert_eq!(doc_count(&li).unwrap(), 2);
    upsert(&mut li, "vid-1", &es).unwrap();
    assert_eq!(doc_count(&li).unwrap(), 2);
}

#[test]
fn upsert_replaces_per_key() {
    let mut li = LanguageIndex::open_in_ram("en").unwrap();
    upsert(&mut li, "vid-1", &entries(&[("00:00:00.000", "one"), ("00:00:01.000", "two")])).unwrap();
    upsert(&mut li, "vid-2", &entries(&[("00:00:00.000", "other video")])).unwrap();
    assert_eq!(doc_count(&li).unwrap(), 3);
    upsert(&mut li, "vid-1", &entries(&[("00:00:05.000", "replaced")])).unwrap();
    assert_eq!(doc_count(&li).unwrap(), 2);
}

#[test]
fn search_finds_indexed_text() {
    let mut li = LanguageIndex::open_in_ram("en").unwrap();
    let es = entries(&[("00:00:00.000", "An apple a day."), ("00:00:01.500", "Keeps doctors away.")]);
    upsert(&mut li, "vid-1", &es).unwrap();
    let hits = search(&li, "apple").unwrap();
    assert_eq!(hits.len(), 1);
    assert_eq!(hits[0].video_id, "vid-1");
    assert_eq!(hits[0].time_label, "00:00:00.000");
    assert_eq!(hits[0].body, "An apple a day.");
}

#[test]
fn query_filter_correctness() {
    let mut li = LanguageIndex::open_in_ram("en").unwrap();
    upsert(&mut li, "vid-1", &entries(&[("00:00:00.000", "apple pie recipe")])).unwrap();
    upsert(&mut li, "vid-2", &entries(&[("00:00:00.000", "apple tree care")])).unwrap();
    let hits = search_with_filter(&li, "apple", &Some("vid-2".to_string())).unwrap();
    assert!(!hits.is_empty());
    for h in &hits {
        assert_eq!(h.video_id, "vid-2");
    }
    let unfiltered = search_with_filter(&li, "apple", &None).unwrap();
    assert_eq!(unfiltered.len(), 2);
}

#[test]
fn empty_language_query_yields_empty_list() {
    let li = LanguageIndex::open_in_ram("en").unwrap();
    let hits = search(&li, "anything at all").unwrap();
    assert!(hits.is_empty());
}

#[test]
fn malformed_query_is_an_error() {
    let mut li = LanguageIndex::open_in_ram("en").unwrap();
    upsert(&mut li, "vid-1", &entries(&[("00:00:00.000", "text")])).unwrap();
    let r = search(&li, "AND (");
    assert!(matches!(r, Err(SearchError::BadQuery)));
}

#[test]
fn missing_directory_is_an_open_error() {
    let r = LanguageIndex::open_in_dir("/nonexistent-mount-point", "en");
    assert!(matches!(r, Err(IndexError::Open)));
}

#[test]
fn ranked_retrieval_caps_at_ten() {
    let mut li = LanguageIndex::open_in_ram("en").unwrap();
    let mut es: Vec<IndexEntry> = Vec::new();
    for i in 0..25 {
        es.push(IndexEntry {
            time_label: format!("00:00:{:02}.000", i),
            body: format!("pelican number {}", i),
        });
    }
    upsert(&mut li, "vid-1", &es).unwrap();
    assert_eq!(doc_count(&li).unwrap(), 25);
    let hits = search(&li, "pelican").unwrap();
    assert_eq!(hits.len(), 10);
}

#[test]
fn ko_schema_builds() {
    let schema = tantivy_schema("ko");
    assert!(schema.get_field("video_id").is_ok());
    assert!(schema.get_field("time").is_ok());
    assert!(schema.get_field("body").is_ok());
    let en = tantivy_schema("en-GB");
    assert!(en.get_field("body").is_ok());
}

#[test]
fn korean_analyzer_unavailable_is_reported() {
    // This build embeds no morphological dictionary, so opening the Korean
    // index reports the analyzer as unavailable instead of serving an index
    // that could not tokenize its body field.
    let r = LanguageIndex::open_in_ram("ko");
    assert!(matches!(r, Err(IndexError::Analyzer)));
}

#[test]
fn pipeline_from_tokens_to_search_hit() {
    let word = |text: &str, s: u64, e: u64| TranscriptToken {
        kind: TokenKind::Pronunciation,
        content: text.to_string(),
        start_ms: Some(s),
        end_ms: Some(e),
    };
    let punct = |text: &str| TranscriptToken {
        kind: TokenKind::Punctuation,
        content: text.to_string(),
        start_ms: None,
        end_ms: None,
    };
    let tokens = vec![
        word("An", 0, 200),
        word("apple", 200, 450),
        word("a", 450, 520),
        word("day", 520, 800),
        punct("."),
        word("Keeps", 1500, 1700),
        word("doctors", 1700, 2000),
        word("away", 2000, 2300),
        punct("."),
    ];
    let sub = Subtitle::segment(&tokens);
    assert_eq!(sub.items.len(), 2);
    let es = parse_index_body(&sub.index_body());
    assert_eq!(es.len(), 2);
    let mut li = LanguageIndex::open_in_ram("en").unwrap();
    upsert(&mut li, "vid-9", &es).unwrap();
    let hits = search_with_filter(&li, "apple", &Some("vid-9".to_string())).unwrap();
    assert_eq!(hits.len(), 1);
    assert_eq!(hits[0].video_id, "vid-9");
    assert_eq!(hits[0].time_label, "00:00:00.000");
    assert_eq!(hits[0].body, "An apple a day.");
}

#[test]
fn parse_index_body_handles_crlf_line_endings() {
    let es = parse_index_body("00:00:00.000 Hi there\r\n00:00:01.000 Bye\n");
    assert_eq!(es.len(), 2);
    assert_eq!(es[0].time_label, "00:00:00.000");
    assert_eq!(es[0].body, "Hi there");
    assert_eq!(es[1].body, "Bye");
}

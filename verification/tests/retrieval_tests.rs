use recall::database::Database;
use recall::diagnostics::RetrievalDiagnostics;
use recall::embedding::EmbeddingProvider;
use recall::error::RecallError;
use recall::filter::MetadataFilter;
use recall::retrieval::{
    apply_min_score, candidates, complete_search, query_candidates, search_results, SearchOptions,
};
use recall::search_result::SearchResult;
use recall::vector::Vector;
use recall::{Metadata, MetadataValue};

struct TestEmbedder;

impl EmbeddingProvider for TestEmbedder {
    fn embeds(&self, _text: &str, values: &Vec<u32>) -> bool {
        *values == bits(&[1.0, 0.0, 0.0])
    }

    fn fails_on(&self, _text: &str, _error: &RecallError) -> bool {
        false
    }

    fn embed(&self, _text: &str) -> Result<Vec<u32>, RecallError> {
        Ok(bits(&[1.0, 0.0, 0.0]))
    }
}

fn bits(values: &[f32]) -> Vec<u32> {
    values.iter().map(|x| x.to_bits()).collect()
}

fn cosine(a: &[u32], b: &[u32]) -> f32 {
    let mut dot = 0.0f32;
    let mut ma = 0.0f32;
    let mut mb = 0.0f32;
    for i in 0..a.len() {
        let x = f32::from_bits(a[i]);
        let y = f32::from_bits(b[i]);
        dot += x * y;
        ma += x * x;
        mb += y * y;
    }
    dot / (ma.sqrt() * mb.sqrt())
}

fn scored<'a>(
    database: &'a Database,
    embedder: &TestEmbedder,
    query: &str,
    options: &SearchOptions,
) -> (Vec<&'a Vector>, Vec<u32>) {
    let (query_vector, found) = query_candidates(database, embedder, query, options).unwrap();
    let scores: Vec<u32> = found
        .iter()
        .map(|v| cosine(&query_vector, &v.values).to_bits())
        .collect();
    (found, scores)
}

fn search_with_diagnostics(
    database: &Database,
    embedder: &TestEmbedder,
    query: &str,
    options: SearchOptions,
) -> (Vec<SearchResult>, RetrievalDiagnostics) {
    let (found, scores) = scored(database, embedder, query, &options);
    complete_search(&found, &scores, &options)
}

fn search(
    database: &Database,
    embedder: &TestEmbedder,
    query: &str,
    options: SearchOptions,
) -> Vec<SearchResult> {
    let (found, scores) = scored(database, embedder, query, &options);
    search_results(&found, &scores, &options)
}

#[test]
fn test_retriever_with_multiple_filters() {
    let mut database = Database::new();

    let mut metadata_1 = Metadata::new();
    metadata_1.insert(
        "subject".to_string(),
        MetadataValue::String("DBMS".to_string()),
    );
    metadata_1.insert("semester".to_string(), MetadataValue::Integer(5));

    database
        .insert(Vector {
            id: "chunk_1".to_string(),
            values: bits(&[1.0, 0.0, 0.0]),
            metadata: metadata_1,
        })
        .unwrap();

    let mut metadata_2 = Metadata::new();
    metadata_2.insert(
        "subject".to_string(),
        MetadataValue::String("OS".to_string()),
    );
    metadata_2.insert("semester".to_string(), MetadataValue::Integer(5));

    database
        .insert(Vector {
            id: "chunk_2".to_string(),
            values: bits(&[0.9, 0.1, 0.0]),
            metadata: metadata_2,
        })
        .unwrap();

    let embedder = TestEmbedder;

    let options = SearchOptions {
        top_k: 10,
        document_id: None,
        min_score: None,
        filters: vec![
            MetadataFilter::new(
                "subject".to_string(),
                MetadataValue::String("DBMS".to_string()),
            ),
            MetadataFilter::new("semester".to_string(), MetadataValue::Integer(5)),
        ],
    };

    let results = search(&database, &embedder, "database systems", options);

    assert_eq!(results.len(), 1);
    assert_eq!(results[0].chunk_id, "chunk_1");
}

#[test]
fn test_retriever_combines_document_id_and_metadata_filters() {
    let mut database = Database::new();

    let mut metadata_1 = Metadata::new();
    metadata_1.insert(
        "document_id".to_string(),
        MetadataValue::String("doc_1".to_string()),
    );
    metadata_1.insert(
        "subject".to_string(),
        MetadataValue::String("DBMS".to_string()),
    );

    database
        .insert(Vector {
            id: "chunk_1".to_string(),
            values: bits(&[1.0, 0.0, 0.0]),
            metadata: metadata_1,
        })
        .unwrap();

    let mut metadata_2 = Metadata::new();
    metadata_2.insert(
        "document_id".to_string(),
        MetadataValue::String("doc_2".to_string()),
    );
    metadata_2.insert(
        "subject".to_string(),
        MetadataValue::String("DBMS".to_string()),
    );

    database
        .insert(Vector {
            id: "chunk_2".to_string(),
            values: bits(&[0.9, 0.1, 0.0]),
            metadata: metadata_2,
        })
        .unwrap();

    let embedder = TestEmbedder;

    let options = SearchOptions {
        top_k: 10,
        document_id: Some("doc_1".to_string()),
        min_score: None,
        filters: vec![MetadataFilter::new(
            "subject".to_string(),
            MetadataValue::String("DBMS".to_string()),
        )],
    };

    let results = search(&database, &embedder, "database systems", options);

    assert_eq!(results.len(), 1);
    assert_eq!(results[0].chunk_id, "chunk_1");
}

#[test]
fn test_search_With_diagnostics() {
    let mut database = Database::new();

    let mut metadata = Metadata::new();
    metadata.insert(
        "subject".to_string(),
        MetadataValue::String("DBMS".to_string()),
    );

    database
        .insert(Vector {
            id: "chunk_1".to_string(),
            values: bits(&[1.0, 0.0, 0.0]),
            metadata,
        })
        .unwrap();

    let embedder = TestEmbedder;

    let options = SearchOptions {
        top_k: 10,
        document_id: None,
        min_score: None,
        filters: vec![],
    };

    let (results, diagnostics) =
        search_with_diagnostics(&database, &embedder, "database systems", options);

    assert_eq!(results.len(), 1);
    assert_eq!(diagnostics.candidates, 1);
    assert_eq!(diagnostics.results_before_min_score, 1);
    assert_eq!(diagnostics.results_after_min_score, 1);
}

#[test]
fn min_score_drops_weak_hits_and_is_counted() {
    let mut database = Database::new();
    database
        .insert(Vector { id: "close".to_string(), values: bits(&[1.0, 0.0, 0.0]), metadata: Metadata::new() })
        .unwrap();
    database
        .insert(Vector { id: "far".to_string(), values: bits(&[0.0, 1.0, 0.0]), metadata: Metadata::new() })
        .unwrap();
    let options = SearchOptions {
        top_k: 10,
        document_id: None,
        min_score: Some(0.5f32.to_bits()),
        filters: vec![],
    };
    let (results, diagnostics) = search_with_diagnostics(&database, &TestEmbedder, "q", options);
    assert_eq!(results.len(), 1);
    assert_eq!(results[0].chunk_id, "close");
    assert_eq!(
        diagnostics,
        RetrievalDiagnostics { candidates: 2, results_before_min_score: 2, results_after_min_score: 1 }
    );
}

#[test]
fn document_id_option_becomes_a_filter() {
    let options = SearchOptions {
        top_k: 1,
        document_id: Some("doc_9".to_string()),
        min_score: None,
        filters: vec![MetadataFilter::new("k".to_string(), MetadataValue::Boolean(true))],
    };
    let filters = options.effective_filters();
    assert_eq!(filters.len(), 2);
    assert_eq!(filters[0].key, "k");
    assert_eq!(filters[1].key, "document_id");
    assert_eq!(filters[1].value, MetadataValue::String("doc_9".to_string()));
    let plain = SearchOptions::default();
    assert!(plain.effective_filters().is_empty());
    assert_eq!(plain.top_k, 0);
}

#[test]
fn min_score_compares_as_f32() {
    let hit = |score: f32| SearchResult {
        document_id: String::new(),
        chunk_id: format!("{}", score),
        chunk_index: 0,
        text: String::new(),
        score: score.to_bits(),
        metadata: Metadata::new(),
    };
    let results = vec![hit(0.9), hit(-0.2), hit(0.4), hit(-0.0), hit(f32::NAN)];
    let kept = apply_min_score(results, Some(0.0f32.to_bits()));
    let ids: Vec<&str> = kept.iter().map(|r| r.chunk_id.as_str()).collect();
    assert_eq!(ids, vec!["0.9", "0.4", "-0"]);
}

struct BrokenEmbedder;

impl EmbeddingProvider for BrokenEmbedder {
    fn embeds(&self, _text: &str, _values: &Vec<u32>) -> bool {
        false
    }

    fn fails_on(&self, _text: &str, error: &RecallError) -> bool {
        matches!(error, RecallError::VectorAlreadyExists)
    }

    fn embed(&self, _text: &str) -> Result<Vec<u32>, RecallError> {
        Err(RecallError::VectorAlreadyExists)
    }
}

fn plain(id: &str, values: &[f32]) -> Vector {
    Vector { id: id.to_string(), values: bits(values), metadata: Metadata::new() }
}

fn options(top_k: usize, min_score: Option<f32>) -> SearchOptions {
    SearchOptions { top_k, document_id: None, min_score: min_score.map(|m| m.to_bits()), filters: Vec::new() }
}

#[test]
fn searches_with_and_without_diagnostics_give_the_same_hits() {
    let mut database = Database::new();
    database.insert(plain("a", &[1.0, 0.0, 0.0])).unwrap();
    database.insert(plain("b", &[0.0, 1.0, 0.0])).unwrap();
    database.insert(plain("c", &[1.0, 1.0, 0.0])).unwrap();
    database.insert(plain("d", &[1.0, 0.0, 0.0])).unwrap();
    for (top_k, min_score) in [(1, None), (3, None), (10, Some(0.5)), (0, None)] {
        let with = search_with_diagnostics(&database, &TestEmbedder, "q", options(top_k, min_score)).0;
        let without = search(&database, &TestEmbedder, "q", options(top_k, min_score));
        assert_eq!(with, without);
    }
    let ids: Vec<String> = search(&database, &TestEmbedder, "q", options(3, None))
        .into_iter()
        .map(|r| r.chunk_id)
        .collect();
    assert_eq!(ids, vec!["a", "d", "c"]);
}

#[test]
fn query_candidates_returns_the_embedders_error_untouched() {
    let mut database = Database::new();
    database.insert(plain("a", &[1.0, 0.0, 0.0])).unwrap();
    let r = query_candidates(&database, &BrokenEmbedder, "q", &options(3, None));
    assert!(matches!(r, Err(RecallError::VectorAlreadyExists)));
}

#[test]
fn query_candidates_reports_the_first_candidate_of_another_length() {
    let mut database = Database::new();
    database.insert(plain("a", &[1.0, 0.0, 0.0])).unwrap();
    database.insert(plain("b", &[1.0, 0.0])).unwrap();
    database.insert(plain("c", &[1.0])).unwrap();
    let r = query_candidates(&database, &TestEmbedder, "q", &options(3, None));
    assert!(matches!(r, Err(RecallError::DimensionMismatch { query: 3, stored: 2 })));
    let empty = Database::new();
    let (q, found) = query_candidates(&empty, &TestEmbedder, "q", &options(3, None)).unwrap();
    assert_eq!(q, bits(&[1.0, 0.0, 0.0]));
    assert!(found.is_empty());
}

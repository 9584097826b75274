use recall::database::Database;
use recall::error::RecallError;
use recall::filter::MetadataFilter;
use recall::ranking::rank;
use recall::search_result::SearchResult;
use recall::vector::Vector;
use recall::{Metadata, MetadataValue};

fn bits(values: &[f32]) -> Vec<u32> {
    values.iter().map(|x| x.to_bits()).collect()
}

fn cosine(a: &[u32], b: &[u32]) -> f32 {
    let mut dot = 0.0f32;
    let mut ma = 0.0f32;
    let mut mb = 0.0f32;
    for i in 0..a.len() {
        let x = f32::from_bits(a[i]);
        let y = f32::from_bits(b[i]);
        dot += x * y;
        ma += x * x;
        mb += y * y;
    }
    dot / (ma.sqrt() * mb.sqrt())
}

fn search_filtered(
    database: &Database,
    query: &[f32],
    top_k: usize,
    filters: &Vec<MetadataFilter>,
) -> Vec<SearchResult> {
    let query = bits(query);
    let candidates = database.matching(filters);
    let scores: Vec<u32> = candidates
        .iter()
        .map(|v| cosine(&query, &v.values).to_bits())
        .collect();
    rank(&candidates, &scores, top_k)
}

fn search(database: &Database, query: &[f32], top_k: usize) -> Vec<SearchResult> {
    search_filtered(database, query, top_k, &vec![])
}

fn plain(id: &str, values: &[f32]) -> Vector {
    Vector {
        id: String::from(id),
        values: bits(values),
        metadata: Metadata::new(),
    }
}

fn with_document(id: &str, values: &[f32], document: &str) -> Vector {
    let mut metadata = Metadata::new();
    metadata.insert(
        "document_id".to_string(),
        MetadataValue::String(document.to_string()),
    );
    Vector {
        id: id.to_string(),
        values: bits(values),
        metadata,
    }
}

#[test]
fn test_insert_and_get_vector() {
    let mut database = Database::new();

    let vector = plain("doc_001", &[1.0, 2.0, 3.0]);

    database.insert(vector).unwrap();
    let result = database.get("doc_001");

    let result = result.unwrap();

    assert_eq!(result.id, "doc_001");
    assert_eq!(result.values, bits(&[1.0, 2.0, 3.0]));
}

#[test]
fn test_get_missing_vector() {
    let database = Database::new();

    let result = database.get("does not exist");
    assert!(result.is_none());
}

#[test]
fn test_search_returns_top_k_results() {
    let mut database = Database::new();

    database.insert(plain("doc_001", &[1.0, 0.0])).unwrap();
    database.insert(plain("doc_002", &[0.0, 1.0])).unwrap();
    database.insert(plain("doc_003", &[0.8, 0.2])).unwrap();

    let query = vec![1.0, 0.0];

    let results = search(&database, &query, 2);

    assert_eq!(results.len(), 2);

    assert_eq!(results[0].chunk_id, "doc_001");
    assert_eq!(results[1].chunk_id, "doc_003");
}

#[test]
fn test_seacrh_top_k_larger_than_database() {
    let mut database = Database::new();

    database.insert(plain("doc_001", &[1.0, 0.0])).unwrap();
    database.insert(plain("doc_002", &[0.0, 1.0])).unwrap();

    let query = vec![1.0, 0.0];

    let results = search(&database, &query, 10);
    assert_eq!(results.len(), 2)
}

#[test]
fn test_search_with_zero_top_k() {
    let mut database = Database::new();

    database.insert(plain("doc_001", &[1.0, 0.0])).unwrap();
    database.insert(plain("doc_002", &[0.0, 1.0])).unwrap();

    let query = vec![1.0, 0.0];
    let results = search(&database, &query, 0);

    assert!(results.is_empty());
}

#[test]
fn test_delete_existing_vector() {
    let mut database = Database::new();

    database.insert(plain("doc_001", &[1.0, 2.0, 3.0])).unwrap();

    let deleted = database.delete("doc_001");

    assert!(deleted.is_some());

    let result = database.get("doc_001");

    assert!(result.is_none());
}

#[test]
fn test_delete_missing_vector() {
    let mut database = Database::new();

    let deleted = database.delete("does_not_exist");

    assert!(deleted.is_none());
}

#[test]
fn test_vector_database() {
    let mut database = Database::new();

    let mut metadata = Metadata::new();

    metadata.insert(
        String::from("title"),
        MetadataValue::String(String::from("Learning Rust")),
    );

    metadata.insert(String::from("year"), MetadataValue::Integer(2026));

    let vector = Vector {
        id: String::from("doc_001"),
        values: bits(&[1.0, 2.0, 3.0]),
        metadata,
    };

    database.insert(vector).unwrap();

    let result = database.get("doc_001").unwrap();

    assert_eq!(
        result.metadata.get("title"),
        Some(&MetadataValue::String(String::from("Learning Rust")))
    );

    assert_eq!(
        result.metadata.get("year"),
        Some(&MetadataValue::Integer(2026))
    );
}

#[test]
fn test_search_with_filter() {
    let mut database = Database::new();

    let mut rust_metadata = Metadata::new();
    rust_metadata.insert(
        String::from("category"),
        MetadataValue::String(String::from("programming")),
    );
    database
        .insert(Vector {
            id: String::from("doc_001"),
            values: bits(&[1.0, 0.0]),
            metadata: rust_metadata,
        })
        .unwrap();

    let mut cooking_metadata = Metadata::new();
    cooking_metadata.insert(
        String::from("category"),
        MetadataValue::String(String::from("cooking")),
    );
    database
        .insert(Vector {
            id: String::from("doc_002"),
            values: bits(&[1.0, 0.0]),
            metadata: cooking_metadata,
        })
        .unwrap();

    let mut python_metadata = Metadata::new();
    python_metadata.insert(
        String::from("category"),
        MetadataValue::String(String::from("programming")),
    );
    database
        .insert(Vector {
            id: String::from("doc_003"),
            values: bits(&[0.8, 0.2]),
            metadata: python_metadata,
        })
        .unwrap();

    let query = vec![1.0, 0.0];

    let filter_value = MetadataValue::String(String::from("programming"));
    let filters = vec![MetadataFilter::new("category".to_string(), filter_value)];

    let results = search_filtered(&database, &query, 10, &filters);

    assert_eq!(results.len(), 2);

    assert_eq!(results[0].chunk_id, "doc_001");
    assert_eq!(results[1].chunk_id, "doc_003");
}

#[test]
fn test_insert_rejects_duplicate_vector() {
    let mut database = Database::new();

    database.insert(plain("doc_001", &[1.0, 0.0])).unwrap();

    let result = database.insert(plain("doc_001", &[0.5, 0.5]));

    assert!(matches!(result, Err(RecallError::VectorAlreadyExists)));

    let stored = database.get("doc_001").unwrap();

    assert_eq!(stored.values, bits(&[1.0, 0.0]));
}

#[test]
fn test_upsert_replaces_existing_vector() {
    let mut database = Database::new();

    database.insert(plain("doc_001", &[1.0, 0.0])).unwrap();

    database.upsert(plain("doc_001", &[0.5, 0.5]));

    let stored = database.get("doc_001").unwrap();

    assert_eq!(stored.values, bits(&[0.5, 0.5]));
    assert_eq!(database.len(), 1);
}

#[test]
fn test_delete_by_metadata() {
    let mut database = Database::new();

    database.insert(with_document("rust_chunk_0", &[1.0, 0.0], "rust")).unwrap();
    database.insert(with_document("rust_chunk_1", &[0.0, 1.0], "rust")).unwrap();
    database.insert(with_document("python_chunk_0", &[1.0, 1.0], "python")).unwrap();

    let deleted =
        database.delete_by_metadata("document_id", &MetadataValue::String("rust".to_string()));

    assert_eq!(deleted, 2);

    assert!(database.get("rust_chunk_0").is_none());
    assert!(database.get("rust_chunk_1").is_none());
    assert!(database.get("python_chunk_0").is_some());
}

#[test]
fn test_list_documents() {
    let mut database = Database::new();

    database.insert(with_document("rust_chunk_0", &[1.0, 0.0], "rust")).unwrap();
    database.insert(with_document("rust_chunk_1", &[0.0, 1.0], "rust")).unwrap();
    database.insert(with_document("python_chunk_0", &[1.0, 1.0], "python")).unwrap();

    let documents = database.list_documents();

    assert_eq!(
        documents,
        vec![("python".to_string(), 1), ("rust".to_string(), 2),]
    );
}

#[test]
fn list_documents_skips_vectors_without_a_text_document_id() {
    let mut database = Database::new();
    database.insert(with_document("b1", &[1.0], "beta")).unwrap();
    database.insert(plain("loose", &[1.0])).unwrap();
    let mut numeric = Metadata::new();
    numeric.insert("document_id".to_string(), MetadataValue::Integer(7));
    database
        .insert(Vector { id: "n".to_string(), values: bits(&[1.0]), metadata: numeric })
        .unwrap();
    database.insert(with_document("a1", &[1.0], "alpha")).unwrap();
    database.insert(with_document("A1", &[1.0], "Alpha")).unwrap();
    database.insert(with_document("b2", &[1.0], "beta")).unwrap();
    assert_eq!(
        database.list_documents(),
        vec![
            ("Alpha".to_string(), 1),
            ("alpha".to_string(), 1),
            ("beta".to_string(), 2)
        ]
    );
}

#[test]
fn delete_by_metadata_with_no_match_removes_nothing() {
    let mut database = Database::new();
    database.insert(with_document("r0", &[1.0], "rust")).unwrap();
    let deleted = database.delete_by_metadata("document_id", &MetadataValue::String("go".to_string()));
    assert_eq!(deleted, 0);
    assert_eq!(database.len(), 1);
}

#[test]
fn delete_hands_back_the_removed_vector() {
    let mut database = Database::new();
    database.insert(plain("a", &[1.0, 2.0])).unwrap();
    database.insert(plain("b", &[3.0])).unwrap();
    let removed = database.delete("a").unwrap();
    assert_eq!(removed.id, "a");
    assert_eq!(removed.values, bits(&[1.0, 2.0]));
    assert_eq!(database.len(), 1);
    assert!(database.get("b").is_some());
}

#[test]
fn search_results_carry_chunk_fields() {
    let mut database = Database::new();
    let mut metadata = Metadata::new();
    metadata.insert("document_id".to_string(), MetadataValue::String("notes".to_string()));
    metadata.insert("chunk_index".to_string(), MetadataValue::Integer(4));
    metadata.insert("text".to_string(), MetadataValue::String("hello world".to_string()));
    database
        .insert(Vector { id: "notes_chunk_4".to_string(), values: bits(&[0.0, 1.0]), metadata })
        .unwrap();
    let results = search(&database, &[0.0, 2.0], 1);
    assert_eq!(results.len(), 1);
    assert_eq!(results[0].document_id, "notes");
    assert_eq!(results[0].chunk_index, 4);
    assert_eq!(results[0].text, "hello world");
    assert_eq!(results[0].chunk_id, "notes_chunk_4");
    assert!((f32::from_bits(results[0].score) - 1.0).abs() < 0.0001);
}

#[test]
fn search_results_without_chunk_fields_use_defaults() {
    let mut database = Database::new();
    database.insert(plain("x", &[1.0])).unwrap();
    let results = search(&database, &[1.0], 5);
    assert_eq!(results[0].document_id, "");
    assert_eq!(results[0].chunk_index, 0);
    assert_eq!(results[0].text, "");
}

#[test]
fn ranking_orders_negative_scores_below_positive_ones() {
    let mut database = Database::new();
    database.insert(plain("neg", &[-1.0, 0.0])).unwrap();
    database.insert(plain("pos", &[1.0, 0.1])).unwrap();
    database.insert(plain("ortho", &[0.0, 1.0])).unwrap();
    let results = search(&database, &[1.0, 0.0], 3);
    let ids: Vec<&str> = results.iter().map(|r| r.chunk_id.as_str()).collect();
    assert_eq!(ids, vec!["pos", "ortho", "neg"]);
}

#[test]
fn ranking_keeps_candidate_order_among_equal_scores() {
    let vectors = [plain("w", &[1.0]), plain("x", &[1.0]), plain("y", &[1.0]), plain("z", &[1.0])];
    let candidates: Vec<&Vector> = vectors.iter().collect();
    let scores = vec![0.5f32.to_bits(), 0.9f32.to_bits(), 0.5f32.to_bits(), 0.9f32.to_bits()];
    let ids: Vec<String> = rank(&candidates, &scores, 4).into_iter().map(|r| r.chunk_id).collect();
    assert_eq!(ids, vec!["x", "z", "w", "y"]);
    let ids: Vec<String> = rank(&candidates, &scores, 3).into_iter().map(|r| r.chunk_id).collect();
    assert_eq!(ids, vec!["x", "z", "w"]);
    let zeros = vec![0.0f32.to_bits(), (-0.0f32).to_bits(), 0.0f32.to_bits(), (-0.0f32).to_bits()];
    let ids: Vec<String> = rank(&candidates, &zeros, 2).into_iter().map(|r| r.chunk_id).collect();
    assert_eq!(ids, vec!["w", "x"]);
}

use recall::api::{default_chunk_size, default_top_k, metadata_value_from_json, JsonScalar, ListDocumentsResponse};
use recall::MetadataValue;
use recall::document::{document_from_file, document_id_from_stem};
use recall::embedding::EmbeddingClient;
use recall::error::{check_dimensions, RecallError};
use recall::evaluation::{query_outcome, tally, EvaluationQuery};
use recall::ieee::{f32_bits_ge, f32_bits_is_nan, f32_bits_position, f64_bits_eq};
use recall::search_result::SearchResult;
use recall::Metadata;

fn hit(document_id: &str) -> SearchResult {
    SearchResult {
        document_id: document_id.to_string(),
        chunk_id: String::new(),
        chunk_index: 0,
        text: String::new(),
        score: 0,
        metadata: Metadata::new(),
    }
}

fn query(expected: &str) -> EvaluationQuery {
    EvaluationQuery { query: "q".to_string(), expected_document: expected.to_string() }
}

#[test]
fn defaults_of_the_http_interface() {
    assert_eq!(default_chunk_size(), 100);
    assert_eq!(default_top_k(), 3);
}

#[test]
fn list_response_keeps_order() {
    let response = ListDocumentsResponse::from_documents(vec![("a".to_string(), 2), ("b".to_string(), 1)]);
    assert_eq!(response.documents.len(), 2);
    assert_eq!(response.documents[0].document_id, "a");
    assert_eq!(response.documents[0].chunks, 2);
    assert_eq!(response.documents[1].document_id, "b");
    assert_eq!(response.documents[1].chunks, 1);
}

#[test]
fn documents_are_named_after_the_file_stem() {
    let d = document_from_file("notes/networking.txt", "DNS".to_string());
    assert_eq!(d.id, "networking");
    assert_eq!(d.text, "DNS");
    assert!(d.metadata.keys().is_empty());
    assert_eq!(document_from_file("archive.tar.gz", String::new()).id, "archive.tar");
    assert_eq!(document_from_file("", String::new()).id, "document");
    assert_eq!(document_id_from_stem(None), "document");
    assert_eq!(document_id_from_stem(Some("x".to_string())), "x");
}

#[test]
fn endpoint_appends_embed() {
    let client = EmbeddingClient::new("http://127.0.0.1:8000".to_string());
    assert_eq!(client.endpoint(), "http://127.0.0.1:8000/embed");
    assert_eq!(client.base_url(), "http://127.0.0.1:8000");
}

#[test]
fn test_cosine_similarity_dimension_mismatch() {
    let a = vec![1.0f32, 3.0, 2.0];
    let b = vec![1.0f32, 2.0];

    let result = check_dimensions(a.len(), b.len());

    assert!(matches!(
        result,
        Err(RecallError::DimensionMismatch {
            query: 3,
            stored: 2
        })
    ));
}

#[test]
fn equal_dimensions_pass() {
    assert!(check_dimensions(3, 3).is_ok());
    assert!(check_dimensions(0, 0).is_ok());
}

#[test]
fn error_messages() {
    assert_eq!(
        RecallError::DimensionMismatch { query: 384, stored: 12 }.message(),
        "embedding dimension mismatch: query=384, stored=12"
    );
    assert_eq!(RecallError::VectorAlreadyExists.message(), "vector already exists");
    let io = RecallError::IoError(std::io::Error::new(std::io::ErrorKind::Other, "disk gone"));
    assert_eq!(io.message(), "I/O error: disk gone");
}

#[test]
fn evaluation_outcomes_and_tally() {
    let results = vec![hit("dns"), hit("tcp")];
    assert_eq!(query_outcome(&results, &"dns".to_string()), (true, true));
    assert_eq!(query_outcome(&results, &"tcp".to_string()), (false, true));
    assert_eq!(query_outcome(&results, &"udp".to_string()), (false, false));
    assert_eq!(query_outcome(&vec![], &"udp".to_string()), (false, false));
    let queries = vec![query("dns"), query("tcp"), query("udp")];
    let per_query = vec![vec![hit("dns"), hit("tcp")], vec![hit("dns"), hit("tcp")], vec![]];
    assert_eq!(tally(&queries, &per_query), (1, 2));
}

#[test]
fn float_bit_comparisons() {
    assert!(f64_bits_eq(1.5f64.to_bits(), 1.5f64.to_bits()));
    assert!(f64_bits_eq(0.0f64.to_bits(), (-0.0f64).to_bits()));
    assert!(!f64_bits_eq(f64::NAN.to_bits(), f64::NAN.to_bits()));
    assert!(f32_bits_is_nan(f32::NAN.to_bits()));
    assert!(!f32_bits_is_nan(f32::INFINITY.to_bits()));
    assert!(f32_bits_ge(0.5f32.to_bits(), 0.25f32.to_bits()));
    assert!(!f32_bits_ge((-0.5f32).to_bits(), 0.25f32.to_bits()));
    assert!(f32_bits_ge((-0.0f32).to_bits(), 0.0f32.to_bits()));
    assert!(!f32_bits_ge(f32::NAN.to_bits(), 0.0f32.to_bits()));
    assert!(f32_bits_position((-2.0f32).to_bits()) < f32_bits_position((-1.0f32).to_bits()));
    assert!(f32_bits_position(1.0f32.to_bits()) < f32_bits_position(f32::INFINITY.to_bits()));
    assert_eq!(f32_bits_position((-0.0f32).to_bits()), 0);
}

#[test]
fn json_metadata_values() {
    assert_eq!(
        metadata_value_from_json(JsonScalar::String("x".to_string())).unwrap(),
        MetadataValue::String("x".to_string())
    );
    assert_eq!(
        metadata_value_from_json(JsonScalar::Number { as_i64: Some(5), as_f64: Some(5.0f64.to_bits()) })
            .unwrap(),
        MetadataValue::Integer(5)
    );
    assert_eq!(
        metadata_value_from_json(JsonScalar::Number { as_i64: None, as_f64: Some(2.5f64.to_bits()) })
            .unwrap(),
        MetadataValue::Float(2.5f64.to_bits())
    );
    assert_eq!(
        metadata_value_from_json(JsonScalar::Number { as_i64: None, as_f64: None }).unwrap_err(),
        "Unsupported number value"
    );
    assert_eq!(
        metadata_value_from_json(JsonScalar::Bool(true)).unwrap(),
        MetadataValue::Boolean(true)
    );
    assert_eq!(
        metadata_value_from_json(JsonScalar::Other).unwrap_err(),
        "Metadata values must be strings, numbers, or booleans"
    );
}

#[test]
fn outside_errors_convert_into_their_variants() {
    let io = RecallError::from(std::io::Error::new(std::io::ErrorKind::NotFound, "missing"));
    assert!(matches!(io, RecallError::IoError(_)));
    let json_error = serde_json::from_str::<u32>("not json").unwrap_err();
    let json = RecallError::from(json_error);
    assert!(matches!(json, RecallError::SerializationError(_)));
    assert!(json.message().starts_with("serialization error: "));
}

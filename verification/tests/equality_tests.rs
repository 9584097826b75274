use recall::chunker::Chunk;
use recall::config::EmbeddingConfig;
use recall::document::Document;
use recall::error::RecallError;
use recall::filter::MetadataFilter;
use recall::ranking::check_candidate_dimensions;
use recall::retrieval::SearchOptions;
use recall::search_result::SearchResult;
use recall::vector::Vector;
use recall::{Metadata, MetadataValue};

fn meta(pairs: &[(&str, MetadataValue)]) -> Metadata {
    let mut m = Metadata::new();
    for (k, v) in pairs {
        m.insert(k.to_string(), v.clone());
    }
    m
}

fn vector(id: &str, values: Vec<u32>) -> Vector {
    Vector { id: id.to_string(), values, metadata: Metadata::new() }
}

fn result(score: f32) -> SearchResult {
    SearchResult {
        document_id: "d".to_string(),
        chunk_id: "d_chunk_0".to_string(),
        chunk_index: 0,
        text: "t".to_string(),
        score: score.to_bits(),
        metadata: meta(&[("k", MetadataValue::Integer(1))]),
    }
}

#[test]
fn metadata_equality_ignores_insertion_order() {
    let a = meta(&[("x", MetadataValue::Integer(1)), ("y", MetadataValue::Boolean(true))]);
    let b = meta(&[("y", MetadataValue::Boolean(true)), ("x", MetadataValue::Integer(1))]);
    assert!(a == b);
    let c = meta(&[("x", MetadataValue::Integer(1))]);
    assert!(a != c);
    assert!(c != a);
    let d = meta(&[("x", MetadataValue::Integer(2)), ("y", MetadataValue::Boolean(true))]);
    assert!(a != d);
    let nan = meta(&[("f", MetadataValue::Float(f64::NAN.to_bits()))]);
    assert!(nan != nan.clone());
    assert!(Metadata::new() == Metadata::new());
}

#[test]
fn search_results_compare_scores_as_floats() {
    assert!(result(0.5) == result(0.5));
    assert!(result(0.5) != result(0.25));
    assert!(result(0.0) == result(-0.0));
    assert!(result(f32::NAN) != result(f32::NAN));
    let mut other = result(0.5);
    other.text = "u".to_string();
    assert!(result(0.5) != other);
    assert!(result(0.5).clone() == result(0.5));
}

#[test]
fn chunks_compare_field_by_field() {
    let chunk = Chunk {
        id: "d_chunk_0".to_string(),
        document_id: "d".to_string(),
        text: "a b".to_string(),
        chunk_index: 0,
        metadata: meta(&[("k", MetadataValue::String("v".to_string()))]),
    };
    let copy = chunk.clone();
    assert_eq!(copy, chunk);
    let mut moved = chunk.clone();
    moved.chunk_index = 1;
    assert_ne!(moved, chunk);
}

#[test]
fn configs_and_filters_compare_field_by_field() {
    let config = EmbeddingConfig {
        provider: "p".to_string(),
        model: "m".to_string(),
        dimension: 3,
        version: "1".to_string(),
    };
    assert_eq!(config.clone(), config);
    let mut other = config.clone();
    other.dimension = 4;
    assert_ne!(other, config);
    let f = MetadataFilter::new("k".to_string(), MetadataValue::Integer(3));
    assert_eq!(f.clone(), f);
    assert_ne!(MetadataFilter::new("k".to_string(), MetadataValue::Integer(4)), f);
    assert_ne!(MetadataFilter::new("j".to_string(), MetadataValue::Integer(3)), f);
}

#[test]
fn clones_keep_every_field() {
    let document = Document {
        id: "d".to_string(),
        text: "t".to_string(),
        metadata: meta(&[("a", MetadataValue::Integer(1))]),
    };
    let copy = document.clone();
    assert_eq!(copy.id, "d");
    assert_eq!(copy.text, "t");
    assert!(copy.metadata == document.metadata);
    let v = vector("v", vec![1, 2]);
    let w = v.clone();
    assert_eq!(w.id, "v");
    assert_eq!(w.values, vec![1, 2]);
    let options = SearchOptions {
        top_k: 5,
        document_id: Some("d".to_string()),
        min_score: Some(0.5f32.to_bits()),
        filters: vec![MetadataFilter::new("k".to_string(), MetadataValue::Boolean(false))],
    };
    let copy = options.clone();
    assert_eq!(copy.top_k, 5);
    assert_eq!(copy.document_id, Some("d".to_string()));
    assert_eq!(copy.min_score, Some(0.5f32.to_bits()));
    assert_eq!(copy.filters, options.filters);
}

#[test]
fn candidates_must_match_the_query_dimension() {
    let a = vector("a", vec![0, 0, 0]);
    let b = vector("b", vec![0, 0]);
    let c = vector("c", vec![0]);
    assert!(check_candidate_dimensions(3, &vec![&a]).is_ok());
    assert!(check_candidate_dimensions(7, &Vec::new()).is_ok());
    assert!(matches!(
        check_candidate_dimensions(3, &vec![&a, &b, &c]),
        Err(RecallError::DimensionMismatch { query: 3, stored: 2 })
    ));
    assert!(matches!(
        check_candidate_dimensions(2, &vec![&b, &c, &a]),
        Err(RecallError::DimensionMismatch { query: 2, stored: 1 })
    ));
}

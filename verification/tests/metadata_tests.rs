use recall::{Metadata, MetadataValue};

#[test]
fn test_metadata_values() {
    let title = MetadataValue::String(String::from("Learning Rust"));
    let year = MetadataValue::Integer(2026);
    let rating = MetadataValue::Float(4.8f64.to_bits());
    let published = MetadataValue::Boolean(true);

    assert_eq!(title, MetadataValue::String(String::from("Learning Rust")));

    assert_eq!(year, MetadataValue::Integer(2026));

    assert_eq!(rating, MetadataValue::Float(4.8f64.to_bits()));

    assert_eq!(published, MetadataValue::Boolean(true));
}

#[test]
fn float_values_compare_as_floats() {
    let nan = MetadataValue::Float(f64::NAN.to_bits());
    assert_ne!(nan, MetadataValue::Float(f64::NAN.to_bits()));
    assert_eq!(
        MetadataValue::Float(0.0f64.to_bits()),
        MetadataValue::Float((-0.0f64).to_bits())
    );
    assert_ne!(MetadataValue::Float(1.0f64.to_bits()), MetadataValue::Float(2.0f64.to_bits()));
}

#[test]
fn values_of_different_kinds_differ() {
    assert_ne!(MetadataValue::Integer(1), MetadataValue::Boolean(true));
    assert_ne!(
        MetadataValue::String("1".to_string()),
        MetadataValue::Integer(1)
    );
}

#[test]
fn metadata_insert_replaces_and_get_reads_back() {
    let mut metadata = Metadata::new();
    assert!(metadata.get("page").is_none());
    metadata.insert("page".to_string(), MetadataValue::Integer(1));
    metadata.insert("title".to_string(), MetadataValue::String("Notes".to_string()));
    metadata.insert("page".to_string(), MetadataValue::Integer(2));
    assert_eq!(metadata.get("page"), Some(&MetadataValue::Integer(2)));
    assert_eq!(
        metadata.get("title"),
        Some(&MetadataValue::String("Notes".to_string()))
    );
    let mut keys = metadata.keys();
    keys.sort();
    assert_eq!(keys, vec!["page".to_string(), "title".to_string()]);
}

#[test]
fn metadata_clone_is_equal() {
    let mut metadata = Metadata::new();
    metadata.insert("a".to_string(), MetadataValue::Boolean(false));
    let copy = metadata.clone();
    assert_eq!(copy.get("a"), Some(&MetadataValue::Boolean(false)));
}

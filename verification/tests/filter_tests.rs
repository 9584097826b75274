use recall::filter::MetadataFilter;
use recall::{Metadata, MetadataValue};

#[test]
fn test_filter_matches_metadata() {
    let mut metadata = Metadata::new();

    metadata.insert(
        "category".to_string(),
        MetadataValue::String("notes".to_string()),
    );

    let filter = MetadataFilter::new(
        "category".to_string(),
        MetadataValue::String("notes".to_string()),
    );

    assert!(filter.matches(&metadata));
}

#[test]
fn test_filter_rejects_different_value() {
    let mut metadata = Metadata::new();

    metadata.insert(
        "category".to_string(),
        MetadataValue::String("notes".to_string()),
    );

    let filter = MetadataFilter::new(
        "category".to_string(),
        MetadataValue::String("notes".to_string()),
    );

    assert!(filter.matches(&metadata))
}

#[test]
fn test_filter_rejects_missing_key() {
    let metadata = Metadata::new();

    let filter = MetadataFilter::new(
        "category".to_string(),
        MetadataValue::String("notes".to_string()),
    );

    assert!(!filter.matches(&metadata));
}

#[test]
fn filter_rejects_a_value_that_differs() {
    let mut metadata = Metadata::new();
    metadata.insert("category".to_string(), MetadataValue::String("recipes".to_string()));
    let filter = MetadataFilter::new(
        "category".to_string(),
        MetadataValue::String("notes".to_string()),
    );
    assert!(!filter.matches(&metadata));
}

#[test]
fn all_filters_must_match() {
    let mut metadata = Metadata::new();
    metadata.insert("subject".to_string(), MetadataValue::String("DBMS".to_string()));
    metadata.insert("semester".to_string(), MetadataValue::Integer(5));
    let both = vec![
        MetadataFilter::new("subject".to_string(), MetadataValue::String("DBMS".to_string())),
        MetadataFilter::new("semester".to_string(), MetadataValue::Integer(5)),
    ];
    assert!(recall::filter::matches_all(&both, &metadata));
    let one_wrong = vec![
        MetadataFilter::new("subject".to_string(), MetadataValue::String("DBMS".to_string())),
        MetadataFilter::new("semester".to_string(), MetadataValue::Integer(6)),
    ];
    assert!(!recall::filter::matches_all(&one_wrong, &metadata));
    assert!(recall::filter::matches_all(&vec![], &metadata));
}

use recall::chunker::{chunk_document, chunk_id};
use recall::document::Document;
use recall::{Metadata, MetadataValue};

#[test]
fn test_chunk_document() {
    let document = Document {
        id: String::from("doc_001"),
        text: String::from("Rust is a systems programming language used for fast software"),
        metadata: Metadata::new(),
    };

    let chunks = chunk_document(&document, 4, 1);

    assert_eq!(chunks.len(), 4);

    assert_eq!(chunks[0].text, "Rust is a systems");
    assert_eq!(chunks[1].text, "systems programming language used");
    assert_eq!(chunks[2].text, "used for fast software");
    assert_eq!(chunks[3].text, "software");

    assert_eq!(chunks[0].document_id, "doc_001");
    assert_eq!(chunks[0].chunk_index, 0);
    assert_eq!(chunks[1].chunk_index, 1);
    assert_eq!(chunks[2].chunk_index, 2);
    assert_eq!(chunks[3].chunk_index, 3);
}

#[test]
fn test_chunk_presence_document_metadata() {
    let mut metadata = Metadata::new();

    metadata.insert(
        "title".to_string(),
        MetadataValue::String("Rust Notes".to_string()),
    );

    metadata.insert("page".to_string(), MetadataValue::Integer(10));

    let document = Document {
        id: "doc_001".to_string(),
        text: "Rust is fast and safe".to_string(),
        metadata,
    };

    let chunks = chunk_document(&document, 4, 1);

    assert_eq!(
        chunks[0].metadata.get("title"),
        Some(&MetadataValue::String("Rust Notes".to_string()))
    );

    assert_eq!(
        chunks[0].metadata.get("page"),
        Some(&MetadataValue::Integer(10))
    );
}

#[test]
fn test_chunk_ids_are_stable_and_unique() {
    let document = Document {
        id: "doc_001".to_string(),
        text: "one two three four five six seven eight".to_string(),
        metadata: Metadata::new(),
    };

    let chunks_first = chunk_document(&document, 4, 1);
    let chunks_second = chunk_document(&document, 4, 1);

    for (first, second) in chunks_first.iter().zip(chunks_second.iter()) {
        assert_eq!(first.id, second.id);
    }

    assert_ne!(chunks_first[0].id, chunks_first[1].id);
    assert_ne!(chunks_first[1].id, chunks_first[2].id);

    assert_eq!(chunks_first[0].id, "doc_001_chunk_0");
    assert_eq!(chunks_first[1].id, "doc_001_chunk_1");
}

#[test]
fn chunking_rejects_degenerate_sizes() {
    let document = Document {
        id: "d".to_string(),
        text: "a b c".to_string(),
        metadata: Metadata::new(),
    };
    assert!(chunk_document(&document, 0, 0).is_empty());
    assert!(chunk_document(&document, 2, 2).is_empty());
    assert!(chunk_document(&document, 2, 5).is_empty());
}

#[test]
fn chunking_an_empty_text_gives_no_chunks() {
    let document = Document {
        id: "d".to_string(),
        text: "   ".to_string(),
        metadata: Metadata::new(),
    };
    assert!(chunk_document(&document, 3, 0).is_empty());
}

#[test]
fn chunk_count_follows_the_stride() {
    let document = Document {
        id: "d".to_string(),
        text: "w1 w2 w3 w4 w5 w6 w7".to_string(),
        metadata: Metadata::new(),
    };
    let chunks = chunk_document(&document, 3, 0);
    assert_eq!(chunks.len(), 3);
    assert_eq!(chunks[2].text, "w7");
    let whole = chunk_document(&document, 100, 1);
    assert_eq!(whole.len(), 1);
    assert_eq!(whole[0].text, "w1 w2 w3 w4 w5 w6 w7");
}

#[test]
fn chunk_ids_use_decimal_indices() {
    assert_eq!(chunk_id(&"notes".to_string(), 0), "notes_chunk_0");
    assert_eq!(chunk_id(&"notes".to_string(), 10), "notes_chunk_10");
    assert_eq!(chunk_id(&"notes".to_string(), 1234567), "notes_chunk_1234567");
}

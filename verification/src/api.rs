//! The values exchanged by the HTTP interface.
use vstd::prelude::*;
use crate::metadata::{MetadataValue, ValueView};
use crate::search_result::SearchResult;

verus! {

/// The chunk size used when a request names none.
pub fn default_chunk_size() -> (r: usize)
    ensures
        r == 100,
{
    100
}

/// The number of hits returned when a request names none.
pub fn default_top_k() -> (r: usize)
    ensures
        r == 3,
{
    3
}

#[derive(Debug)]
pub struct AddDocumentResponse {
    pub document_id: String,
    pub chunks_indexed: usize,
}

#[derive(Debug)]
pub struct DocumentSummary {
    pub document_id: String,
    pub chunks: usize,
}

#[derive(Debug)]
pub struct ListDocumentsResponse {
    pub documents: Vec<DocumentSummary>,
}

impl ListDocumentsResponse {
    /// The response listing `documents`, in the same order.
    pub fn from_documents(documents: Vec<(String, usize)>) -> (r: Self)
        ensures
            r.documents@.len() == documents@.len(),
            forall|i: int|
                0 <= i < documents@.len() ==> #[trigger] r.documents@[i].document_id@ == documents@[i].0@
                    && r.documents@[i].chunks == documents@[i].1,
    {
        let n = documents.len();
        let mut summaries: Vec<DocumentSummary> = Vec::new();
        for pair in iter: documents.into_iter()
            invariant
                iter.seq() == documents@,
                summaries@.len() == iter.index(),
                forall|i: int|
                    0 <= i < iter.index() ==> #[trigger] summaries@[i].document_id@ == documents@[i].0@
                        && summaries@[i].chunks == documents@[i].1,
        {
            let (document_id, chunks) = pair;
            summaries.push(DocumentSummary { document_id, chunks });
        }
        ListDocumentsResponse { documents: summaries }
    }
}

#[derive(Debug)]
pub struct SearchResponse {
    pub results: Vec<SearchResult>,
}

#[derive(Debug)]
pub struct DeleteDocumentResponse {
    pub document_id: String,
    pub chunks_deleted: usize,
}

/// A JSON value sent as metadata, as read from the request: a string, a
/// number with what `serde_json::Number::as_i64` and `as_f64` gave for it
/// (the `f64` held as its bit pattern), a boolean, or anything else.
#[derive(Debug)]
pub enum JsonScalar {
    String(String),
    Number { as_i64: Option<i64>, as_f64: Option<u64> },
    Bool(bool),
    Other,
}

/// The metadata value that a JSON value stands for: strings and booleans as
/// they are, a number as an integer when it is one, else as a float, and an
/// error for anything else.
pub open spec fn json_metadata_value(v: JsonScalar) -> Result<ValueView, Seq<char>> {
    match v {
        JsonScalar::String(s) => Ok(ValueView::Text(s@)),
        JsonScalar::Number { as_i64, as_f64 } => match as_i64 {
            Some(i) => Ok(ValueView::Integer(i)),
            None => match as_f64 {
                Some(f) => Ok(ValueView::Float(f)),
                None => Err("Unsupported number value"@),
            },
        },
        JsonScalar::Bool(b) => Ok(ValueView::Boolean(b)),
        JsonScalar::Other => Err("Metadata values must be strings, numbers, or booleans"@),
    }
}

/// A JSON string, integer, float or boolean becomes the metadata value of
/// the same kind holding the same contents; anything else is refused.
/// Different JSON values of one kind never give the same metadata value, so
/// in particular `true` and `false` stay apart.
pub proof fn lemma_json_values_kept(v: JsonScalar, u: JsonScalar)
    ensures
        v matches JsonScalar::Bool(b) ==> json_metadata_value(v) == Ok::<ValueView, Seq<char>>(
            ValueView::Boolean(b),
        ),
        v matches JsonScalar::String(s) ==> json_metadata_value(v) == Ok::<ValueView, Seq<char>>(
            ValueView::Text(s@),
        ),
        v matches JsonScalar::Number { as_i64: Some(i), .. } ==> json_metadata_value(v) == Ok::<
            ValueView,
            Seq<char>,
        >(ValueView::Integer(i)),
        v matches JsonScalar::Number { as_i64: None, as_f64: Some(f) } ==> json_metadata_value(v)
            == Ok::<ValueView, Seq<char>>(ValueView::Float(f)),
        v matches JsonScalar::Number { as_i64: None, as_f64: None } ==> json_metadata_value(v) is Err,
        v is Other ==> json_metadata_value(v) is Err,
        v matches JsonScalar::Bool(x) ==> (u matches JsonScalar::Bool(y) ==> (json_metadata_value(v)
            == json_metadata_value(u) ==> x == y)),
        v matches JsonScalar::String(x) ==> (u matches JsonScalar::String(y) ==> (json_metadata_value(v)
            == json_metadata_value(u) ==> x@ == y@)),
{
}

/// Computes `json_metadata_value`.
pub fn metadata_value_from_json(value: JsonScalar) -> (r: Result<MetadataValue, String>)
    ensures
        match (r, json_metadata_value(value)) {
            (Ok(v), Ok(w)) => v@ == w,
            (Err(m), Err(n)) => m@ == n,
            _ => false,
        },
        value matches JsonScalar::Bool(b) ==> r matches Ok(v) && v@ == ValueView::Boolean(b),
        value matches JsonScalar::String(s) ==> r matches Ok(v) && v@ == ValueView::Text(s@),
        value matches JsonScalar::Number { as_i64: Some(i), .. } ==> r matches Ok(v) && v@
            == ValueView::Integer(i),
        value matches JsonScalar::Number { as_i64: None, as_f64: Some(f) } ==> r matches Ok(v) && v@
            == ValueView::Float(f),
{
    match value {
        JsonScalar::String(s) => Ok(MetadataValue::String(s)),
        JsonScalar::Number { as_i64, as_f64 } => match as_i64 {
            Some(i) => Ok(MetadataValue::Integer(i)),
            None => match as_f64 {
                Some(f) => Ok(MetadataValue::Float(f)),
                None => Err("Unsupported number value".to_owned()),
            },
        },
        JsonScalar::Bool(b) => Ok(MetadataValue::Boolean(b)),
        JsonScalar::Other => Err("Metadata values must be strings, numbers, or booleans".to_owned()),
    }
}

} // verus!

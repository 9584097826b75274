//! A retrieved chunk with its score.
use vstd::prelude::*;
use crate::ieee::{f32_bits_eq, f32_eq};
use crate::metadata::{metadata_eq, Metadata, MetadataValue, ValueView};
use vstd::std_specs::cmp::PartialEqSpecImpl;
use crate::vector::{Vector, VectorView};

verus! {

/// A search hit. `score` is the cosine similarity, an `f32` held as its bit
/// pattern (`f32::to_bits`).
#[derive(Debug)]
pub struct SearchResult {
    pub document_id: String,
    pub chunk_id: String,
    pub chunk_index: usize,
    pub text: String,
    pub score: u32,
    pub metadata: Metadata,
}

/// The mathematical value of a `SearchResult`.
pub struct SearchResultView {
    pub document_id: Seq<char>,
    pub chunk_id: Seq<char>,
    pub chunk_index: usize,
    pub text: Seq<char>,
    pub score: u32,
    pub metadata: Map<Seq<char>, ValueView>,
}

impl View for SearchResult {
    type V = SearchResultView;

    open spec fn view(&self) -> SearchResultView {
        SearchResultView {
            document_id: self.document_id@,
            chunk_id: self.chunk_id@,
            chunk_index: self.chunk_index,
            text: self.text@,
            score: self.score,
            metadata: self.metadata@,
        }
    }
}

impl Clone for SearchResult {
    fn clone(&self) -> (r: Self)
        ensures
            r@ == self@,
    {
        SearchResult {
            document_id: self.document_id.clone(),
            chunk_id: self.chunk_id.clone(),
            chunk_index: self.chunk_index,
            text: self.text.clone(),
            score: self.score,
            metadata: self.metadata.clone(),
        }
    }
}

/// Equality of hits: equal fields, the scores compared as `f32` (`f32_eq`)
/// and the metadata by `metadata_eq`.
pub open spec fn result_eq(a: SearchResultView, b: SearchResultView) -> bool {
    &&& a.document_id == b.document_id
    &&& a.chunk_id == b.chunk_id
    &&& a.chunk_index == b.chunk_index
    &&& a.text == b.text
    &&& f32_eq(a.score, b.score)
    &&& metadata_eq(a.metadata, b.metadata)
}

impl PartialEq for SearchResult {
    fn eq(&self, other: &Self) -> (r: bool) {
        self.document_id.eq(&other.document_id) && self.chunk_id.eq(&other.chunk_id)
            && self.chunk_index == other.chunk_index && self.text.eq(&other.text) && f32_bits_eq(
            self.score,
            other.score,
        ) && self.metadata.eq(&other.metadata)
    }
}

impl PartialEqSpecImpl for SearchResult {
    open spec fn obeys_eq_spec() -> bool {
        true
    }

    open spec fn eq_spec(&self, other: &Self) -> bool {
        result_eq(self@, other@)
    }
}

/// The text stored under `key`, or the empty text when there is none.
pub open spec fn text_field(m: Map<Seq<char>, ValueView>, key: Seq<char>) -> Seq<char> {
    if m.contains_key(key) {
        match m[key] {
            ValueView::Text(s) => s,
            _ => Seq::empty(),
        }
    } else {
        Seq::empty()
    }
}

/// The integer stored under `key` converted with `as usize`, or 0 when
/// there is none.
pub open spec fn index_field(m: Map<Seq<char>, ValueView>, key: Seq<char>) -> usize {
    if m.contains_key(key) {
        match m[key] {
            ValueView::Integer(i) => i as usize,
            _ => 0,
        }
    } else {
        0
    }
}

/// The hit that a stored vector gives with the given score.
pub open spec fn result_view(w: VectorView, score: u32) -> SearchResultView {
    SearchResultView {
        document_id: text_field(w.metadata, "document_id"@),
        chunk_id: w.id,
        chunk_index: index_field(w.metadata, "chunk_index"@),
        text: text_field(w.metadata, "text"@),
        score,
        metadata: w.metadata,
    }
}

/// The views of a sequence of hits.
pub open spec fn result_views(s: Seq<SearchResult>) -> Seq<SearchResultView> {
    s.map_values(|r: SearchResult| r@)
}

impl SearchResult {
    /// The hit for `vector` with `score`.
    pub fn from_vector(vector: &Vector, score: u32) -> (r: SearchResult)
        ensures
            r@ == result_view(vector@, score),
    {
        let document_id = match vector.metadata.get("document_id") {
            Some(MetadataValue::String(id)) => id.clone(),
            _ => String::new(),
        };
        let chunk_index = match vector.metadata.get("chunk_index") {
            Some(MetadataValue::Integer(index)) => *index as usize,
            _ => 0,
        };
        let text = match vector.metadata.get("text") {
            Some(MetadataValue::String(text)) => text.clone(),
            _ => String::new(),
        };
        SearchResult {
            document_id,
            chunk_id: vector.id.clone(),
            chunk_index,
            text,
            score,
            metadata: vector.metadata.clone(),
        }
    }
}

} // verus!

//! Splitting a document into overlapping windows of words.
use vstd::prelude::*;
use crate::document::{Document, DocumentView};
use crate::metadata::{metadata_eq, Metadata, ValueView};
use vstd::std_specs::cmp::PartialEqSpecImpl;
use crate::text::{decimal, join_range, join_words, lemma_decimal_injective, push_decimal, split_words, views};
use crate::tokenizer::tokenize;
use vstd::string::StringExecFns;

verus! {

/// A window of a document's words.
#[derive(Debug)]
pub struct Chunk {
    pub id: String,
    pub document_id: String,
    pub text: String,
    pub chunk_index: usize,
    pub metadata: Metadata,
}

/// The mathematical value of a `Chunk`.
pub struct ChunkView {
    pub id: Seq<char>,
    pub document_id: Seq<char>,
    pub text: Seq<char>,
    pub chunk_index: usize,
    pub metadata: Map<Seq<char>, ValueView>,
}

impl View for Chunk {
    type V = ChunkView;

    open spec fn view(&self) -> ChunkView {
        ChunkView {
            id: self.id@,
            document_id: self.document_id@,
            text: self.text@,
            chunk_index: self.chunk_index,
            metadata: self.metadata@,
        }
    }
}

impl Clone for Chunk {
    fn clone(&self) -> (r: Self)
        ensures
            r@ == self@,
    {
        Chunk {
            id: self.id.clone(),
            document_id: self.document_id.clone(),
            text: self.text.clone(),
            chunk_index: self.chunk_index,
            metadata: self.metadata.clone(),
        }
    }
}

/// Equality of chunks: equal fields, the metadata compared by `metadata_eq`.
pub open spec fn chunk_eq(a: ChunkView, b: ChunkView) -> bool {
    &&& a.id == b.id
    &&& a.document_id == b.document_id
    &&& a.text == b.text
    &&& a.chunk_index == b.chunk_index
    &&& metadata_eq(a.metadata, b.metadata)
}

impl PartialEq for Chunk {
    fn eq(&self, other: &Self) -> (r: bool) {
        self.id.eq(&other.id) && self.document_id.eq(&other.document_id) && self.text.eq(&other.text)
            && self.chunk_index == other.chunk_index && self.metadata.eq(&other.metadata)
    }
}

impl PartialEqSpecImpl for Chunk {
    open spec fn obeys_eq_spec() -> bool {
        true
    }

    open spec fn eq_spec(&self, other: &Self) -> bool {
        chunk_eq(self@, other@)
    }
}

/// The identifier of chunk `index` of document `document_id`:
/// `<document_id>_chunk_<index>`.
pub open spec fn chunk_id_text(document_id: Seq<char>, index: nat) -> Seq<char> {
    document_id + "_chunk_"@ + decimal(index)
}

/// How many windows of stride `step` start inside `n` words.
pub open spec fn chunk_count(n: nat, step: nat) -> nat {
    if n == 0 {
        0
    } else {
        ((n - 1) as nat / step + 1) as nat
    }
}

/// Where the window of `size` words starting at `start` ends among `n` words.
pub open spec fn window_end(start: int, size: int, n: int) -> int {
    if start + size < n {
        start + size
    } else {
        n
    }
}

/// The chunks of `doc` in windows of `size` words, each window starting
/// `size - overlap` words after the previous one; none when `size` is 0 or
/// `overlap` is not below `size`.
pub open spec fn chunks_of(doc: DocumentView, size: nat, overlap: nat) -> Seq<ChunkView> {
    if size == 0 || overlap >= size {
        Seq::empty()
    } else {
        let words = split_words(doc.text);
        let step = (size - overlap) as nat;
        Seq::new(
            chunk_count(words.len(), step),
            |i: int|
                ChunkView {
                    id: chunk_id_text(doc.id, i as nat),
                    document_id: doc.id,
                    text: join_words(words.subrange(i * step, window_end(i * step, size as int, words.len() as int))),
                    chunk_index: i as usize,
                    metadata: doc.metadata,
                },
        )
    }
}

/// The views of a sequence of chunks.
pub open spec fn chunk_views(s: Seq<Chunk>) -> Seq<ChunkView> {
    s.map_values(|c: Chunk| c@)
}

/// Computes `chunk_id_text`.
pub fn chunk_id(document_id: &String, index: usize) -> (id: String)
    ensures
        id@ == chunk_id_text(document_id@, index as nat),
{
    let mut id = document_id.clone();
    id.append("_chunk_");
    push_decimal(&mut id, index);
    id
}

/// Window `i` starts inside the words exactly when `i` is below the count.
proof fn lemma_window_start(i: int, step: int, n: int)
    requires
        0 <= i,
        0 < step,
        0 < n,
    ensures
        (i * step < n) == (i < chunk_count(n as nat, step as nat)),
{
    let q = (n - 1) / step;
    let r = (n - 1) % step;
    assert(n - 1 == q * step + r && 0 <= r < step) by {
        vstd::arithmetic::div_mod::lemma_fundamental_div_mod(n - 1, step);
    }
    assert((i * step < n) == (i <= q)) by (nonlinear_arith)
        requires
            n - 1 == q * step + r,
            0 <= r < step,
            0 <= i,
            0 < step,
    ;
}

/// Splits `document` into chunks of `chunk_size` words, consecutive chunks
/// sharing `overlap` words.
pub fn chunk_document(document: &Document, chunk_size: usize, overlap: usize) -> (chunks: Vec<Chunk>)
    ensures
        chunk_views(chunks@) == chunks_of(document@, chunk_size as nat, overlap as nat),
{
    if chunk_size == 0 || overlap >= chunk_size {
        let r: Vec<Chunk> = Vec::new();
        assert(chunk_views(r@) =~= chunks_of(document@, chunk_size as nat, overlap as nat));
        return r;
    }
    let words = tokenize(document.text.as_str());
    let ghost ws = split_words(document.text@);
    let ghost expected = chunks_of(document@, chunk_size as nat, overlap as nat);
    let n = words.len();
    let step = chunk_size - overlap;
    let mut chunks: Vec<Chunk> = Vec::new();
    let mut start: usize = 0;
    let mut chunk_index: usize = 0;
    while start < n
        invariant
            views(words@) == ws,
            ws == split_words(document.text@),
            n == ws.len(),
            0 < step == chunk_size - overlap,
            expected == chunks_of(document@, chunk_size as nat, overlap as nat),
            expected.len() == chunk_count(n as nat, step as nat),
            start as int == if chunk_index * step < n { chunk_index * step } else { n as int },
            start < n ==> chunk_index < expected.len(),
            start >= n ==> chunk_index >= expected.len(),
            chunk_views(chunks@) == expected.take(chunk_index as int),
            chunks@.len() == chunk_index,
            chunk_index <= expected.len(),
        decreases n - start,
    {
        let end = if chunk_size < n - start {
            start + chunk_size
        } else {
            n
        };
        let text = join_range(&words, start, end);
        let id = chunk_id(&document.id, chunk_index);
        let chunk = Chunk {
            id,
            document_id: document.id.clone(),
            text,
            chunk_index,
            metadata: document.metadata.clone(),
        };
        assert(chunk@ == expected[chunk_index as int]);
        let ghost before = chunks@;
        chunks.push(chunk);
        assert(chunks@ == before.push(chunk));
        assert forall|j: int| 0 <= j < chunk_index implies #[trigger] chunk_views(chunks@)[j]
            == expected.take(chunk_index as int + 1)[j] by {
            assert(chunk_views(before)[j] == expected.take(chunk_index as int)[j]);
            assert(chunks@[j] == before[j]);
        }
        assert(chunk_views(chunks@) =~= expected.take(chunk_index as int + 1));
        proof {
            lemma_window_start(chunk_index as int + 1, step as int, n as int);
            assert((chunk_index + 1) * step == chunk_index * step + step) by (nonlinear_arith);
        }
        if step < n - start {
            start = start + step;
        } else {
            start = n;
        }
        chunk_index = chunk_index + 1;
    }
    assert(expected.take(chunk_index as int) =~= expected);
    chunks
}

/// Chunk identifiers are distinct within a document: different chunk
/// indices give different identifiers.
pub proof fn lemma_chunk_ids_distinct(document_id: Seq<char>, i: nat, j: nat)
    requires
        i != j,
    ensures
        chunk_id_text(document_id, i) != chunk_id_text(document_id, j),
{
    let prefix = document_id + "_chunk_"@;
    if chunk_id_text(document_id, i) == chunk_id_text(document_id, j) {
        assert(chunk_id_text(document_id, i).skip(prefix.len() as int) =~= decimal(i));
        assert(chunk_id_text(document_id, j).skip(prefix.len() as int) =~= decimal(j));
        lemma_decimal_injective(i, j);
    }
}

/// Every word of the document lies in some chunk: word `w` lies in window
/// `w / step`.
pub proof fn lemma_chunks_cover_words(doc: DocumentView, size: nat, overlap: nat, w: int)
    requires
        0 < size,
        overlap < size,
        0 <= w < split_words(doc.text).len(),
    ensures
        ({
            let step = (size - overlap) as nat;
            let i = w / step as int;
            &&& 0 <= i < chunks_of(doc, size, overlap).len()
            &&& i * step <= w < window_end(i * step, size as int, split_words(doc.text).len() as int)
        }),
{
    let step = (size - overlap) as int;
    let n = split_words(doc.text).len() as int;
    let i = w / step;
    assert(w == i * step + w % step && 0 <= w % step < step) by {
        vstd::arithmetic::div_mod::lemma_fundamental_div_mod(w, step);
    }
    assert(0 <= i) by {
        vstd::arithmetic::div_mod::lemma_div_pos_is_pos(w, step);
    }
    lemma_window_start(i, step, n);
}

} // verus!

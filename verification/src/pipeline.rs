//! Indexing a document: chunk it, embed each chunk, store the vectors.
use vstd::prelude::*;
use crate::chunker::{
    chunk_document, chunk_views, chunks_of, lemma_chunk_ids_distinct, window_end, Chunk, ChunkView,
};
use crate::document::DocumentView;
use crate::text::{join_words, split_words};
use crate::database::{
    belongs, document_count, document_key, document_of, lemma_document_count_upserted,
    lemma_lookup_upserted, lookup, Database,
};
use crate::document::Document;
use crate::embedding::{embedded, failed, EmbeddingProvider};
use crate::error::RecallError;
use crate::metadata::{MetadataValue, ValueView};
use crate::vector::{Vector, VectorView};

verus! {

/// The metadata stored with a chunk's vector: the document's metadata with
/// the chunk's `document_id`, `chunk_index` and `text`.
pub open spec fn chunk_metadata(c: ChunkView) -> Map<Seq<char>, ValueView> {
    c.metadata.insert("document_id"@, ValueView::Text(c.document_id)).insert(
        "chunk_index"@,
        ValueView::Integer(c.chunk_index as i64),
    ).insert("text"@, ValueView::Text(c.text))
}

/// A stored chunk's metadata holds the chunk's whole text under `text`, its
/// document under `document_id` and its index under `chunk_index`; every
/// other key keeps the value the document's metadata gives it.
pub proof fn lemma_chunk_metadata_fields(c: ChunkView)
    ensures
        chunk_metadata(c).contains_key("text"@) && chunk_metadata(c)["text"@] == ValueView::Text(c.text),
        chunk_metadata(c).contains_key("document_id"@) && chunk_metadata(c)["document_id"@]
            == ValueView::Text(c.document_id),
        chunk_metadata(c).contains_key("chunk_index"@) && chunk_metadata(c)["chunk_index"@]
            == ValueView::Integer(c.chunk_index as i64),
        forall|k: Seq<char>|
            k != "text"@ && k != "document_id"@ && k != "chunk_index"@ ==> (#[trigger] chunk_metadata(
                c,
            ).contains_key(k) <==> c.metadata.contains_key(k)) && (c.metadata.contains_key(k)
                ==> chunk_metadata(c)[k] == c.metadata[k]),
        chunk_metadata(c).dom() == c.metadata.dom().insert("document_id"@).insert("chunk_index"@).insert(
            "text"@,
        ),
{
    reveal_strlit("text");
    reveal_strlit("document_id");
    reveal_strlit("chunk_index");
    assert("text"@ != "document_id"@) by {
        assert("text"@.len() != "document_id"@.len());
    }
    assert("text"@ != "chunk_index"@) by {
        assert("text"@.len() != "chunk_index"@.len());
    }
    assert("document_id"@ != "chunk_index"@) by {
        assert("document_id"@[0] != "chunk_index"@[0]);
    }
    assert(chunk_metadata(c).dom() =~= c.metadata.dom().insert("document_id"@).insert("chunk_index"@).insert(
        "text"@,
    ));
}

/// The text stored with each chunk of a document is the whole window of
/// words it covers, joined by single spaces, with no cut.
pub proof fn lemma_stored_text_is_window(doc: DocumentView, size: nat, i: int)
    requires
        0 < size,
        0 <= i < chunks_of(doc, size, 0).len(),
    ensures
        chunk_metadata(chunks_of(doc, size, 0)[i])["text"@] == ValueView::Text(
            join_words(
                split_words(doc.text).subrange(
                    i * size,
                    window_end(i * size, size as int, split_words(doc.text).len() as int),
                ),
            ),
        ),
        chunk_metadata(chunks_of(doc, size, 0)[i])["text"@] == ValueView::Text(chunks_of(doc, size, 0)[i].text),
{
    lemma_chunk_metadata_fields(chunks_of(doc, size, 0)[i]);
}

/// `new` is `old` with the first `k` chunks stored: each under its
/// identifier with its chunk metadata and an embedding that `embedder` gave
/// for its text, every other identifier unchanged.
pub open spec fn holds_chunks<E: EmbeddingProvider>(
    embedder: &E,
    old: Seq<VectorView>,
    new: Seq<VectorView>,
    chunks: Seq<ChunkView>,
    k: int,
) -> bool {
    &&& forall|id: Seq<char>|
        (forall|i: int| 0 <= i < k ==> chunks[i].id != id) ==> #[trigger] lookup(new, id) == lookup(
            old,
            id,
        )
    &&& forall|i: int|
        0 <= i < k ==> (#[trigger] lookup(new, chunks[i].id) matches Some(w) && w.metadata
            == chunk_metadata(chunks[i]) && embedded(embedder, chunks[i].text, w.values))
}

/// The vector stored for `chunk` with embedding `values`: under the chunk's
/// identifier, with the chunk's metadata plus its `document_id`,
/// `chunk_index` and `text`.
pub fn chunk_vector(chunk: Chunk, values: Vec<u32>) -> (v: Vector)
    ensures
        v@ == (VectorView { id: chunk@.id, values: values@, metadata: chunk_metadata(chunk@) }),
        v@.metadata.contains_key("text"@) && v@.metadata["text"@] == ValueView::Text(chunk@.text),
        v@.metadata.contains_key("document_id"@) && v@.metadata["document_id"@] == ValueView::Text(
            chunk@.document_id,
        ),
        v@.metadata.contains_key("chunk_index"@) && v@.metadata["chunk_index"@] == ValueView::Integer(
            chunk@.chunk_index as i64,
        ),
{
    proof {
        lemma_chunk_metadata_fields(chunk@);
    }
    let Chunk { id, document_id, text, chunk_index, mut metadata } = chunk;
    metadata.insert("document_id".to_owned(), MetadataValue::String(document_id));
    metadata.insert("chunk_index".to_owned(), MetadataValue::Integer(chunk_index as i64));
    metadata.insert("text".to_owned(), MetadataValue::String(text));
    Vector { id, values, metadata }
}

/// No vector of `s` belongs to document `d`.
pub open spec fn lacks_document(s: Seq<VectorView>, d: Seq<char>) -> bool {
    forall|i: int| 0 <= i < s.len() ==> document_of(#[trigger] s[i]) != Some(d)
}

/// Chunks `document` into consecutive windows of `chunk_size` words (no
/// overlap), embeds each chunk's text in order and stores the chunk's vector
/// under its chunk identifier, replacing any vector stored there. Returns the
/// number of chunks stored. When the embedder fails on a chunk, the chunks
/// before it stay stored and the embedder's error is returned.
pub fn process_document<E: EmbeddingProvider>(
    document: &Document,
    chunk_size: usize,
    embedder: &E,
    database: &mut Database,
) -> (r: Result<usize, RecallError>)
    ensures
        r matches Ok(n) ==> n == chunks_of(document@, chunk_size as nat, 0)
            .len() && holds_chunks(
            embedder,
            old(database)@,
            final(database)@,
            chunks_of(document@, chunk_size as nat, 0),
            n as int,
        ),
        r matches Err(e) ==> exists|k: int|
            0 <= k < chunks_of(document@, chunk_size as nat, 0).len() && holds_chunks(
                embedder,
                old(database)@,
                final(database)@,
                chunks_of(document@, chunk_size as nat, 0),
                k,
            ) && #[trigger] failed(embedder, chunks_of(document@, chunk_size as nat, 0)[k].text, e),
        r matches Ok(n) ==> (lacks_document(old(database)@, document@.id) ==> document_count(
            final(database)@,
            document@.id,
        ) == n),
{
    let chunks = chunk_document(document, chunk_size, 0);
    let ghost cs = chunk_views(chunks@);
    let ghost start = database@;
    let n = chunks.len();
    let mut inserted: usize = 0;
    proof {
        crate::database::lemma_document_count_bound(start, document@.id);
    }
    for chunk in iter: chunks.into_iter()
        invariant
            iter.seq() == chunks@,
            cs == chunk_views(chunks@),
            cs == chunks_of(document@, chunk_size as nat, 0),
            cs.len() == n,
            start == old(database)@,
            inserted == iter.index(),
            holds_chunks(embedder, start, database@, cs, iter.index() as int),
            lacks_document(start, document@.id) ==> document_count(database@, document@.id)
                == iter.index(),
    {
        let ghost k = iter.index() as int;
        assert(chunk@ == cs[k]);
        let t = chunk.text.as_str();
        let embedding = match embedder.embed(t) {
            Ok(values) => values,
            Err(e) => {
                proof {
                    assert(embedder.fails_on(t, &e));
                    assert(failed(embedder, cs[k].text, e));
                }
                return Err(e);
            },
        };
        proof {
            assert(embedder.embeds(t, &embedding));
            assert(embedded(embedder, cs[k].text, embedding@));
        }
        let vector = chunk_vector(chunk, embedding);
        let ghost v = vector@;
        database.distinct_ids();
        let ghost before = database@;
        database.upsert(vector);
        proof {
            let d = document@.id;
            reveal_strlit("document_id");
            reveal_strlit("chunk_index");
            reveal_strlit("text");
            assert(document_key() == "document_id"@);
            assert("document_id"@[0] != "chunk_index"@[0]);
            assert("document_id"@.len() != "text"@.len());
            assert(v.metadata.contains_key(document_key()));
            assert(v.metadata[document_key()] == ValueView::Text(d));
            assert(belongs(v, d) == 1);
            lemma_document_count_upserted(before, v, d);
            if lacks_document(start, d) {
                assert(forall|i: int| 0 <= i < k ==> cs[i].id != v.id) by {
                    assert forall|i: int| 0 <= i < k implies cs[i].id != v.id by {
                        lemma_chunk_ids_distinct(d, i as nat, k as nat);
                    }
                }
                assert(lookup(before, v.id) == lookup(start, v.id));
                match lookup(start, v.id) {
                    Some(w) => {
                        crate::database::lemma_position(start, v.id);
                        let p = crate::database::position(start, v.id);
                        assert(start[p] == w);
                        assert(belongs(w, d) == 0);
                    },
                    None => {},
                }
            }
        }
        proof {
            assert forall|id: Seq<char>| #![auto]
                lookup(database@, id) == if id == v.id { Some(v) } else { lookup(before, id) } by {
                lemma_lookup_upserted(before, v, id);
            }
            assert forall|i: int| 0 <= i < k implies cs[i].id != cs[k].id by {
                lemma_chunk_ids_distinct(document@.id, i as nat, k as nat);
            }
            assert forall|id: Seq<char>|
                (forall|i: int| 0 <= i < k + 1 ==> cs[i].id != id) implies #[trigger] lookup(database@, id)
                == lookup(start, id) by {
                assert(cs[k].id != id);
                assert(forall|i: int| 0 <= i < k ==> cs[i].id != id);
            }
            assert forall|i: int|
                0 <= i < k + 1 implies (#[trigger] lookup(database@, cs[i].id) matches Some(w)
                && w.metadata == chunk_metadata(cs[i]) && embedded(embedder, cs[i].text, w.values)) by {
                if i < k {
                    assert(lookup(database@, cs[i].id) == lookup(before, cs[i].id));
                }
            }
        }
        inserted = inserted + 1;
    }
    Ok(inserted)
}

} // verus!

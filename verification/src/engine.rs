//! The engine: a vector store together with the embedder that fills it.
use vstd::prelude::*;
use crate::chunker::chunks_of;
use crate::config::EmbeddingConfig;
use crate::database::{
    document_count, document_key, document_of, document_pairs, lacks, lists_documents, Database,
};
use crate::document::Document;
use crate::embedding::{failed, EmbeddingProvider};
use crate::error::RecallError;
use crate::metadata::{MetadataValue, ValueView};
use crate::pipeline::{holds_chunks, lacks_document, process_document};
use crate::vector::VectorView;

verus! {

pub struct RecallEngine<E: EmbeddingProvider> {
    database: Database,
    embedder: E,
    embedding_config: EmbeddingConfig,
}

impl<E: EmbeddingProvider> RecallEngine<E> {
    /// The vectors the engine holds.
    pub closed spec fn stored(&self) -> Seq<VectorView> {
        self.database@
    }

    /// The embedder the engine indexes and searches with.
    pub closed spec fn held_embedder(&self) -> E {
        self.embedder
    }

    /// The description of the embedding model the engine was made with.
    pub closed spec fn held_config(&self) -> EmbeddingConfig {
        self.embedding_config
    }

    /// An engine with an empty store.
    pub fn new(embedder: E, embedding_config: EmbeddingConfig) -> (r: Self)
        ensures
            r.stored() == Seq::<VectorView>::empty(),
            r.held_embedder() == embedder,
            r.held_config() == embedding_config,
    {
        Self { database: Database::new(), embedder, embedding_config }
    }

    /// An engine over an existing store.
    pub fn with_database(database: Database, embedder: E, embedding_config: EmbeddingConfig) -> (r: Self)
        ensures
            r.stored() == database@,
            r.held_embedder() == embedder,
            r.held_config() == embedding_config,
    {
        Self { database, embedder, embedding_config }
    }

    /// The store.
    pub fn database(&self) -> (r: &Database)
        ensures
            r@ == self.stored(),
    {
        &self.database
    }

    /// The embedder.
    pub fn embedder(&self) -> (r: &E)
        ensures
            *r == self.held_embedder(),
    {
        &self.embedder
    }

    /// The description of the embedding model.
    pub fn embedding_config(&self) -> (r: &EmbeddingConfig)
        ensures
            *r == self.held_config(),
    {
        &self.embedding_config
    }

    /// Indexes `document` in chunks of `chunk_size` words with the engine's
    /// embedder; see `process_document`.
    pub fn add_document(&mut self, document: &Document, chunk_size: usize) -> (r: Result<usize, RecallError>)
        ensures
            r matches Ok(n) ==> n == chunks_of(document@, chunk_size as nat, 0)
                .len() && holds_chunks(
                &old(self).held_embedder(),
                old(self).stored(),
                final(self).stored(),
                chunks_of(document@, chunk_size as nat, 0),
                n as int,
            ),
            r matches Err(e) ==> exists|k: int|
                0 <= k < chunks_of(document@, chunk_size as nat, 0).len() && holds_chunks(
                    &old(self).held_embedder(),
                    old(self).stored(),
                    final(self).stored(),
                    chunks_of(document@, chunk_size as nat, 0),
                    k,
                ) && #[trigger] failed(
                    &old(self).held_embedder(),
                    chunks_of(document@, chunk_size as nat, 0)[k].text,
                    e,
                ),
            r matches Ok(n) ==> (lacks_document(old(self).stored(), document@.id) ==> document_count(
                final(self).stored(),
                document@.id,
            ) == n),
            final(self).held_embedder() == old(self).held_embedder(),
            final(self).held_config() == old(self).held_config(),
    {
        let r = process_document(document, chunk_size, &self.embedder, &mut self.database);
        proof {
            let chunks = chunks_of(document@, chunk_size as nat, 0);
            if let Err(e) = &r {
                let e = *e;
                let k = choose|k: int|
                    0 <= k < chunks.len() && holds_chunks(&self.embedder, old(self).database@, self.database@, chunks, k)
                        && #[trigger] failed(&self.embedder, chunks[k].text, e);
                assert(holds_chunks(&old(self).held_embedder(), old(self).stored(), self.stored(), chunks, k));
                assert(failed(&old(self).held_embedder(), chunks[k].text, e));
            }
        }
        r
    }

    /// Removes every vector of document `document_id` and returns how many
    /// were removed.
    pub fn delete_document(&mut self, document_id: &str) -> (deleted: usize)
        ensures
            final(self).stored() == old(self).stored().filter(
                lacks("document_id"@, ValueView::Text(document_id@)),
            ),
            deleted == old(self).stored().len() - final(self).stored().len(),
            deleted == document_count(old(self).stored(), document_id@),
            final(self).held_embedder() == old(self).held_embedder(),
            final(self).held_config() == old(self).held_config(),
    {
        let deleted = self.database.delete_by_metadata(
            "document_id",
            &MetadataValue::String(document_id.to_owned()),
        );
        proof {
            lemma_deleted_count(old(self).stored(), document_id@);
        }
        deleted
    }

    /// The documents held, in increasing lexicographic order, each with the
    /// number of its vectors.
    pub fn list_documents(&self) -> (r: Vec<(String, usize)>)
        ensures
            lists_documents(self.stored(), document_pairs(r@)),
    {
        self.database.list_documents()
    }
}

/// Removing the vectors of document `d` removes exactly its count of them.
pub proof fn lemma_deleted_count(s: Seq<VectorView>, d: Seq<char>)
    ensures
        s.filter(lacks("document_id"@, ValueView::Text(d))).len() + document_count(s, d) == s.len(),
    decreases s.len(),
{
    reveal(Seq::filter);
    if s.len() > 0 {
        lemma_deleted_count(s.drop_last(), d);
        let w = s.last();
        assert(document_key() == "document_id"@);
        if w.metadata.contains_key("document_id"@) {
            match w.metadata["document_id"@] {
                ValueView::Text(t) => {},
                _ => {},
            }
        }
    }
}

/// After a document is deleted, no vector of it remains.
pub proof fn lemma_deleted_document_gone(s: Seq<VectorView>, d: Seq<char>)
    ensures
        forall|i: int|
            0 <= i < s.filter(lacks("document_id"@, ValueView::Text(d))).len() ==> document_of(
                #[trigger] s.filter(lacks("document_id"@, ValueView::Text(d)))[i],
            ) != Some(d),
{
    broadcast use vstd::seq_lib::group_filter_ensures;
    let pred = lacks("document_id"@, ValueView::Text(d));
    assert forall|i: int| 0 <= i < s.filter(pred).len() implies document_of(#[trigger] s.filter(pred)[i]) != Some(d) by {
        s.lemma_filter_pred(pred, i);
    }
}

} // verus!

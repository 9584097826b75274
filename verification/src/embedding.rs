//! Sources of embeddings.
use vstd::prelude::*;
use crate::error::RecallError;
use vstd::string::StringExecFns;

verus! {

/// Turns a text into an embedding vector, whose components are `f32` values
/// held as their bit patterns (`f32::to_bits`). What it returns is up to the
/// implementation, which may reach an outside service; `embeds` and
/// `fails_on` name what it returned.
pub trait EmbeddingProvider {
    /// `values` is an embedding this provider gives for `text`.
    spec fn embeds(&self, text: &str, values: &Vec<u32>) -> bool;

    /// `error` is a failure this provider reports for `text`.
    spec fn fails_on(&self, text: &str, error: &RecallError) -> bool;

    fn embed(&self, text: &str) -> (r: Result<Vec<u32>, RecallError>)
        ensures
            r matches Ok(v) ==> self.embeds(text, &v),
            r matches Err(e) ==> self.fails_on(text, &e),
    ;
}

/// `values` is an embedding that `embedder` gave for a text reading `text`.
pub open spec fn embedded<E: EmbeddingProvider>(embedder: &E, text: Seq<char>, values: Seq<u32>) -> bool {
    exists|t: &str, v: Vec<u32>| t@ == text && v@ == values && #[trigger] embedder.embeds(t, &v)
}

/// `error` is a failure that `embedder` reported for a text reading `text`.
pub open spec fn failed<E: EmbeddingProvider>(embedder: &E, text: Seq<char>, error: RecallError) -> bool {
    exists|t: &str| t@ == text && #[trigger] embedder.fails_on(t, &error)
}

/// The address of an HTTP embedding service.
#[derive(Debug)]
pub struct EmbeddingClient {
    base_url: String,
}

impl EmbeddingClient {
    /// The service's base URL.
    pub closed spec fn url(&self) -> Seq<char> {
        self.base_url@
    }

    pub fn new(base_url: String) -> (r: Self)
        ensures
            r.url() == base_url@,
    {
        Self { base_url }
    }

    /// The service's base URL.
    pub fn base_url(&self) -> (r: &String)
        ensures
            r@ == self.url(),
    {
        &self.base_url
    }

    /// The URL that embedding requests are posted to: `<base_url>/embed`.
    pub fn endpoint(&self) -> (r: String)
        ensures
            r@ == self.url() + "/embed"@,
    {
        let mut r = self.base_url.clone();
        r.append("/embed");
        r
    }
}

} // verus!

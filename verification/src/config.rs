//! The description of the embedding model that produced the stored vectors.
use vstd::prelude::*;
use vstd::std_specs::cmp::PartialEqSpecImpl;

verus! {

#[derive(Debug)]
pub struct EmbeddingConfig {
    pub provider: String,
    pub model: String,
    pub dimension: usize,
    pub version: String,
}

impl Clone for EmbeddingConfig {
    fn clone(&self) -> (r: Self)
        ensures
            r.provider@ == self.provider@,
            r.model@ == self.model@,
            r.dimension == self.dimension,
            r.version@ == self.version@,
    {
        EmbeddingConfig {
            provider: self.provider.clone(),
            model: self.model.clone(),
            dimension: self.dimension,
            version: self.version.clone(),
        }
    }
}

impl PartialEq for EmbeddingConfig {
    fn eq(&self, other: &Self) -> (r: bool) {
        self.provider.eq(&other.provider) && self.model.eq(&other.model) && self.dimension
            == other.dimension && self.version.eq(&other.version)
    }
}

impl PartialEqSpecImpl for EmbeddingConfig {
    open spec fn obeys_eq_spec() -> bool {
        true
    }

    open spec fn eq_spec(&self, other: &Self) -> bool {
        &&& self.provider@ == other.provider@
        &&& self.model@ == other.model@
        &&& self.dimension == other.dimension
        &&& self.version@ == other.version@
    }
}

} // verus!

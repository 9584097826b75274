//! A stored embedding with its identifier and metadata.
use vstd::prelude::*;
use crate::metadata::{Metadata, ValueView};

verus! {

/// An embedding vector. Its components are `f32` values held as their bit
/// patterns (`f32::to_bits`).
#[derive(Debug)]
pub struct Vector {
    pub id: String,
    pub values: Vec<u32>,
    pub metadata: Metadata,
}

/// The mathematical value of a `Vector`.
pub struct VectorView {
    pub id: Seq<char>,
    pub values: Seq<u32>,
    pub metadata: Map<Seq<char>, ValueView>,
}

impl View for Vector {
    type V = VectorView;

    open spec fn view(&self) -> VectorView {
        VectorView { id: self.id@, values: self.values@, metadata: self.metadata@ }
    }
}

impl Clone for Vector {
    fn clone(&self) -> (r: Self)
        ensures
            r@ == self@,
    {
        let values = self.values.clone();
        assert(values@ =~= self.values@);
        Vector { id: self.id.clone(), values, metadata: self.metadata.clone() }
    }
}

} // verus!

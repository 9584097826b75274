//! Equality filters over metadata.
use vstd::prelude::*;
use crate::metadata::{lemma_value_eq_is_equality, value_eq, Metadata, MetadataValue, ValueView};
use vstd::std_specs::cmp::PartialEqSpecImpl;

verus! {

/// Metadata `m` stores under `key` a value equal to `value`.
pub open spec fn filter_holds(key: Seq<char>, value: ValueView, m: Map<Seq<char>, ValueView>) -> bool {
    m.contains_key(key) && value_eq(m[key], value)
}

/// A filter on a string, integer or boolean holds exactly when the metadata
/// stores that very value under the filter's key, and no filter holds where
/// the key is missing.
pub proof fn lemma_filter_is_lookup(key: Seq<char>, value: ValueView, m: Map<Seq<char>, ValueView>)
    ensures
        !(value is Float) ==> (filter_holds(key, value, m) <==> m.contains_key(key) && m[key] == value),
        !m.contains_key(key) ==> !filter_holds(key, value, m),
{
    if m.contains_key(key) {
        lemma_value_eq_is_equality(m[key], value);
    }
}

/// A filter that keeps the items whose metadata stores `value` under `key`.
#[derive(Debug)]
pub struct MetadataFilter {
    pub key: String,
    pub value: MetadataValue,
}

impl View for MetadataFilter {
    type V = (Seq<char>, ValueView);

    open spec fn view(&self) -> (Seq<char>, ValueView) {
        (self.key@, self.value@)
    }
}

/// Every filter of `filters` holds of `m`.
pub open spec fn all_hold(filters: Seq<(Seq<char>, ValueView)>, m: Map<Seq<char>, ValueView>) -> bool {
    forall|i: int| 0 <= i < filters.len() ==> filter_holds(#[trigger] filters[i].0, filters[i].1, m)
}

impl MetadataFilter {
    pub fn new(key: String, value: MetadataValue) -> (r: Self)
        ensures
            r.key == key,
            r.value == value,
    {
        Self { key, value }
    }

    /// Whether `metadata` stores under this filter's key a value equal to its value.
    pub fn matches(&self, metadata: &Metadata) -> (r: bool)
        ensures
            r == filter_holds(self.key@, self.value@, metadata@),
    {
        match metadata.get(self.key.as_str()) {
            Some(v) => v.eq(&self.value),
            None => false,
        }
    }
}

impl Clone for MetadataFilter {
    fn clone(&self) -> (r: Self)
        ensures
            r@ == self@,
    {
        MetadataFilter { key: self.key.clone(), value: self.value.clone() }
    }
}

impl PartialEq for MetadataFilter {
    fn eq(&self, other: &Self) -> (r: bool) {
        self.key.eq(&other.key) && self.value.eq(&other.value)
    }
}

impl PartialEqSpecImpl for MetadataFilter {
    open spec fn obeys_eq_spec() -> bool {
        true
    }

    open spec fn eq_spec(&self, other: &Self) -> bool {
        self.key@ == other.key@ && value_eq(self.value@, other.value@)
    }
}

/// Whether every filter of `filters` matches `metadata`.
pub fn matches_all(filters: &Vec<MetadataFilter>, metadata: &Metadata) -> (r: bool)
    ensures
        r == all_hold(filters@.map_values(|f: MetadataFilter| f@), metadata@),
{
    let ghost fs = filters@.map_values(|f: MetadataFilter| f@);
    let mut i: usize = 0;
    while i < filters.len()
        invariant
            0 <= i <= filters@.len(),
            fs == filters@.map_values(|f: MetadataFilter| f@),
            forall|j: int| 0 <= j < i ==> filter_holds(#[trigger] fs[j].0, fs[j].1, metadata@),
        decreases filters@.len() - i,
    {
        if !filters[i].matches(metadata) {
            assert(!filter_holds(fs[i as int].0, fs[i as int].1, metadata@));
            return false;
        }
        i = i + 1;
    }
    true
}

} // verus!

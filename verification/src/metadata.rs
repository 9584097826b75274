//! Metadata values and the string-keyed metadata map attached to documents,
//! chunks and vectors.
use vstd::prelude::*;
use vstd::std_specs::cmp::PartialEqSpecImpl;
use crate::ieee::{f64_bits_eq, f64_eq, f64_is_nan};

verus! {

/// A metadata value. A floating-point number is held as the bit pattern of
/// its `f64` (`f64::to_bits`).
#[derive(Debug)]
pub enum MetadataValue {
    String(String),
    Integer(i64),
    Float(u64),
    Boolean(bool),
}

/// The mathematical value of a `MetadataValue`.
pub enum ValueView {
    Text(Seq<char>),
    Integer(i64),
    Float(u64),
    Boolean(bool),
}

impl View for MetadataValue {
    type V = ValueView;

    open spec fn view(&self) -> ValueView {
        match self {
            MetadataValue::String(s) => ValueView::Text(s@),
            MetadataValue::Integer(i) => ValueView::Integer(*i),
            MetadataValue::Float(f) => ValueView::Float(*f),
            MetadataValue::Boolean(b) => ValueView::Boolean(*b),
        }
    }
}

/// Equality of metadata values: the same variant holding equal contents,
/// numbers compared as `f64` are (a NaN equals nothing, the two zeros are equal).
pub open spec fn value_eq(a: ValueView, b: ValueView) -> bool {
    match (a, b) {
        (ValueView::Text(x), ValueView::Text(y)) => x == y,
        (ValueView::Integer(x), ValueView::Integer(y)) => x == y,
        (ValueView::Float(x), ValueView::Float(y)) => f64_eq(x, y),
        (ValueView::Boolean(x), ValueView::Boolean(y)) => x == y,
        _ => false,
    }
}

impl MetadataValue {
    /// The text held by a `String` value.
    pub open spec fn text_of(v: ValueView) -> Option<Seq<char>> {
        match v {
            ValueView::Text(s) => Some(s),
            _ => None,
        }
    }
}

impl Clone for MetadataValue {
    fn clone(&self) -> (r: Self)
        ensures
            r@ == self@,
    {
        match self {
            MetadataValue::String(s) => MetadataValue::String(s.clone()),
            MetadataValue::Integer(i) => MetadataValue::Integer(*i),
            MetadataValue::Float(f) => MetadataValue::Float(*f),
            MetadataValue::Boolean(b) => MetadataValue::Boolean(*b),
        }
    }
}

impl PartialEq for MetadataValue {
    fn eq(&self, other: &Self) -> (r: bool) {
        match (self, other) {
            (MetadataValue::String(x), MetadataValue::String(y)) => x.eq(y),
            (MetadataValue::Integer(x), MetadataValue::Integer(y)) => *x == *y,
            (MetadataValue::Float(x), MetadataValue::Float(y)) => f64_bits_eq(*x, *y),
            (MetadataValue::Boolean(x), MetadataValue::Boolean(y)) => *x == *y,
            _ => false,
        }
    }
}

impl PartialEqSpecImpl for MetadataValue {
    open spec fn obeys_eq_spec() -> bool {
        true
    }

    open spec fn eq_spec(&self, other: &Self) -> bool {
        value_eq(self@, other@)
    }
}

/// The value stored under `k` in a list of entries; a later entry shadows an
/// earlier one with the same key.
pub open spec fn entry_lookup(s: Seq<(String, MetadataValue)>, k: Seq<char>) -> Option<ValueView>
    decreases s.len(),
{
    if s.len() == 0 {
        None
    } else if s.last().0@ == k {
        Some(s.last().1@)
    } else {
        entry_lookup(s.drop_last(), k)
    }
}

/// No two entries share a key.
pub open spec fn keys_distinct(s: Seq<(String, MetadataValue)>) -> bool {
    forall|i: int, j: int| 0 <= i < j < s.len() ==> s[i].0@ != s[j].0@
}

/// A map from string keys to metadata values.
#[derive(Debug)]
pub struct Metadata {
    entries: Vec<(String, MetadataValue)>,
}

impl Metadata {
    #[verifier::type_invariant]
    spec fn distinct(self) -> bool {
        keys_distinct(self.entries@)
    }
}

impl View for Metadata {
    type V = Map<Seq<char>, ValueView>;

    closed spec fn view(&self) -> Map<Seq<char>, ValueView> {
        entries_map(self.entries@)
    }
}

/// The map that a list of entries describes.
pub open spec fn entries_map(s: Seq<(String, MetadataValue)>) -> Map<Seq<char>, ValueView> {
    Map::new(|k: Seq<char>| entry_lookup(s, k) is Some, |k: Seq<char>| entry_lookup(s, k)->Some_0)
}

proof fn lemma_entries_map_insert(
    a: Seq<(String, MetadataValue)>,
    b: Seq<(String, MetadataValue)>,
    key: Seq<char>,
    value: ValueView,
)
    requires
        forall|k: Seq<char>| #![auto]
            entry_lookup(b, k) == if k == key {
                Some(value)
            } else {
                entry_lookup(a, k)
            },
    ensures
        entries_map(b) == entries_map(a).insert(key, value),
{
    assert forall|k: Seq<char>| #![auto] entries_map(b).contains_key(k) == entries_map(a).insert(key, value).contains_key(k) by {
        assert(entry_lookup(b, k) == if k == key { Some(value) } else { entry_lookup(a, k) });
    }
    assert forall|k: Seq<char>| #![auto] entries_map(b).contains_key(k) implies entries_map(b)[k] == entries_map(a).insert(key, value)[k] by {
        assert(entry_lookup(b, k) == if k == key { Some(value) } else { entry_lookup(a, k) });
    }
    assert(entries_map(b) =~= entries_map(a).insert(key, value));
}

proof fn lemma_lookup_found(s: Seq<(String, MetadataValue)>, i: int)
    requires
        keys_distinct(s),
        0 <= i < s.len(),
    ensures
        entry_lookup(s, s[i].0@) == Some(s[i].1@),
    decreases s.len(),
{
    if i < s.len() - 1 {
        lemma_lookup_found(s.drop_last(), i);
    }
}

proof fn lemma_lookup_absent(s: Seq<(String, MetadataValue)>, k: Seq<char>)
    requires
        forall|i: int| 0 <= i < s.len() ==> s[i].0@ != k,
    ensures
        entry_lookup(s, k) is None,
    decreases s.len(),
{
    if s.len() > 0 {
        lemma_lookup_absent(s.drop_last(), k);
    }
}

proof fn lemma_lookup_update(
    s: Seq<(String, MetadataValue)>,
    i: int,
    e: (String, MetadataValue),
    k: Seq<char>,
)
    requires
        keys_distinct(s),
        0 <= i < s.len(),
        s[i].0@ == e.0@,
    ensures
        entry_lookup(s.update(i, e), k) == if k == e.0@ {
            Some(e.1@)
        } else {
            entry_lookup(s, k)
        },
    decreases s.len(),
{
    let t = s.update(i, e);
    if i == s.len() - 1 {
        assert(t.drop_last() =~= s.drop_last());
        if k == e.0@ {
        } else {
        }
    } else {
        assert(t.drop_last() =~= s.drop_last().update(i, e));
        lemma_lookup_update(s.drop_last(), i, e, k);
        if k == e.0@ {
            assert(s.last().0@ != s[i].0@);
        }
    }
}

impl Metadata {
    /// An empty map.
    pub fn new() -> (m: Metadata)
        ensures
            m@ == Map::<Seq<char>, ValueView>::empty(),
    {
        let m = Metadata { entries: Vec::new() };
        assert(m@ =~= Map::<Seq<char>, ValueView>::empty());
        m
    }

    /// Stores `value` under `key`, replacing what was stored there.
    pub fn insert(&mut self, key: String, value: MetadataValue)
        ensures
            final(self)@ == old(self)@.insert(key@, value@),
    {
        proof {
            use_type_invariant(&*self);
        }
        let ghost old_entries = self.entries@;
        let mut i: usize = 0;
        while i < self.entries.len()
            invariant
                self.entries@ == old_entries,
                old(self).entries@ == old_entries,
                keys_distinct(old_entries),
                0 <= i <= old_entries.len(),
                forall|j: int| 0 <= j < i ==> old_entries[j].0@ != key@,
            decreases old_entries.len() - i,
        {
            if self.entries[i].0 == key {
                let ghost e = (key, value);
                proof {
                    assert forall|k: Seq<char>| #![auto]
                        entry_lookup(old_entries.update(i as int, e), k) == if k == key@ {
                            Some(value@)
                        } else {
                            entry_lookup(old_entries, k)
                        } by {
                        lemma_lookup_update(old_entries, i as int, e, k);
                    }
                    assert(keys_distinct(old_entries.update(i as int, e)));
                }
                let mut entries: Vec<(String, MetadataValue)> = Vec::new();
                std::mem::swap(&mut entries, &mut self.entries);
                entries.set(i, (key, value));
                assert(entries@ == old_entries.update(i as int, e));
                self.entries = entries;
                assert(forall|k: Seq<char>| #![auto] entry_lookup(self.entries@, k) == if k == key@ {
                            Some(value@)
                        } else {
                            entry_lookup(old_entries, k)
                        });
                proof {
                    lemma_entries_map_insert(old_entries, self.entries@, key@, value@);
                }
                return ;
            }
            i = i + 1;
        }
        let ghost e = (key, value);
        proof {
            assert(keys_distinct(old_entries.push(e)));
            assert(old_entries.push(e).drop_last() =~= old_entries);
        }
        let mut entries: Vec<(String, MetadataValue)> = Vec::new();
        std::mem::swap(&mut entries, &mut self.entries);
        entries.push((key, value));
        self.entries = entries;
        proof {
            lemma_entries_map_insert(old_entries, self.entries@, key@, value@);
        }
    }

    /// The value stored under `key`, if any.
    pub fn get(&self, key: &str) -> (r: Option<&MetadataValue>)
        ensures
            r is Some == self@.contains_key(key@),
            r matches Some(v) ==> v@ == self@[key@],
    {
        proof {
            use_type_invariant(self);
        }
        let wanted = key.to_owned();
        let mut i: usize = 0;
        while i < self.entries.len()
            invariant
                keys_distinct(self.entries@),
                wanted@ == key@,
                0 <= i <= self.entries@.len(),
                forall|j: int| 0 <= j < i ==> self.entries@[j].0@ != key@,
            decreases self.entries@.len() - i,
        {
            if self.entries[i].0 == wanted {
                proof {
                    lemma_lookup_found(self.entries@, i as int);
                }
                return Some(&self.entries[i].1);
            }
            i = i + 1;
        }
        proof {
            lemma_lookup_absent(self.entries@, key@);
        }
        None
    }

    /// The keys, each once.
    pub fn keys(&self) -> (r: Vec<String>)
        ensures
            r@.map_values(|s: String| s@).no_duplicates(),
            forall|k: Seq<char>| self@.contains_key(k) <==> r@.map_values(|s: String| s@).contains(k),
    {
        proof {
            use_type_invariant(self);
        }
        let mut r: Vec<String> = Vec::new();
        let mut i: usize = 0;
        while i < self.entries.len()
            invariant
                keys_distinct(self.entries@),
                0 <= i <= self.entries@.len(),
                r@.len() == i,
                forall|j: int| 0 <= j < i ==> r@[j]@ == self.entries@[j].0@,
            decreases self.entries@.len() - i,
        {
            r.push(self.entries[i].0.clone());
            i = i + 1;
        }
        let ghost ks = r@.map_values(|s: String| s@);
        assert forall|k: Seq<char>| self@.contains_key(k) <==> ks.contains(k) by {
            if ks.contains(k) {
                let j = choose|j: int| 0 <= j < ks.len() && ks[j] == k;
                lemma_lookup_found(self.entries@, j);
            }
            if !ks.contains(k) {
                assert forall|j: int| 0 <= j < self.entries@.len() implies self.entries@[j].0@ != k by {
                    assert(ks[j] == self.entries@[j].0@);
                }
                lemma_lookup_absent(self.entries@, k);
            }
        }
        r
    }
}

impl Clone for Metadata {
    fn clone(&self) -> (r: Self)
        ensures
            r@ == self@,
    {
        proof {
            use_type_invariant(self);
        }
        let mut entries: Vec<(String, MetadataValue)> = Vec::new();
        let mut i: usize = 0;
        while i < self.entries.len()
            invariant
                keys_distinct(self.entries@),
                0 <= i <= self.entries@.len(),
                entries@.len() == i,
                forall|j: int|
                    0 <= j < i ==> #[trigger] entries@[j].0@ == self.entries@[j].0@
                        && entries@[j].1@ == self.entries@[j].1@,
            decreases self.entries@.len() - i,
        {
            let k = self.entries[i].0.clone();
            let v = self.entries[i].1.clone();
            entries.push((k, v));
            i = i + 1;
        }
        proof {
            assert forall|k: Seq<char>| entry_lookup(entries@, k) == entry_lookup(self.entries@, k) by {
                lemma_lookup_same(entries@, self.entries@, k);
            }
        }
        let r = Metadata { entries };
        assert(r@ =~= self@);
        r
    }
}

/// Metadata values of the same kind that are not floats are equal exactly
/// when they hold the same string, integer or boolean; values of different
/// kinds are never equal; floats are equal as `f64` are: neither is a NaN and
/// the bits agree or both are zeros.
pub proof fn lemma_value_eq_is_equality(a: ValueView, b: ValueView)
    ensures
        !(a is Float) ==> (value_eq(a, b) <==> a == b),
        (a is Float && b is Float) ==> (value_eq(a, b) <==> {
            let x = a->Float_0;
            let y = b->Float_0;
            &&& !f64_is_nan(x)
            &&& !f64_is_nan(y)
            &&& (x == y || ((x & 0x7fff_ffff_ffff_ffffu64) == 0 && (y & 0x7fff_ffff_ffff_ffffu64) == 0))
        }),
        (a is Float) != (b is Float) ==> !value_eq(a, b),
        forall|x: bool, y: bool| #[trigger] value_eq(ValueView::Boolean(x), ValueView::Boolean(y))
            <==> x == y,
        forall|x: i64, y: i64| #[trigger] value_eq(ValueView::Integer(x), ValueView::Integer(y))
            <==> x == y,
        forall|x: Seq<char>, y: Seq<char>| #[trigger] value_eq(ValueView::Text(x), ValueView::Text(y))
            <==> x == y,
{
}

/// Equality of metadata maps: the same keys, with equal values under each.
pub open spec fn metadata_eq(a: Map<Seq<char>, ValueView>, b: Map<Seq<char>, ValueView>) -> bool {
    &&& a.dom() == b.dom()
    &&& forall|k: Seq<char>| a.contains_key(k) ==> value_eq(#[trigger] a[k], b[k])
}

/// Every key of the map of `s` is the key of some entry.
proof fn lemma_key_has_entry(s: Seq<(String, MetadataValue)>, k: Seq<char>)
    requires
        entries_map(s).contains_key(k),
    ensures
        exists|j: int| 0 <= j < s.len() && #[trigger] s[j].0@ == k,
{
    if forall|j: int| 0 <= j < s.len() ==> s[j].0@ != k {
        lemma_lookup_absent(s, k);
    }
}

impl PartialEq for Metadata {
    fn eq(&self, other: &Self) -> (r: bool) {
        proof {
            use_type_invariant(self);
            use_type_invariant(other);
        }
        let mut i: usize = 0;
        while i < self.entries.len()
            invariant
                keys_distinct(self.entries@),
                0 <= i <= self.entries@.len(),
                forall|j: int|
                    0 <= j < i ==> other@.contains_key(#[trigger] self.entries@[j].0@) && value_eq(
                        self.entries@[j].1@,
                        other@[self.entries@[j].0@],
                    ),
            decreases self.entries@.len() - i,
        {
            proof {
                lemma_lookup_found(self.entries@, i as int);
            }
            match other.get(self.entries[i].0.as_str()) {
                Some(v) => {
                    if !self.entries[i].1.eq(v) {
                        let ghost k = self.entries@[i as int].0@;
                        assert(self@[k] == self.entries@[i as int].1@);
                        assert(!value_eq(self@[k], other@[k]));
                        return false;
                    }
                },
                None => {
                    assert(self@.contains_key(self.entries@[i as int].0@));
                    return false;
                },
            }
            i = i + 1;
        }
        let mut i: usize = 0;
        while i < other.entries.len()
            invariant
                keys_distinct(other.entries@),
                0 <= i <= other.entries@.len(),
                forall|j: int| 0 <= j < i ==> self@.contains_key(#[trigger] other.entries@[j].0@),
            decreases other.entries@.len() - i,
        {
            proof {
                lemma_lookup_found(other.entries@, i as int);
            }
            if self.get(other.entries[i].0.as_str()).is_none() {
                return false;
            }
            i = i + 1;
        }
        proof {
            assert forall|k: Seq<char>| self@.contains_key(k) implies other@.contains_key(k) && value_eq(
                self@[k],
                other@[k],
            ) by {
                lemma_key_has_entry(self.entries@, k);
                let j = choose|j: int| 0 <= j < self.entries@.len() && #[trigger] self.entries@[j].0@ == k;
                lemma_lookup_found(self.entries@, j);
            }
            assert forall|k: Seq<char>| other@.contains_key(k) implies self@.contains_key(k) by {
                lemma_key_has_entry(other.entries@, k);
            }
            assert(self@.dom() =~= other@.dom());
        }
        true
    }
}

impl PartialEqSpecImpl for Metadata {
    open spec fn obeys_eq_spec() -> bool {
        true
    }

    open spec fn eq_spec(&self, other: &Self) -> bool {
        metadata_eq(self@, other@)
    }
}

proof fn lemma_lookup_same(a: Seq<(String, MetadataValue)>, b: Seq<(String, MetadataValue)>, k: Seq<char>)
    requires
        a.len() == b.len(),
        forall|j: int| 0 <= j < a.len() ==> #[trigger] a[j].0@ == b[j].0@ && a[j].1@ == b[j].1@,
    ensures
        entry_lookup(a, k) == entry_lookup(b, k),
    decreases a.len(),
{
    if a.len() > 0 {
        assert(a.last().0@ == b.last().0@);
        lemma_lookup_same(a.drop_last(), b.drop_last(), k);
    }
}

} // verus!

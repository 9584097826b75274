//! The vector store: vectors keyed by their identifiers, with metadata.
use vstd::prelude::*;
use crate::error::RecallError;
use crate::filter::{all_hold, filter_holds, matches_all, MetadataFilter};
use crate::metadata::{MetadataValue, ValueView};
use crate::text::{lemma_lt_irreflexive, lemma_lt_total, lemma_lt_transitive, seq_lt, str_less};
use crate::vector::{Vector, VectorView};

verus! {

/// The views of a sequence of vectors.
pub open spec fn views_of(s: Seq<Vector>) -> Seq<VectorView> {
    s.map_values(|v: Vector| v@)
}

/// No two vectors share an identifier.
pub open spec fn ids_distinct(s: Seq<VectorView>) -> bool {
    forall|i: int, j: int| 0 <= i < j < s.len() ==> s[i].id != s[j].id
}

/// The index of the last vector of `s` with identifier `id`, or -1.
pub open spec fn position(s: Seq<VectorView>, id: Seq<char>) -> int
    decreases s.len(),
{
    if s.len() == 0 {
        -1
    } else if s.last().id == id {
        s.len() - 1
    } else {
        position(s.drop_last(), id)
    }
}

/// The vector of `s` with identifier `id`.
pub open spec fn lookup(s: Seq<VectorView>, id: Seq<char>) -> Option<VectorView> {
    let p = position(s, id);
    if p >= 0 {
        Some(s[p])
    } else {
        None
    }
}

/// `s` with `v` stored: in place of the vector with the same identifier, or
/// at the end when there is none.
pub open spec fn upserted(s: Seq<VectorView>, v: VectorView) -> Seq<VectorView> {
    let p = position(s, v.id);
    if p >= 0 {
        s.update(p, v)
    } else {
        s.push(v)
    }
}

/// `s` without the vector with identifier `id`.
pub open spec fn without(s: Seq<VectorView>, id: Seq<char>) -> Seq<VectorView> {
    let p = position(s, id);
    if p >= 0 {
        s.remove(p)
    } else {
        s
    }
}

/// `position` finds an index holding `id`, or reports that none does.
pub proof fn lemma_position(s: Seq<VectorView>, id: Seq<char>)
    ensures
        -1 <= position(s, id) < s.len(),
        position(s, id) >= 0 ==> s[position(s, id)].id == id,
        position(s, id) == -1 <==> forall|i: int| 0 <= i < s.len() ==> s[i].id != id,
    decreases s.len(),
{
    if s.len() > 0 {
        let t = s.drop_last();
        lemma_position(t, id);
        assert forall|i: int| 0 <= i < t.len() implies t[i] == s[i] by {}
        if s.last().id != id {
            if forall|i: int| 0 <= i < t.len() ==> t[i].id != id {
                assert forall|i: int| 0 <= i < s.len() implies s[i].id != id by {
                    if i < t.len() {
                        assert(t[i].id != id);
                    }
                }
            }
        }
    }
}

/// With distinct identifiers, the vector at index `i` is found at `i`.
pub proof fn lemma_position_distinct(s: Seq<VectorView>, i: int)
    requires
        ids_distinct(s),
        0 <= i < s.len(),
    ensures
        position(s, s[i].id) == i,
    decreases s.len(),
{
    if i < s.len() - 1 {
        lemma_position_distinct(s.drop_last(), i);
    }
}

/// Storing a vector keeps the identifiers distinct.
pub proof fn lemma_upserted_distinct(s: Seq<VectorView>, v: VectorView)
    requires
        ids_distinct(s),
    ensures
        ids_distinct(upserted(s, v)),
{
    lemma_position(s, v.id);
}

/// Removing a vector keeps the identifiers distinct.
pub proof fn lemma_without_distinct(s: Seq<VectorView>, id: Seq<char>)
    requires
        ids_distinct(s),
    ensures
        ids_distinct(without(s, id)),
{
    lemma_position(s, id);
    let p = position(s, id);
    if p >= 0 {
        let t = s.remove(p);
        assert forall|i: int, j: int| 0 <= i < j < t.len() implies t[i].id != t[j].id by {
            let i0 = if i < p { i } else { i + 1 };
            let j0 = if j < p { j } else { j + 1 };
            assert(t[i] == s[i0]);
            assert(t[j] == s[j0]);
        }
    }
}

/// Every vector kept by a filter is one of the vectors filtered.
pub proof fn lemma_filter_contained(s: Seq<VectorView>, pred: spec_fn(VectorView) -> bool, j: int)
    requires
        0 <= j < s.filter(pred).len(),
    ensures
        exists|i: int| 0 <= i < s.len() && s[i] == s.filter(pred)[j],
    decreases s.len(),
{
    reveal(Seq::filter);
    let t = s.drop_last();
    if s.len() > 0 {
        if pred(s.last()) && j == s.filter(pred).len() - 1 {
            assert(s[s.len() - 1] == s.filter(pred)[j]);
        } else {
            lemma_filter_contained(t, pred, j);
            let i = choose|i: int| 0 <= i < t.len() && t[i] == t.filter(pred)[j];
            assert(s[i] == s.filter(pred)[j]);
        }
    }
}

/// Filtering keeps the identifiers distinct.
pub proof fn lemma_filter_distinct(s: Seq<VectorView>, pred: spec_fn(VectorView) -> bool)
    requires
        ids_distinct(s),
    ensures
        ids_distinct(s.filter(pred)),
    decreases s.len(),
{
    reveal(Seq::filter);
    if s.len() > 0 {
        let t = s.drop_last();
        assert(ids_distinct(t));
        lemma_filter_distinct(t, pred);
        let f = s.filter(pred);
        if pred(s.last()) {
            assert forall|i: int, j: int| 0 <= i < j < f.len() implies f[i].id != f[j].id by {
                if j == f.len() - 1 {
                    lemma_filter_contained(t, pred, i);
                    let k = choose|k: int| 0 <= k < t.len() && t[k] == t.filter(pred)[i];
                    assert(s[k] == f[i]);
                } else {
                    assert(f[i] == t.filter(pred)[i]);
                    assert(f[j] == t.filter(pred)[j]);
                }
            }
        }
    }
}

/// Filtering the prefix one element longer adds that element when it is kept.
pub proof fn lemma_filter_step(s: Seq<VectorView>, pred: spec_fn(VectorView) -> bool, k: int)
    requires
        0 <= k < s.len(),
    ensures
        s.take(k + 1).filter(pred) == if pred(s[k]) {
            s.take(k).filter(pred).push(s[k])
        } else {
            s.take(k).filter(pred)
        },
        s.take(k).filter(pred).len() <= k,
{
    reveal(Seq::filter);
    assert(s.take(k + 1).drop_last() =~= s.take(k));
    s.take(k).lemma_filter_len(pred);
}

/// A vector does not store `value` under `key`.
pub open spec fn lacks(key: Seq<char>, value: ValueView) -> spec_fn(VectorView) -> bool {
    |w: VectorView| !filter_holds(key, value, w.metadata)
}

/// A vector's metadata passes every filter.
pub open spec fn passes(filters: Seq<(Seq<char>, ValueView)>) -> spec_fn(VectorView) -> bool {
    |w: VectorView| all_hold(filters, w.metadata)
}

/// The metadata key under which a chunk records its document.
pub open spec fn document_key() -> Seq<char> {
    "document_id"@
}

/// The document a vector belongs to: the text stored under `document_id`.
pub open spec fn document_of(w: VectorView) -> Option<Seq<char>> {
    if w.metadata.contains_key(document_key()) {
        MetadataValue::text_of(w.metadata[document_key()])
    } else {
        None
    }
}

/// How many vectors of `s` belong to document `d`.
pub open spec fn document_count(s: Seq<VectorView>, d: Seq<char>) -> nat
    decreases s.len(),
{
    if s.len() == 0 {
        0
    } else {
        document_count(s.drop_last(), d) + if document_of(s.last()) == Some(d) {
            1nat
        } else {
            0nat
        }
    }
}

/// The documents with their chunk counts, viewed.
pub open spec fn document_pairs(r: Seq<(String, usize)>) -> Seq<(Seq<char>, usize)> {
    r.map_values(|p: (String, usize)| (p.0@, p.1))
}

/// The names are in strictly increasing lexicographic order.
pub open spec fn strictly_sorted(p: Seq<(Seq<char>, usize)>) -> bool {
    forall|i: int, l: int| 0 <= i < l < p.len() ==> seq_lt(p[i].0, p[l].0)
}

proof fn lemma_document_count_step(s: Seq<VectorView>, k: int, d: Seq<char>)
    requires
        0 <= k < s.len(),
    ensures
        document_count(s.take(k + 1), d) == document_count(s.take(k), d) + if document_of(s[k])
            == Some(d) {
            1nat
        } else {
            0nat
        },
{
    assert(s.take(k + 1).drop_last() =~= s.take(k));
}

/// A document has at most as many vectors as the store, and a document with
/// vectors has a vector in the store.
pub proof fn lemma_document_count_bound(s: Seq<VectorView>, d: Seq<char>)
    ensures
        document_count(s, d) <= s.len(),
        document_count(s, d) > 0 ==> exists|k: int| 0 <= k < s.len() && document_of(s[k]) == Some(d),
    decreases s.len(),
{
    if s.len() > 0 {
        let t = s.drop_last();
        lemma_document_count_bound(t, d);
        if document_count(t, d) > 0 {
            let k = choose|k: int| 0 <= k < t.len() && document_of(t[k]) == Some(d);
            assert(s[k] == t[k]);
        }
    }
}

proof fn lemma_sorted_insert(p: Seq<(Seq<char>, usize)>, j: int, x: (Seq<char>, usize))
    requires
        strictly_sorted(p),
        0 <= j <= p.len(),
        forall|i: int| 0 <= i < j ==> seq_lt(#[trigger] p[i].0, x.0),
        j < p.len() ==> seq_lt(x.0, p[j].0),
    ensures
        strictly_sorted(p.insert(j, x)),
{
    let q = p.insert(j, x);
    assert forall|i: int, l: int| 0 <= i < l < q.len() implies seq_lt(q[i].0, q[l].0) by {
        if l < j {
            assert(q[i] == p[i] && q[l] == p[l]);
        } else if l == j {
            assert(q[i] == p[i]);
        } else if i < j {
            assert(q[i] == p[i] && q[l] == p[l - 1]);
        } else if i == j {
            assert(q[l] == p[l - 1]);
            if l - 1 > j {
                lemma_lt_transitive(x.0, p[j].0, p[l - 1].0);
            }
        } else {
            assert(q[i] == p[i - 1] && q[l] == p[l - 1]);
        }
    }}

/// After storing `v`, reading its identifier gives `v` and reading any other
/// identifier gives what it gave before.
pub proof fn lemma_lookup_upserted(s: Seq<VectorView>, v: VectorView, id: Seq<char>)
    requires
        ids_distinct(s),
    ensures
        lookup(upserted(s, v), id) == if id == v.id {
            Some(v)
        } else {
            lookup(s, id)
        },
{
    let t = upserted(s, v);
    lemma_position(s, v.id);
    lemma_upserted_distinct(s, v);
    lemma_position(s, id);
    lemma_position(t, id);
    let p = position(s, v.id);
    if id == v.id {
        if p >= 0 {
            lemma_position_distinct(t, p);
        } else {
            lemma_position_distinct(t, s.len() as int);
        }
    } else {
        let q = position(s, id);
        if q >= 0 {
            assert(t[q] == s[q]);
            lemma_position_distinct(t, q);
        } else {
            assert forall|i: int| 0 <= i < t.len() implies t[i].id != id by {
                if i < s.len() && i != p {
                    assert(t[i] == s[i]);
                }
            }
        }
    }
}

/// A vector added under a new identifier is read back, and every other
/// identifier reads as before.
pub proof fn lemma_lookup_after_insert(s: Seq<VectorView>, v: VectorView, id: Seq<char>)
    requires
        ids_distinct(s),
        lookup(s, v.id) is None,
    ensures
        lookup(s.push(v), id) == if id == v.id {
            Some(v)
        } else {
            lookup(s, id)
        },
{
    lemma_position(s, v.id);
    assert(upserted(s, v) == s.push(v));
    lemma_lookup_upserted(s, v, id);
}

/// After a vector is removed, its identifier reads as absent and every
/// other identifier reads as before.
pub proof fn lemma_lookup_after_delete(s: Seq<VectorView>, gone: Seq<char>, id: Seq<char>)
    requires
        ids_distinct(s),
    ensures
        lookup(without(s, gone), id) == if id == gone {
            None
        } else {
            lookup(s, id)
        },
{
    let t = without(s, gone);
    let p = position(s, gone);
    lemma_position(s, gone);
    lemma_position(s, id);
    lemma_without_distinct(s, gone);
    lemma_position(t, id);
    if p >= 0 {
        if id == gone {
            assert forall|i: int| 0 <= i < t.len() implies t[i].id != id by {
                let i0 = if i < p { i } else { i + 1 };
                assert(t[i] == s[i0]);
                lemma_position_distinct(s, i0);
            }
        } else {
            let q = position(s, id);
            if q >= 0 {
                let q1 = if q < p { q } else { q - 1 };
                assert(t[q1] == s[q]);
                lemma_position_distinct(t, q1);
            } else {
                assert forall|i: int| 0 <= i < t.len() implies t[i].id != id by {
                    let i0 = if i < p { i } else { i + 1 };
                    assert(t[i] == s[i0]);
                }
            }
        }
    }
}

/// After removing by metadata, no remaining vector stores `value` under `key`.
pub proof fn lemma_deleted_by_metadata_gone(s: Seq<VectorView>, key: Seq<char>, value: ValueView)
    ensures
        forall|i: int|
            0 <= i < s.filter(lacks(key, value)).len() ==> !filter_holds(
                key,
                value,
                #[trigger] s.filter(lacks(key, value))[i].metadata,
            ),
{
    assert forall|i: int| 0 <= i < s.filter(lacks(key, value)).len() implies !filter_holds(
        key,
        value,
        #[trigger] s.filter(lacks(key, value))[i].metadata,
    ) by {
        s.lemma_filter_pred(lacks(key, value), i);
    }
}

/// With no filters, every vector passes: a search without filters considers
/// the whole store.
pub proof fn lemma_no_filters_keep_all(s: Seq<VectorView>)
    ensures
        s.filter(passes(Seq::empty())) == s,
    decreases s.len(),
{
    reveal(Seq::filter);
    if s.len() > 0 {
        lemma_no_filters_keep_all(s.drop_last());
        assert(s.drop_last().push(s.last()) =~= s);
    } else {
        assert(s.filter(passes(Seq::empty())) =~= s);
    }
}

/// 1 when `w` belongs to document `d`, else 0.
pub open spec fn belongs(w: VectorView, d: Seq<char>) -> nat {
    if document_of(w) == Some(d) {
        1
    } else {
        0
    }
}

proof fn lemma_document_count_update(s: Seq<VectorView>, p: int, v: VectorView, d: Seq<char>)
    requires
        0 <= p < s.len(),
    ensures
        document_count(s.update(p, v), d) + belongs(s[p], d) == document_count(s, d) + belongs(v, d),
    decreases s.len(),
{
    let t = s.update(p, v);
    if p == s.len() - 1 {
        assert(t.drop_last() =~= s.drop_last());
    } else {
        assert(t.drop_last() =~= s.drop_last().update(p, v));
        lemma_document_count_update(s.drop_last(), p, v, d);
    }
}

/// Storing `v` adds one to its document's count, and takes one from the
/// document of the vector it replaces, if any.
pub proof fn lemma_document_count_upserted(s: Seq<VectorView>, v: VectorView, d: Seq<char>)
    ensures
        document_count(upserted(s, v), d) + match lookup(s, v.id) {
            Some(w) => belongs(w, d),
            None => 0,
        } == document_count(s, d) + belongs(v, d),
{
    lemma_position(s, v.id);
    let p = position(s, v.id);
    if p >= 0 {
        lemma_document_count_update(s, p, v, d);
    } else {
        assert(s.push(v).drop_last() =~= s);
    }
}

/// `p` lists the documents of `s`: in strictly increasing order of name,
/// each with the number of its vectors (at least one), and every document
/// that a vector of `s` belongs to is listed.
pub open spec fn lists_documents(s: Seq<VectorView>, p: Seq<(Seq<char>, usize)>) -> bool {
    &&& strictly_sorted(p)
    &&& forall|i: int| 0 <= i < p.len() ==> #[trigger] p[i].1 == document_count(s, p[i].0) && p[i].1 > 0
    &&& forall|k: int|
        0 <= k < s.len() && #[trigger] document_of(s[k]) is Some ==> exists|i: int|
            0 <= i < p.len() && p[i].0 == document_of(s[k])->Some_0
}

/// A document with `n` vectors appears in the listing with count `n`.
pub proof fn lemma_listed_with_count(s: Seq<VectorView>, p: Seq<(Seq<char>, usize)>, d: Seq<char>)
    requires
        lists_documents(s, p),
        document_count(s, d) > 0,
    ensures
        exists|i: int| 0 <= i < p.len() && p[i].0 == d && p[i].1 == document_count(s, d),
{
    lemma_document_count_bound(s, d);
    let k = choose|k: int| 0 <= k < s.len() && document_of(s[k]) == Some(d);
    assert(document_of(s[k]) is Some);
    let i = choose|i: int| 0 <= i < p.len() && p[i].0 == document_of(s[k])->Some_0;
    assert(p[i].1 == document_count(s, p[i].0));
}

/// A store of vectors with distinct identifiers.
pub struct Database {
    vectors: Vec<Vector>,
}

impl View for Database {
    type V = Seq<VectorView>;

    /// The stored vectors, in storage order.
    closed spec fn view(&self) -> Seq<VectorView> {
        views_of(self.vectors@)
    }
}

impl Database {
    #[verifier::type_invariant]
    pub closed spec fn well_formed(self) -> bool {
        ids_distinct(views_of(self.vectors@))
    }

    /// The identifiers of the stored vectors are distinct. This states the
    /// store's invariant for a caller's proof; it does nothing when run.
    pub fn distinct_ids(&self)
        ensures
            ids_distinct(self@),
    {
        proof {
            use_type_invariant(self);
        }
    }

    /// An empty store.
    pub fn new() -> (db: Database)
        ensures
            db@ == Seq::<VectorView>::empty(),
    {
        let db = Database { vectors: Vec::new() };
        assert(db@ =~= Seq::<VectorView>::empty());
        db
    }

    /// The number of stored vectors.
    pub fn len(&self) -> (n: usize)
        ensures
            n == self@.len(),
    {
        self.vectors.len()
    }

    /// The stored vectors, in storage order.
    pub fn vectors(&self) -> (r: &Vec<Vector>)
        ensures
            views_of(r@) == self@,
    {
        &self.vectors
    }

    /// The index of the vector with identifier `id`.
    fn find(&self, id: &str) -> (r: Option<usize>)
        ensures
            match r {
                Some(i) => i == position(self@, id@) && i < self@.len(),
                None => position(self@, id@) == -1,
            },
    {
        proof {
            use_type_invariant(self);
        }
        let wanted = id.to_owned();
        let mut i: usize = 0;
        while i < self.vectors.len()
            invariant
                ids_distinct(self@),
                wanted@ == id@,
                0 <= i <= self@.len(),
                self@.len() == self.vectors@.len(),
                forall|j: int| 0 <= j < i ==> self@[j].id != id@,
            decreases self@.len() - i,
        {
            assert(self@[i as int].id == self.vectors@[i as int].id@);
            if self.vectors[i].id == wanted {
                proof {
                    lemma_position_distinct(self@, i as int);
                }
                return Some(i);
            }
            i = i + 1;
        }
        proof {
            lemma_position(self@, id@);
        }
        None
    }

    /// Adds `vector` when no stored vector has its identifier; otherwise
    /// leaves the store as it is and reports `VectorAlreadyExists`.
    pub fn insert(&mut self, vector: Vector) -> (r: Result<(), RecallError>)
        ensures
            r is Ok <==> lookup(old(self)@, vector.id@) is None,
            r is Ok ==> final(self)@ == old(self)@.push(vector@),
            r matches Err(e) ==> e is VectorAlreadyExists && final(self)@ == old(self)@,
    {
        proof {
            use_type_invariant(&*self);
        }
        match self.find(vector.id.as_str()) {
            Some(_) => Err(RecallError::VectorAlreadyExists),
            None => {
                let ghost v = vector@;
                proof {
                    lemma_position(self@, v.id);
                    assert(upserted(self@, v) == self@.push(v));
                    lemma_upserted_distinct(self@, v);
                }
                let mut vectors: Vec<Vector> = Vec::new();
                std::mem::swap(&mut vectors, &mut self.vectors);
                vectors.push(vector);
                assert(views_of(vectors@) =~= old(self)@.push(v));
                self.vectors = vectors;
                Ok(())
            },
        }
    }

    /// The vector with identifier `id`.
    pub fn get(&self, id: &str) -> (r: Option<&Vector>)
        ensures
            r is Some <==> lookup(self@, id@) is Some,
            r matches Some(v) ==> lookup(self@, id@) == Some(v@),
    {
        match self.find(id) {
            Some(i) => Some(&self.vectors[i]),
            None => None,
        }
    }

    /// Removes the vector with identifier `id` and hands it back.
    pub fn delete(&mut self, id: &str) -> (r: Option<Vector>)
        ensures
            final(self)@ == without(old(self)@, id@),
            r is Some <==> lookup(old(self)@, id@) is Some,
            r matches Some(v) ==> lookup(old(self)@, id@) == Some(v@),
    {
        proof {
            use_type_invariant(&*self);
        }
        match self.find(id) {
            Some(i) => {
                proof {
                    lemma_without_distinct(self@, id@);
                }
                let mut vectors: Vec<Vector> = Vec::new();
                std::mem::swap(&mut vectors, &mut self.vectors);
                let removed = vectors.remove(i);
                assert(views_of(vectors@) =~= without(old(self)@, id@));
                self.vectors = vectors;
                Some(removed)
            },
            None => None,
        }
    }

    /// Stores `vector`, replacing the vector with the same identifier.
    pub fn upsert(&mut self, vector: Vector)
        ensures
            final(self)@ == upserted(old(self)@, vector@),
    {
        proof {
            use_type_invariant(&*self);
        }
        let ghost v = vector@;
        proof {
            lemma_upserted_distinct(self@, v);
        }
        let found = self.find(vector.id.as_str());
        let mut vectors: Vec<Vector> = Vec::new();
        std::mem::swap(&mut vectors, &mut self.vectors);
        match found {
            Some(i) => {
                vectors.set(i, vector);
            },
            None => {
                vectors.push(vector);
            },
        }
        assert(views_of(vectors@) =~= upserted(old(self)@, v));
        self.vectors = vectors;
    }

    /// Removes every vector whose metadata stores `value` under `key`, and
    /// returns how many were removed.
    pub fn delete_by_metadata(&mut self, key: &str, value: &MetadataValue) -> (deleted: usize)
        ensures
            final(self)@ == old(self)@.filter(lacks(key@, value@)),
            deleted == old(self)@.len() - final(self)@.len(),
    {
        proof {
            use_type_invariant(&*self);
        }
        let filter = MetadataFilter::new(key.to_owned(), value.clone());
        let ghost pred = lacks(key@, value@);
        let mut source: Vec<Vector> = Vec::new();
        std::mem::swap(&mut source, &mut self.vectors);
        let ghost src = views_of(source@);
        let n = source.len();
        let mut kept: Vec<Vector> = Vec::new();
        let mut deleted: usize = 0;
        for v in iter: source.into_iter()
            invariant
                iter.seq() == old(self).vectors@,
                src == views_of(old(self).vectors@),
                src == old(self)@,
                src.len() == n,
                filter@ == (key@, value@),
                pred == lacks(key@, value@),
                views_of(kept@) == src.take(iter.index() as int).filter(pred),
                deleted + kept@.len() == iter.index(),
        {
            let ghost k = iter.index() as int;
            proof {
                lemma_filter_step(src, pred, k);
                assert(src[k] == v@);
            }
            if filter.matches(&v.metadata) {
                deleted = deleted + 1;
            } else {
                kept.push(v);
                assert(views_of(kept@) =~= src.take(k).filter(pred).push(src[k]));
            }
        }
        proof {
            assert(src.take(src.len() as int) =~= src);
            lemma_filter_distinct(src, pred);
        }
        self.vectors = kept;
        deleted
    }

    /// The stored vectors whose metadata passes every filter, in storage order.
    pub fn matching(&self, filters: &Vec<MetadataFilter>) -> (r: Vec<&Vector>)
        ensures
            r@.map_values(|v: &Vector| v@) == self@.filter(
                passes(filters@.map_values(|f: MetadataFilter| f@)),
            ),
    {
        let ghost pred = passes(filters@.map_values(|f: MetadataFilter| f@));
        let mut r: Vec<&Vector> = Vec::new();
        let mut i: usize = 0;
        while i < self.vectors.len()
            invariant
                0 <= i <= self@.len(),
                self@.len() == self.vectors@.len(),
                pred == passes(filters@.map_values(|f: MetadataFilter| f@)),
                r@.map_values(|v: &Vector| v@) == self@.take(i as int).filter(pred),
            decreases self@.len() - i,
        {
            proof {
                lemma_filter_step(self@, pred, i as int);
                assert(self@[i as int] == self.vectors@[i as int]@);
            }
            if matches_all(filters, &self.vectors[i].metadata) {
                r.push(&self.vectors[i]);
                assert(r@.map_values(|v: &Vector| v@) =~= self@.take(i as int).filter(pred).push(
                    self@[i as int],
                ));
            }
            i = i + 1;
        }
        assert(self@.take(self@.len() as int) =~= self@);
        r
    }

    /// The documents that the stored vectors belong to, in increasing
    /// lexicographic order, each with the number of its vectors.
    pub fn list_documents(&self) -> (r: Vec<(String, usize)>)
        ensures
            lists_documents(self@, document_pairs(r@)),
    {
        let ghost s = self@;
        let mut r: Vec<(String, usize)> = Vec::new();
        let mut k: usize = 0;
        while k < self.vectors.len()
            invariant
                s == self@,
                s.len() == self.vectors@.len(),
                0 <= k <= s.len(),
                strictly_sorted(document_pairs(r@)),
                forall|i: int|
                    0 <= i < r@.len() ==> #[trigger] document_pairs(r@)[i].1 == document_count(
                        s.take(k as int),
                        document_pairs(r@)[i].0,
                    ) && document_pairs(r@)[i].1 > 0,
                forall|m: int|
                    0 <= m < k && #[trigger] document_of(s[m]) is Some ==> exists|i: int|
                        0 <= i < r@.len() && document_pairs(r@)[i].0 == document_of(s[m])->Some_0,
            decreases s.len() - k,
        {
            let ghost p = document_pairs(r@);
            let ghost t = s.take(k as int);
            assert(s[k as int] == self.vectors@[k as int]@);
            proof {
                assert forall|d: Seq<char>| #![auto]
                    document_count(s.take(k + 1), d) == document_count(t, d) + if document_of(
                        s[k as int],
                    ) == Some(d) {
                        1nat
                    } else {
                        0nat
                    } by {
                    lemma_document_count_step(s, k as int, d);
                }
            }
            match self.vectors[k].metadata.get("document_id") {
                Some(MetadataValue::String(d)) => {
                    assert(document_of(s[k as int]) == Some(d@));
                    let mut j: usize = 0;
                    let mut found = false;
                    while j < r.len()
                        invariant_except_break
                            !found,
                        invariant
                            p == document_pairs(r@),
                            0 <= j <= r@.len(),
                            forall|i: int| 0 <= i < j ==> seq_lt(#[trigger] p[i].0, d@),
                        ensures
                            0 <= j <= r@.len(),
                            forall|i: int| 0 <= i < j ==> seq_lt(#[trigger] p[i].0, d@),
                            found ==> j < r@.len() && p[j as int].0 == d@,
                            !found ==> (j < r@.len() ==> seq_lt(d@, p[j as int].0)),
                        decreases r@.len() - j,
                    {
                        assert(p[j as int].0 == r@[j as int].0@);
                        if r[j].0 == *d {
                            found = true;
                            break;
                        }
                        if str_less(d.as_str(), r[j].0.as_str()) {
                            break;
                        }
                        proof {
                            lemma_lt_total(p[j as int].0, d@);
                        }
                        j = j + 1;
                    }
                    if found {
                        let c = r[j].1;
                        proof {
                            lemma_document_count_bound(t, d@);
                            assert(document_pairs(r@)[j as int].1 == document_count(t, d@));
                            assert(c < usize::MAX);
                        }
                        let name = r[j].0.clone();
                        r.set(j, (name, c + 1));
                        proof {
                            let q = document_pairs(r@);
                            assert(q =~= p.update(j as int, (d@, (c + 1) as usize)));
                            assert forall|i: int| 0 <= i < q.len() && i != j implies q[i].0 != d@ by {
                                lemma_lt_irreflexive(d@);
                            }
                            assert forall|m: int|
                                0 <= m < k + 1 && #[trigger] document_of(s[m]) is Some implies exists|i: int|
                                    0 <= i < r@.len() && document_pairs(r@)[i].0 == document_of(s[m])->Some_0 by {
                                if m < k {
                                    let i = choose|i: int| 0 <= i < p.len() && p[i].0 == document_of(s[m])->Some_0;
                                    assert(q[i].0 == p[i].0);
                                } else {
                                    assert(q[j as int].0 == d@);
                                }
                            }
                        }
                    } else {
                        proof {
                            lemma_document_count_bound(t, d@);
                            assert forall|i: int| 0 <= i < p.len() implies p[i].0 != d@ by {
                                lemma_lt_irreflexive(d@);
                                if i > j {
                                    lemma_lt_transitive(d@, p[j as int].0, p[i].0);
                                }
                            }
                            if document_count(t, d@) > 0 {
                                let m = choose|m: int| 0 <= m < t.len() && document_of(t[m]) == Some(d@);
                                assert(t[m] == s[m]);
                                assert(document_of(s[m]) is Some);
                            }
                            lemma_sorted_insert(p, j as int, (d@, 1usize));
                        }
                        let name = d.clone();
                        r.insert(j, (name, 1));
                        proof {
                            let q = document_pairs(r@);
                            assert(q =~= p.insert(j as int, (d@, 1usize)));
                            assert forall|m: int|
                                0 <= m < k + 1 && #[trigger] document_of(s[m]) is Some implies exists|i: int|
                                    0 <= i < r@.len() && document_pairs(r@)[i].0 == document_of(s[m])->Some_0 by {
                                if m < k {
                                    let i = choose|i: int| 0 <= i < p.len() && p[i].0 == document_of(s[m])->Some_0;
                                    if i < j {
                                        assert(q[i].0 == p[i].0);
                                    } else {
                                        assert(q[i + 1].0 == p[i].0);
                                    }
                                } else {
                                    assert(q[j as int].0 == d@);
                                }
                            }
                        }
                    }
                },
                _ => {
                    assert(document_of(s[k as int]) is None);
                },
            }
            k = k + 1;
        }
        assert(s.take(s.len() as int) =~= s);
        assert(document_pairs(r@).len() == r@.len());
        r
    }
}

} // verus!

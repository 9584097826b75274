//! Documents: an identifier, a text and metadata.
use vstd::prelude::*;
use crate::metadata::{Metadata, ValueView};

verus! {

#[derive(Debug)]
pub struct Document {
    pub id: String,
    pub text: String,
    pub metadata: Metadata,
}

/// The mathematical value of a `Document`.
pub struct DocumentView {
    pub id: Seq<char>,
    pub text: Seq<char>,
    pub metadata: Map<Seq<char>, ValueView>,
}

impl View for Document {
    type V = DocumentView;

    open spec fn view(&self) -> DocumentView {
        DocumentView { id: self.id@, text: self.text@, metadata: self.metadata@ }
    }
}

impl Clone for Document {
    fn clone(&self) -> (r: Self)
        ensures
            r@ == self@,
    {
        Document { id: self.id.clone(), text: self.text.clone(), metadata: self.metadata.clone() }
    }
}

/// The file stem of `path` as `std::path::Path::file_stem` reads it, as text.
pub uninterp spec fn path_file_stem(path: Seq<char>) -> Option<Seq<char>>;

/// The last component of `path`: what follows its last `/`.
pub open spec fn last_component(path: Seq<char>) -> Seq<char>
    decreases path.len(),
{
    if path.len() == 0 || path.last() == '/' {
        Seq::<char>::empty()
    } else {
        last_component(path.drop_last()).push(path.last())
    }
}

/// A path that every platform splits alike, at its `/`: it holds no `\\`
/// and no `:` (so no drive or network prefix), does not start with `//`, does
/// not end with `/`, and its last component is neither `.` nor `..`.
pub open spec fn plain_path(path: Seq<char>) -> bool {
    &&& path.len() > 0
    &&& path.last() != '/'
    &&& forall|i: int| 0 <= i < path.len() ==> #[trigger] path[i] != '\\' && path[i] != ':'
    &&& !(path.len() >= 2 && path[0] == '/' && path[1] == '/')
    &&& last_component(path) != seq!['.']
    &&& last_component(path) != seq!['.', '.']
}

/// Where the last `.` of `name` stands, or -1 when it has none.
pub open spec fn last_dot(name: Seq<char>) -> int
    decreases name.len(),
{
    if name.len() == 0 {
        -1
    } else if name.last() == '.' {
        name.len() - 1
    } else {
        last_dot(name.drop_last())
    }
}

/// The stem of a file name, as `Path::file_stem` documents it: the whole
/// name when it has no `.`, or only one at its start; otherwise the part
/// before its last `.`.
pub open spec fn stem_of(name: Seq<char>) -> Seq<char> {
    if last_dot(name) <= 0 {
        name
    } else {
        name.take(last_dot(name))
    }
}

/// `Path::file_stem` of `path`, converted to a `String`: the file name
/// without its last extension. On a plain path (`plain_path`) std documents
/// the answer: the stem (`stem_of`) of the last component. On other paths
/// (prefixes, `..` at the end, other platforms' separators) what the stem is
/// is left to std and named `path_file_stem`.
#[verifier::external_body]
fn file_stem(path: &str) -> (r: Option<String>)
    ensures
        match r {
            Some(s) => path_file_stem(path@) == Some(s@),
            None => path_file_stem(path@) is None,
        },
        plain_path(path@) ==> (r is Some && r->Some_0@ == stem_of(last_component(path@))),
{
    std::path::Path::new(path).file_stem().and_then(|name| name.to_str()).map(|name| name.to_string())
}

/// A name without `.` has no last dot.
proof fn lemma_no_dot(name: Seq<char>)
    requires
        forall|i: int| 0 <= i < name.len() ==> #[trigger] name[i] != '.',
    ensures
        last_dot(name) == -1,
    decreases name.len(),
{
    if name.len() > 0 {
        lemma_no_dot(name.drop_last());
    }
}

/// The last dot of `base.ext`, where `ext` has no dot, stands right after `base`.
proof fn lemma_dot_before_extension(base: Seq<char>, ext: Seq<char>)
    requires
        forall|i: int| 0 <= i < ext.len() ==> #[trigger] ext[i] != '.',
    ensures
        last_dot(base + seq!['.'] + ext) == base.len(),
    decreases ext.len(),
{
    let name = base + seq!['.'] + ext;
    if ext.len() == 0 {
        assert(name.last() == '.');
    } else {
        assert(name.drop_last() =~= base + seq!['.'] + ext.drop_last());
        lemma_dot_before_extension(base, ext.drop_last());
    }
}

/// A name without `/` is the last component of itself and of any directory
/// path ending in `/` put before it.
proof fn lemma_last_component(dir: Seq<char>, name: Seq<char>)
    requires
        dir.len() == 0 || dir.last() == '/',
        forall|i: int| 0 <= i < name.len() ==> #[trigger] name[i] != '/',
    ensures
        last_component(dir + name) == name,
    decreases name.len(),
{
    if name.len() == 0 {
        assert(dir + name =~= dir);
    } else {
        assert((dir + name).drop_last() =~= dir + name.drop_last());
        lemma_last_component(dir, name.drop_last());
        assert(name.drop_last().push(name.last()) =~= name);
    }
}

/// A file whose name has no `.` is named after its whole name, and one named
/// `base.ext` (with a non-empty `base`, no `.` in `ext`, and not the name
/// `..`) after `base`, in
/// whatever directory `dir` it stands; the path `dir` + name is plain when
/// neither part holds `\\` or `:`, `dir` is empty or ends with `/`, and
/// does not start with `//`.
pub proof fn lemma_stem_of_file_name(dir: Seq<char>, base: Seq<char>, ext: Seq<char>)
    requires
        dir.len() == 0 || dir.last() == '/',
        !(dir.len() >= 2 && dir[0] == '/' && dir[1] == '/'),
        forall|i: int| 0 <= i < dir.len() ==> #[trigger] dir[i] != '\\' && dir[i] != ':',
        base.len() > 0,
        forall|i: int|
            0 <= i < base.len() ==> #[trigger] base[i] != '/' && base[i] != '\\' && base[i] != ':',
        forall|i: int|
            0 <= i < ext.len() ==> #[trigger] ext[i] != '/' && ext[i] != '\\' && ext[i] != ':' && ext[i]
                != '.',
    ensures
        (forall|i: int| 0 <= i < base.len() ==> #[trigger] base[i] != '.') ==> plain_path(dir + base)
            && stem_of(last_component(dir + base)) == base,
        !(base == seq!['.'] && ext.len() == 0) ==> plain_path(dir + (base + seq!['.'] + ext)) && stem_of(
            last_component(dir + (base + seq!['.'] + ext)),
        ) == base,
{
    let name = base + seq!['.'] + ext;
    assert forall|i: int| 0 <= i < name.len() implies #[trigger] name[i] != '/' by {
        if i < base.len() {
            assert(name[i] == base[i]);
        } else if i > base.len() {
            assert(name[i] == ext[i - base.len() - 1]);
        }
    }
    lemma_last_component(dir, name);
    lemma_dot_before_extension(base, ext);
    assert(name.take(base.len() as int) =~= base);
    let p = dir + name;
    assert(p.last() == name.last());
    assert forall|i: int| 0 <= i < p.len() implies #[trigger] p[i] != '\\' && p[i] != ':' by {
        if i < dir.len() {
            assert(p[i] == dir[i]);
        } else {
            let j = i - dir.len();
            assert(p[i] == name[j]);
            if j < base.len() {
                assert(name[j] == base[j]);
            } else if j > base.len() {
                assert(name[j] == ext[j - base.len() - 1]);
            }
        }
    }
    if dir.len() < 2 {
        if dir.len() == 1 {
            assert(p[0] == '/');
            assert(p[1] == name[0]);
            assert(name[0] == base[0]);
        }
    } else {
        assert(p[0] == dir[0] && p[1] == dir[1]);
    }
    if name.len() == 2 {
        assert(name[0] == base[0]);
    }
    if ext.len() == 0 && base.len() == 1 {
        assert(name =~= seq![base[0], '.']);
        if base[0] == '.' {
            assert(base =~= seq!['.']);
        }
    }
    assert(name != seq!['.']) by {
        assert(name.len() >= 2);
    }
    if forall|i: int| 0 <= i < base.len() ==> #[trigger] base[i] != '.' {
        lemma_last_component(dir, base);
        lemma_no_dot(base);
        let q = dir + base;
        assert(q.last() == base.last());
        assert forall|i: int| 0 <= i < q.len() implies #[trigger] q[i] != '\\' && q[i] != ':' by {
            if i < dir.len() {
                assert(q[i] == dir[i]);
            } else {
                assert(q[i] == base[i - dir.len()]);
            }
        }
        if dir.len() == 1 {
            assert(q[1] == base[0]);
        } else if dir.len() >= 2 {
            assert(q[0] == dir[0] && q[1] == dir[1]);
        }
        assert(base != seq!['.']) by {
            if base.len() == 1 {
                assert(base[0] != '.');
            }
        }
        assert(base != seq!['.', '.']) by {
            if base.len() == 2 {
                assert(base[0] != '.');
            }
        }
    }
}

/// The identifier of a document read from a file: the file stem, or
/// `document` when the path has none.
pub fn document_id_from_stem(stem: Option<String>) -> (id: String)
    ensures
        id@ == match stem {
            Some(s) => s@,
            None => "document"@,
        },
{
    match stem {
        Some(s) => s,
        None => "document".to_owned(),
    }
}

/// The document that the file at `path`, holding `text`, gives: named after
/// the file stem, with no metadata.
pub fn document_from_file(path: &str, text: String) -> (d: Document)
    ensures
        d.id@ == match path_file_stem(path@) {
            Some(s) => s,
            None => "document"@,
        },
        plain_path(path@) ==> d.id@ == stem_of(last_component(path@)),
        d.text@ == text@,
        d.metadata@ == Map::<Seq<char>, ValueView>::empty(),
{
    let id = document_id_from_stem(file_stem(path));
    Document { id, text, metadata: Metadata::new() }
}

} // verus!

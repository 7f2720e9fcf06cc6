//! The mathematical model of the store: nested maps over character
//! sequences, and what each operation makes of them.

use vstd::prelude::*;

verus! {

/// What a document is: its sub-document identifiers, each with its contents.
pub type DocModel = Map<Seq<char>, Seq<char>>;

/// What the store is: its document identifiers, each with its document.
pub type StoreModel = Map<Seq<char>, DocModel>;

/// What reading one sub-document yields, over character sequences.
pub enum LookupModel {
    Found(Seq<char>),
    UnknownSubdocument,
    UnknownDocument,
}

/// What deleting one sub-document yields.
#[derive(Clone, Copy, Debug, PartialEq, Eq, Structural)]
pub enum SubdocDeletion {
    Deleted,
    UnknownSubdocument,
    UnknownDocument,
}

/// What deleting a whole document yields.
#[derive(Clone, Copy, Debug, PartialEq, Eq, Structural)]
pub enum DocDeletion {
    Deleted,
    UnknownDocument,
}

/// The store with no document.
pub open spec fn empty_store() -> StoreModel {
    Map::empty()
}

/// The document stored under `id`, or the empty document where there is
/// none: reading a whole document never fails.
pub open spec fn document_of(s: StoreModel, id: Seq<char>) -> DocModel {
    if s.contains_key(id) {
        s[id]
    } else {
        Map::empty()
    }
}

/// The store after `contents` was put under `subdoc` in document `id`. The
/// document is made if it was not there; what `subdoc` held before is gone.
pub open spec fn put(s: StoreModel, id: Seq<char>, subdoc: Seq<char>, contents: Seq<char>)
    -> StoreModel {
    s.insert(id, document_of(s, id).insert(subdoc, contents))
}

/// What reading `subdoc` of document `id` yields. An unknown document is
/// reported before an unknown sub-document.
pub open spec fn lookup(s: StoreModel, id: Seq<char>, subdoc: Seq<char>) -> LookupModel {
    if !s.contains_key(id) {
        LookupModel::UnknownDocument
    } else if !s[id].contains_key(subdoc) {
        LookupModel::UnknownSubdocument
    } else {
        LookupModel::Found(s[id][subdoc])
    }
}

/// What deleting `subdoc` of document `id` reports.
pub open spec fn subdoc_deletion(s: StoreModel, id: Seq<char>, subdoc: Seq<char>)
    -> SubdocDeletion {
    if !s.contains_key(id) {
        SubdocDeletion::UnknownDocument
    } else if !s[id].contains_key(subdoc) {
        SubdocDeletion::UnknownSubdocument
    } else {
        SubdocDeletion::Deleted
    }
}

/// The store after `subdoc` of document `id` was deleted. The document
/// stays, also where this was its last sub-document; a store that has no
/// such sub-document is left as it is.
pub open spec fn without_subdoc(s: StoreModel, id: Seq<char>, subdoc: Seq<char>) -> StoreModel {
    if s.contains_key(id) && s[id].contains_key(subdoc) {
        s.insert(id, s[id].remove(subdoc))
    } else {
        s
    }
}

/// What deleting document `id` reports.
pub open spec fn doc_deletion(s: StoreModel, id: Seq<char>) -> DocDeletion {
    if s.contains_key(id) {
        DocDeletion::Deleted
    } else {
        DocDeletion::UnknownDocument
    }
}

/// The store after document `id` was deleted with all its sub-documents.
pub open spec fn without_doc(s: StoreModel, id: Seq<char>) -> StoreModel {
    s.remove(id)
}

/// `entries` lists `doc`: each pair is a sub-document of `doc` with its
/// contents, each sub-document of `doc` occurs, and none occurs twice. The
/// order is left open.
pub open spec fn lists(entries: Seq<(Seq<char>, Seq<char>)>, doc: DocModel) -> bool {
    &&& forall|i: int, j: int|
        0 <= i < j < entries.len() ==> (#[trigger] entries[i]).0 != (#[trigger] entries[j]).0
    &&& forall|i: int|
        0 <= i < entries.len() ==> doc.contains_key((#[trigger] entries[i]).0) && doc[entries[i].0]
            == entries[i].1
    &&& forall|k: Seq<char>| #[trigger]
        doc.contains_key(k) ==> exists|i: int| 0 <= i < entries.len() && (#[trigger] entries[i]).0 == k
}

} // verus!

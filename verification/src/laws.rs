//! Laws of the store, stated over its model and proved once for all stores.
//!
//! Each operation of the store is specified by a function of the model, so
//! what is proved here of those functions holds of every run of the
//! operations.

use crate::model::{
    document_of, empty_store, lists, lookup, put, subdoc_deletion, without_doc, without_subdoc,
    DocModel, LookupModel, StoreModel, SubdocDeletion,
};
use vstd::prelude::*;

verus! {

/// A sub-document that is put twice holds what was put last: the store is
/// as if the first put had never been made.
pub proof fn lemma_put_overwrites(
    s: StoreModel,
    id: Seq<char>,
    subdoc: Seq<char>,
    first: Seq<char>,
    second: Seq<char>,
)
    ensures
        lookup(put(put(s, id, subdoc, first), id, subdoc, second), id, subdoc)
            == LookupModel::Found(second),
        put(put(s, id, subdoc, first), id, subdoc, second) == put(s, id, subdoc, second),
{
    assert(put(put(s, id, subdoc, first), id, subdoc, second) =~~= put(s, id, subdoc, second));
}

/// What is put can be read back, alone and in the whole document.
pub proof fn lemma_put_then_read(
    s: StoreModel,
    id: Seq<char>,
    subdoc: Seq<char>,
    contents: Seq<char>,
)
    ensures
        lookup(put(s, id, subdoc, contents), id, subdoc) == LookupModel::Found(contents),
        document_of(put(s, id, subdoc, contents), id) == document_of(s, id).insert(
            subdoc,
            contents,
        ),
{
}

/// A put into one document changes no other document: each of them reads
/// as before, sub-document by sub-document and as a whole.
pub proof fn lemma_put_leaves_other_documents(
    s: StoreModel,
    id: Seq<char>,
    subdoc: Seq<char>,
    contents: Seq<char>,
    other: Seq<char>,
    other_subdoc: Seq<char>,
)
    requires
        other != id,
    ensures
        lookup(put(s, id, subdoc, contents), other, other_subdoc) == lookup(
            s,
            other,
            other_subdoc,
        ),
        put(s, id, subdoc, contents).contains_key(other) == s.contains_key(other),
        document_of(put(s, id, subdoc, contents), other) == document_of(s, other),
{
}

/// A put changes no other sub-document of its document.
pub proof fn lemma_put_leaves_siblings(
    s: StoreModel,
    id: Seq<char>,
    subdoc: Seq<char>,
    contents: Seq<char>,
    sibling: Seq<char>,
)
    requires
        sibling != subdoc,
        s.contains_key(id),
    ensures
        lookup(put(s, id, subdoc, contents), id, sibling) == lookup(s, id, sibling),
{
}

/// Two puts to different sub-documents can be made in either order.
pub proof fn lemma_puts_commute(
    s: StoreModel,
    id1: Seq<char>,
    subdoc1: Seq<char>,
    contents1: Seq<char>,
    id2: Seq<char>,
    subdoc2: Seq<char>,
    contents2: Seq<char>,
)
    requires
        id1 != id2 || subdoc1 != subdoc2,
    ensures
        put(put(s, id1, subdoc1, contents1), id2, subdoc2, contents2) == put(
            put(s, id2, subdoc2, contents2),
            id1,
            subdoc1,
            contents1,
        ),
{
    assert(put(put(s, id1, subdoc1, contents1), id2, subdoc2, contents2) =~~= put(
        put(s, id2, subdoc2, contents2),
        id1,
        subdoc1,
        contents1,
    ));
}

/// The store with no document knows no document: reading or deleting a
/// sub-document reports an unknown document, and the whole of any document
/// is empty.
pub proof fn lemma_empty_store(id: Seq<char>, subdoc: Seq<char>)
    ensures
        lookup(empty_store(), id, subdoc) == LookupModel::UnknownDocument,
        subdoc_deletion(empty_store(), id, subdoc) == SubdocDeletion::UnknownDocument,
        document_of(empty_store(), id) == Map::<Seq<char>, Seq<char>>::empty(),
        without_subdoc(empty_store(), id, subdoc) == empty_store(),
        without_doc(empty_store(), id) == empty_store(),
{
    assert(without_doc(empty_store(), id) =~= empty_store());
}

/// A deleted document is unknown afterwards and reads as empty, whatever it
/// held; every other document is as before.
pub proof fn lemma_deleted_document_is_gone(
    s: StoreModel,
    id: Seq<char>,
    subdoc: Seq<char>,
    other: Seq<char>,
)
    requires
        other != id,
    ensures
        lookup(without_doc(s, id), id, subdoc) == LookupModel::UnknownDocument,
        document_of(without_doc(s, id), id) == Map::<Seq<char>, Seq<char>>::empty(),
        without_doc(s, id).contains_key(other) == s.contains_key(other),
        document_of(without_doc(s, id), other) == document_of(s, other),
{
}

/// A deleted sub-document is unknown afterwards while its document stays
/// known; its siblings and every other document are as before.
pub proof fn lemma_deleted_subdoc_is_gone(
    s: StoreModel,
    id: Seq<char>,
    subdoc: Seq<char>,
    other: Seq<char>,
    other_subdoc: Seq<char>,
)
    requires
        s.contains_key(id),
        other != id || other_subdoc != subdoc,
    ensures
        lookup(without_subdoc(s, id, subdoc), id, subdoc) == LookupModel::UnknownSubdocument,
        lookup(without_subdoc(s, id, subdoc), other, other_subdoc) == lookup(
            s,
            other,
            other_subdoc,
        ),
{
}

/// Every document of `s` has a sub-document.
pub open spec fn documents_inhabited(s: StoreModel) -> bool {
    forall|id: Seq<char>| #[trigger]
        s.contains_key(id) ==> exists|subdoc: Seq<char>| #[trigger] s[id].contains_key(subdoc)
}

/// `subdoc` is the one sub-document of `doc`.
pub open spec fn only_subdoc(doc: DocModel, subdoc: Seq<char>) -> bool {
    forall|k: Seq<char>| #[trigger] doc.contains_key(k) <==> k == subdoc
}

/// A new store has no empty document, and neither a put nor the deletion of
/// a document makes one. The deletion of a sub-document makes one exactly
/// where it takes the last sub-document of its document.
pub proof fn lemma_documents_inhabited(
    s: StoreModel,
    id: Seq<char>,
    subdoc: Seq<char>,
    contents: Seq<char>,
)
    requires
        documents_inhabited(s),
    ensures
        documents_inhabited(empty_store()),
        documents_inhabited(put(s, id, subdoc, contents)),
        documents_inhabited(without_doc(s, id)),
        documents_inhabited(without_subdoc(s, id, subdoc)) <==> !(s.contains_key(id)
            && only_subdoc(s[id], subdoc)),
{
    let after_put = put(s, id, subdoc, contents);
    assert forall|d: Seq<char>| #[trigger] after_put.contains_key(d) implies exists|
        x: Seq<char>,
    | #[trigger] after_put[d].contains_key(x) by {
        if d == id {
            assert(after_put[d].contains_key(subdoc));
        } else {
            assert(s.contains_key(d));
            let x = choose|x: Seq<char>| #[trigger] s[d].contains_key(x);
            assert(after_put[d].contains_key(x));
        }
    }
    let after_doc = without_doc(s, id);
    assert forall|d: Seq<char>| #[trigger] after_doc.contains_key(d) implies exists|
        x: Seq<char>,
    | #[trigger] after_doc[d].contains_key(x) by {
        assert(s.contains_key(d));
        let x = choose|x: Seq<char>| #[trigger] s[d].contains_key(x);
        assert(after_doc[d].contains_key(x));
    }
    let after_subdoc = without_subdoc(s, id, subdoc);
    if s.contains_key(id) && only_subdoc(s[id], subdoc) {
        assert(s[id].contains_key(subdoc));
        assert(after_subdoc.contains_key(id));
        assert(forall|x: Seq<char>| !(#[trigger] after_subdoc[id].contains_key(x)));
    } else {
        assert forall|d: Seq<char>| #[trigger] after_subdoc.contains_key(d) implies exists|
            x: Seq<char>,
        | #[trigger] after_subdoc[d].contains_key(x) by {
            assert(s.contains_key(d));
            let x = choose|x: Seq<char>| #[trigger] s[d].contains_key(x);
            if d == id && s[id].contains_key(subdoc) {
                if x == subdoc {
                    let y = choose|y: Seq<char>| s[id].contains_key(y) != (y == subdoc);
                    assert(after_subdoc[d].contains_key(y));
                } else {
                    assert(after_subdoc[d].contains_key(x));
                }
            } else {
                assert(after_subdoc[d].contains_key(x));
            }
        }
    }
}

/// A listing tells its document: two documents that one sequence of pairs
/// lists are the same document.
pub proof fn lemma_listing_tells_document(
    entries: Seq<(Seq<char>, Seq<char>)>,
    doc: DocModel,
    other: DocModel,
)
    requires
        lists(entries, doc),
        lists(entries, other),
    ensures
        doc == other,
{
    assert forall|k: Seq<char>| doc.contains_key(k) == other.contains_key(k) && (doc.contains_key(
        k,
    ) ==> doc[k] == other[k]) by {
        if doc.contains_key(k) {
            let i = choose|i: int| 0 <= i < entries.len() && (#[trigger] entries[i]).0 == k;
            assert(other.contains_key(entries[i].0));
        }
        if other.contains_key(k) {
            let i = choose|i: int| 0 <= i < entries.len() && (#[trigger] entries[i]).0 == k;
            assert(doc.contains_key(entries[i].0));
        }
    }
    assert(doc =~= other);
}

/// A listing is as long as its document is large: a listed document has
/// finitely many sub-documents, and the listing has one pair for each.
pub proof fn lemma_listing_counts(entries: Seq<(Seq<char>, Seq<char>)>, doc: DocModel)
    requires
        lists(entries, doc),
    ensures
        doc.dom().finite(),
        doc.dom().len() == entries.len(),
    decreases entries.len(),
{
    if entries.len() == 0 {
        assert(doc.dom() =~= Set::<Seq<char>>::empty());
    } else {
        let last = entries.last();
        let front = entries.drop_last();
        let rest = doc.remove(last.0);
        assert(entries[entries.len() - 1] == last);
        assert(doc.contains_key(last.0));
        assert forall|i: int| 0 <= i < front.len() implies rest.contains_key(
            (#[trigger] front[i]).0,
        ) && rest[front[i].0] == front[i].1 by {
            assert(front[i] == entries[i]);
        }
        assert forall|k: Seq<char>| #[trigger] rest.contains_key(k) implies exists|i: int|
            0 <= i < front.len() && (#[trigger] front[i]).0 == k by {
            let i = choose|i: int| 0 <= i < entries.len() && (#[trigger] entries[i]).0 == k;
            assert(front[i] == entries[i]);
        }
        assert forall|i: int, j: int| 0 <= i < j < front.len() implies (#[trigger] front[i]).0 != (
        #[trigger] front[j]).0 by {
            assert(front[i] == entries[i] && front[j] == entries[j]);
        }
        lemma_listing_counts(front, rest);
        assert(doc.dom() =~= rest.dom().insert(last.0));
    }
}

/// One put: the document, the sub-document and the contents.
pub struct PutRequest {
    pub id: Seq<char>,
    pub subdoc: Seq<char>,
    pub contents: Seq<char>,
}

/// The store after the puts of `requests` were made one after the other,
/// the first of them first.
pub open spec fn put_all(s: StoreModel, requests: Seq<PutRequest>) -> StoreModel
    decreases requests.len(),
{
    if requests.len() == 0 {
        s
    } else {
        let last = requests.last();
        put(put_all(s, requests.drop_last()), last.id, last.subdoc, last.contents)
    }
}

/// No two of `requests` are for the same sub-document of the same document.
pub open spec fn distinct_targets(requests: Seq<PutRequest>) -> bool {
    forall|i: int, j: int|
        0 <= i < j < requests.len() ==> (#[trigger] requests[i]).id != (#[trigger] requests[j]).id
            || requests[i].subdoc != requests[j].subdoc
}

/// `request` is one of `requests` and is for sub-document `subdoc` of
/// document `id`.
pub open spec fn targets(
    requests: Seq<PutRequest>,
    request: PutRequest,
    id: Seq<char>,
    subdoc: Seq<char>,
) -> bool {
    requests.contains(request) && request.id == id && request.subdoc == subdoc
}

/// What a run of puts to distinct sub-documents leaves, read place by
/// place: a sub-document that one of the puts was for holds what that put
/// gave it, and every other place is as before.
pub proof fn lemma_put_all_reads(
    s: StoreModel,
    requests: Seq<PutRequest>,
    id: Seq<char>,
    subdoc: Seq<char>,
)
    requires
        distinct_targets(requests),
    ensures
        forall|request: PutRequest| #[trigger]
            targets(requests, request, id, subdoc) ==> lookup(put_all(s, requests), id, subdoc)
                == LookupModel::Found(request.contents),
        (forall|request: PutRequest| !(#[trigger] targets(requests, request, id, subdoc)))
            ==> document_of(put_all(s, requests), id).contains_key(subdoc) == document_of(
            s,
            id,
        ).contains_key(subdoc) && (document_of(s, id).contains_key(subdoc) ==> document_of(
            put_all(s, requests),
            id,
        )[subdoc] == document_of(s, id)[subdoc]),
        put_all(s, requests).contains_key(id) <==> s.contains_key(id) || exists|
            request: PutRequest,
        | #[trigger] requests.contains(request) && request.id == id,
    decreases requests.len(),
{
    if requests.len() > 0 {
        let last = requests.last();
        let front = requests.drop_last();
        let n = requests.len() - 1;
        assert(requests[n] == last);
        assert(requests.contains(last));
        assert forall|r: PutRequest| front.contains(r) implies requests.contains(r) by {
            let i = choose|i: int| 0 <= i < front.len() && front[i] == r;
            assert(requests[i] == r);
        }
        assert forall|r: PutRequest| requests.contains(r) implies front.contains(r) || r
            == last by {
            let i = choose|i: int| 0 <= i < requests.len() && requests[i] == r;
            if i < n {
                assert(front[i] == r);
            }
        }
        assert(distinct_targets(front)) by {
            assert forall|i: int, j: int| 0 <= i < j < front.len() implies (#[trigger] front[i]).id
                != (#[trigger] front[j]).id || front[i].subdoc != front[j].subdoc by {
                assert(requests[i] == front[i] && requests[j] == front[j]);
            }
        }
        lemma_put_all_reads(s, front, id, subdoc);
        assert forall|request: PutRequest| #[trigger]
            targets(requests, request, id, subdoc) implies lookup(
            put_all(s, requests),
            id,
            subdoc,
        ) == LookupModel::Found(request.contents) by {
            if request != last {
                assert(targets(front, request, id, subdoc));
                let i = choose|i: int| 0 <= i < front.len() && front[i] == request;
                assert(requests[i] == request);
                assert(last.id != id || last.subdoc != subdoc);
            }
        }
        if forall|request: PutRequest| !(#[trigger] targets(requests, request, id, subdoc)) {
            assert(!targets(requests, last, id, subdoc));
            assert forall|request: PutRequest| !(#[trigger] targets(
                front,
                request,
                id,
                subdoc,
            )) by {
                if targets(front, request, id, subdoc) {
                    assert(targets(requests, request, id, subdoc));
                }
            }
        }
        if put_all(s, requests).contains_key(id) && !s.contains_key(id) {
            if last.id != id {
                let r = choose|r: PutRequest| #[trigger] front.contains(r) && r.id == id;
                assert(requests.contains(r));
            }
        }
        if exists|request: PutRequest| #[trigger] requests.contains(request) && request.id == id {
            let r = choose|r: PutRequest| #[trigger] requests.contains(r) && r.id == id;
            if r != last {
                assert(front.contains(r));
            }
        }
    }
}

/// No put is lost: after a run of puts to distinct sub-documents, each of
/// them can be read back, alone and in the whole of its document, wherever
/// in the run it stood.
pub proof fn lemma_puts_all_visible(s: StoreModel, requests: Seq<PutRequest>, i: int)
    requires
        distinct_targets(requests),
        0 <= i < requests.len(),
    ensures
        lookup(put_all(s, requests), requests[i].id, requests[i].subdoc) == LookupModel::Found(
            requests[i].contents,
        ),
        document_of(put_all(s, requests), requests[i].id).contains_key(requests[i].subdoc),
        document_of(put_all(s, requests), requests[i].id)[requests[i].subdoc]
            == requests[i].contents,
{
    lemma_put_all_reads(s, requests, requests[i].id, requests[i].subdoc);
    assert(targets(requests, requests[i], requests[i].id, requests[i].subdoc));
}

/// The order of a run of puts to distinct sub-documents does not matter:
/// two runs of the same puts leave the same store.
pub proof fn lemma_put_all_any_order(
    s: StoreModel,
    requests: Seq<PutRequest>,
    reordered: Seq<PutRequest>,
)
    requires
        distinct_targets(requests),
        distinct_targets(reordered),
        forall|request: PutRequest|
            requests.contains(request) <==> reordered.contains(request),
    ensures
        put_all(s, requests) == put_all(s, reordered),
{
    let a = put_all(s, requests);
    let b = put_all(s, reordered);
    assert forall|id: Seq<char>| a.contains_key(id) == b.contains_key(id) by {
        lemma_put_all_reads(s, requests, id, Seq::empty());
        lemma_put_all_reads(s, reordered, id, Seq::empty());
        if exists|r: PutRequest| #[trigger] requests.contains(r) && r.id == id {
            let r = choose|r: PutRequest| #[trigger] requests.contains(r) && r.id == id;
            assert(reordered.contains(r));
        }
        if exists|r: PutRequest| #[trigger] reordered.contains(r) && r.id == id {
            let r = choose|r: PutRequest| #[trigger] reordered.contains(r) && r.id == id;
            assert(requests.contains(r));
        }
    }
    assert forall|id: Seq<char>| #[trigger] a.contains_key(id) implies a[id] =~= b[id] by {
        assert(b.contains_key(id));
        assert forall|subdoc: Seq<char>|
            (#[trigger] a[id].contains_key(subdoc)) == b[id].contains_key(subdoc) && (
            a[id].contains_key(subdoc) ==> a[id][subdoc] == b[id][subdoc]) by {
            lemma_put_all_reads(s, requests, id, subdoc);
            lemma_put_all_reads(s, reordered, id, subdoc);
            if exists|r: PutRequest| #[trigger] targets(requests, r, id, subdoc) {
                let r = choose|r: PutRequest| #[trigger] targets(requests, r, id, subdoc);
                assert(targets(reordered, r, id, subdoc));
            } else if exists|r: PutRequest| #[trigger] targets(reordered, r, id, subdoc) {
                let r = choose|r: PutRequest| #[trigger] targets(reordered, r, id, subdoc);
                assert(targets(requests, r, id, subdoc));
            }
        }
    }
    assert(a =~= b);
}

} // verus!

//! The store and its five operations.
//!
//! The store is owned by its caller. What changes it takes `&mut self`, so
//! no two operations ever run on one store at a time; a caller that shares
//! a store among threads keeps it behind a lock and holds that lock for the
//! length of each call.

use crate::model::{
    doc_deletion, document_of, empty_store, lists, lookup, put, subdoc_deletion, without_doc,
    without_subdoc, DocDeletion, DocModel, LookupModel, StoreModel, SubdocDeletion,
};
use crate::table::StringTable;
use vstd::prelude::*;

verus! {

/// One sub-document: its identifier and its contents.
#[derive(Debug, PartialEq, Eq)]
pub struct Message {
    pub subdocid: String,
    pub contents: String,
}

impl View for Message {
    type V = (Seq<char>, Seq<char>);

    open spec fn view(&self) -> (Seq<char>, Seq<char>) {
        (self.subdocid@, self.contents@)
    }
}

impl Clone for Message {
    fn clone(&self) -> (out: Self)
        ensures
            out@ == self@,
    {
        Message { subdocid: self.subdocid.clone(), contents: self.contents.clone() }
    }
}

/// A whole document as it is handed out: its sub-documents, in no
/// particular order.
#[derive(Debug, PartialEq, Eq)]
pub struct Document {
    pub contents: Vec<Message>,
}

impl View for Document {
    type V = Seq<(Seq<char>, Seq<char>)>;

    open spec fn view(&self) -> Seq<(Seq<char>, Seq<char>)> {
        Seq::new(self.contents@.len(), |i: int| self.contents@[i]@)
    }
}

impl Clone for Document {
    fn clone(&self) -> (out: Self)
        ensures
            out@ == self@,
    {
        let mut contents: Vec<Message> = Vec::new();
        let mut i: usize = 0;
        while i < self.contents.len()
            invariant
                i <= self.contents@.len(),
                contents@.len() == i,
                forall|j: int| 0 <= j < i ==> (#[trigger] contents@[j])@ == self.contents@[j]@,
            decreases self.contents@.len() - i,
        {
            contents.push(self.contents[i].clone());
            i += 1;
        }
        let out = Document { contents };
        assert(out@ =~= self@);
        out
    }
}

/// What reading one sub-document yields.
#[derive(Debug, PartialEq, Eq)]
pub enum Lookup {
    Found(String),
    UnknownSubdocument,
    UnknownDocument,
}

impl View for Lookup {
    type V = LookupModel;

    open spec fn view(&self) -> LookupModel {
        match *self {
            Lookup::Found(contents) => LookupModel::Found(contents@),
            Lookup::UnknownSubdocument => LookupModel::UnknownSubdocument,
            Lookup::UnknownDocument => LookupModel::UnknownDocument,
        }
    }
}

impl Clone for Lookup {
    fn clone(&self) -> (out: Self)
        ensures
            out@ == self@,
    {
        match self {
            Lookup::Found(contents) => Lookup::Found(contents.clone()),
            Lookup::UnknownSubdocument => Lookup::UnknownSubdocument,
            Lookup::UnknownDocument => Lookup::UnknownDocument,
        }
    }
}

/// A document as a map from sub-document identifier to contents.
spec fn doc_model(doc: StringTable<String>) -> DocModel {
    Map::new(|k: Seq<char>| doc@.contains_key(k), |k: Seq<char>| doc@[k]@)
}

/// The documents as a map from document identifier to document.
spec fn store_model(docs: StringTable<StringTable<String>>) -> StoreModel {
    Map::new(|d: Seq<char>| docs@.contains_key(d), |d: Seq<char>| doc_model(docs@[d]))
}

/// The table of documents and each document in it are well formed.
spec fn tables_wf(docs: StringTable<StringTable<String>>) -> bool {
    &&& docs.wf()
    &&& forall|d: Seq<char>| #[trigger] docs@.contains_key(d) ==> docs@[d].wf()
}

/// The document store.
#[allow(non_camel_case_types)]
pub struct catcore {
    docs: StringTable<StringTable<String>>,
}

impl View for catcore {
    type V = StoreModel;

    closed spec fn view(&self) -> StoreModel {
        store_model(self.docs)
    }
}

impl catcore {
    #[verifier::type_invariant]
    spec fn inv(&self) -> bool {
        tables_wf(self.docs)
    }

    /// A store with no document.
    pub fn new() -> (store: Self)
        ensures
            store@ == empty_store(),
    {
        let store = catcore { docs: StringTable::new() };
        assert(store@ =~= empty_store());
        store
    }

    /// Puts the sub-document `message` into document `id`, in place of the
    /// sub-document of that identifier if there was one. The document is
    /// made if it was not there. Nothing else changes.
    pub fn put_value(&mut self, id: String, message: Message)
        ensures
            final(self)@ == put(old(self)@, id@, message.subdocid@, message.contents@),
    {
        proof {
            use_type_invariant(&*self);
        }
        let mut docs = StringTable::new();
        std::mem::swap(&mut docs, &mut self.docs);
        let mut doc = match docs.remove(id.as_str()) {
            Some(doc) => doc,
            None => StringTable::new(),
        };
        doc.insert(message.subdocid, message.contents);
        docs.insert(id, doc);
        assert(store_model(docs) =~~= put(
            old(self)@,
            id@,
            message.subdocid@,
            message.contents@,
        ));
        self.docs = docs;
    }

    /// Reads sub-document `subdoc_id` of document `id`.
    pub fn get_value(&self, id: String, subdoc_id: String) -> (out: Lookup)
        ensures
            out@ == lookup(self@, id@, subdoc_id@),
    {
        proof {
            use_type_invariant(self);
        }
        match self.docs.get(id.as_str()) {
            None => Lookup::UnknownDocument,
            Some(doc) => match doc.get(subdoc_id.as_str()) {
                None => Lookup::UnknownSubdocument,
                Some(contents) => Lookup::Found(contents.clone()),
            },
        }
    }

    /// Reads the whole of document `id`: each of its sub-documents once, in
    /// no particular order. Of an unknown document nothing is listed.
    pub fn get_aggregate_value(&self, id: String) -> (doc: Document)
        ensures
            lists(doc@, document_of(self@, id@)),
    {
        proof {
            use_type_invariant(self);
        }
        match self.docs.get(id.as_str()) {
            None => Document { contents: Vec::new() },
            Some(entry) => {
                proof {
                    entry.lemma_key_seq();
                }
                let n: usize = entry.len();
                let mut contents: Vec<Message> = Vec::new();
                let mut i: usize = 0;
                while i < n
                    invariant
                        entry.wf(),
                        n == entry.key_seq().len(),
                        i <= n,
                        contents@.len() == i,
                        forall|j: int|
                            0 <= j < n ==> entry@.contains_key(#[trigger] entry.key_seq()[j]),
                        forall|j: int|
                            0 <= j < i ==> (#[trigger] contents@[j])@ == (
                                entry.key_seq()[j],
                                entry@[entry.key_seq()[j]]@,
                            ),
                    decreases n - i,
                {
                    let subdocid = entry.key_at(i).clone();
                    let text = entry.value_at(i).clone();
                    contents.push(Message { subdocid, contents: text });
                    i += 1;
                }
                let doc = Document { contents };
                proof {
                    entry.lemma_key_seq();
                    let keys = entry.key_seq();
                    let model = document_of(self@, id@);
                    assert(model == doc_model(*entry));
                    assert forall|k: Seq<char>| #[trigger] model.contains_key(k) implies exists|
                        j: int,
                    | 0 <= j < doc@.len() && (#[trigger] doc@[j]).0 == k by {
                        let j = choose|j: int| 0 <= j < keys.len() && keys[j] == k;
                        assert(doc@[j].0 == k);
                    }
                }
                doc
            },
        }
    }

    /// Deletes sub-document `subdoc_id` of document `id`. The document
    /// stays, also where this was its last sub-document. Where the document
    /// or the sub-document is unknown, nothing changes.
    pub fn delete_subdoc(&mut self, id: String, subdoc_id: String) -> (out: SubdocDeletion)
        ensures
            out == subdoc_deletion(old(self)@, id@, subdoc_id@),
            final(self)@ == without_subdoc(old(self)@, id@, subdoc_id@),
    {
        proof {
            use_type_invariant(&*self);
        }
        let mut docs = StringTable::new();
        std::mem::swap(&mut docs, &mut self.docs);
        let out = match docs.remove(id.as_str()) {
            None => SubdocDeletion::UnknownDocument,
            Some(mut doc) => {
                let removed = doc.remove(subdoc_id.as_str());
                docs.insert(id, doc);
                match removed {
                    Some(_) => SubdocDeletion::Deleted,
                    None => SubdocDeletion::UnknownSubdocument,
                }
            },
        };
        assert(store_model(docs) =~~= without_subdoc(old(self)@, id@, subdoc_id@));
        self.docs = docs;
        out
    }

    /// Deletes document `id` with all its sub-documents. Where the document
    /// is unknown, nothing changes.
    pub fn delete_doc(&mut self, id: String) -> (out: DocDeletion)
        ensures
            out == doc_deletion(old(self)@, id@),
            final(self)@ == without_doc(old(self)@, id@),
    {
        proof {
            use_type_invariant(&*self);
        }
        let mut docs = StringTable::new();
        std::mem::swap(&mut docs, &mut self.docs);
        let out = match docs.remove(id.as_str()) {
            None => DocDeletion::UnknownDocument,
            Some(_) => DocDeletion::Deleted,
        };
        assert(store_model(docs) =~~= without_doc(old(self)@, id@));
        self.docs = docs;
        out
    }
}

} // verus!

use catcore::{DocDeletion, Document, Lookup, Message, SubdocDeletion};

type Store = catcore::catcore;

fn text(s: &str) -> String {
    s.to_string()
}

fn message(subdocid: &str, contents: &str) -> Message {
    Message { subdocid: text(subdocid), contents: text(contents) }
}

fn put(store: &mut Store, id: &str, subdocid: &str, contents: &str) {
    store.put_value(text(id), message(subdocid, contents));
}

fn found(contents: &str) -> Lookup {
    Lookup::Found(text(contents))
}

/// The sub-documents of a document as sorted pairs.
fn pairs(doc: &Document) -> Vec<(String, String)> {
    let mut out: Vec<(String, String)> = Vec::new();
    for m in doc.contents.iter() {
        out.push((m.subdocid.clone(), m.contents.clone()));
    }
    out.sort();
    out
}

fn aggregate(store: &Store, id: &str) -> Vec<(String, String)> {
    pairs(&store.get_aggregate_value(text(id)))
}

fn pair(subdocid: &str, contents: &str) -> (String, String) {
    (text(subdocid), text(contents))
}

#[test]
fn new_store_has_no_document() {
    let store = Store::new();
    assert_eq!(store.get_value(text("d"), text("a")), Lookup::UnknownDocument);
    assert_eq!(store.get_aggregate_value(text("d")).contents.len(), 0);
}

#[test]
fn put_can_be_read_back() {
    let mut store = Store::new();
    put(&mut store, "d", "a", "x");
    assert_eq!(store.get_value(text("d"), text("a")), found("x"));
}

#[test]
fn second_put_overwrites_first() {
    let mut store = Store::new();
    put(&mut store, "d", "s", "c1");
    put(&mut store, "d", "s", "c2");
    assert_eq!(store.get_value(text("d"), text("s")), found("c2"));
    assert_ne!(store.get_value(text("d"), text("s")), found("c1"));
    assert_eq!(aggregate(&store, "d"), vec![pair("s", "c2")]);
}

#[test]
fn overwrite_keeps_the_siblings() {
    let mut store = Store::new();
    put(&mut store, "d", "a", "1");
    put(&mut store, "d", "b", "2");
    put(&mut store, "d", "c", "3");
    put(&mut store, "d", "b", "two");
    assert_eq!(aggregate(&store, "d"), vec![pair("a", "1"), pair("b", "two"), pair("c", "3")]);
}

#[test]
fn put_leaves_other_documents_alone() {
    let mut store = Store::new();
    put(&mut store, "d2", "s", "kept");
    put(&mut store, "d1", "s", "c");
    assert_eq!(store.get_value(text("d2"), text("s")), found("kept"));
    put(&mut store, "d1", "s", "changed");
    put(&mut store, "d1", "t", "more");
    assert_eq!(store.get_value(text("d2"), text("s")), found("kept"));
    assert_eq!(aggregate(&store, "d2"), vec![pair("s", "kept")]);
    assert_eq!(store.get_value(text("d3"), text("s")), Lookup::UnknownDocument);
}

#[test]
fn unknown_document_on_empty_store() {
    let mut store = Store::new();
    assert_eq!(store.get_value(text("nope"), text("x")), Lookup::UnknownDocument);
    assert_eq!(store.delete_subdoc(text("nope"), text("x")), SubdocDeletion::UnknownDocument);
    assert_eq!(store.delete_doc(text("nope")), DocDeletion::UnknownDocument);
    assert_eq!(store.get_value(text("nope"), text("x")), Lookup::UnknownDocument);
}

#[test]
fn unknown_document_beside_known_ones() {
    let mut store = Store::new();
    put(&mut store, "d", "a", "x");
    assert_eq!(store.get_value(text("nope"), text("a")), Lookup::UnknownDocument);
    assert_eq!(store.delete_subdoc(text("nope"), text("a")), SubdocDeletion::UnknownDocument);
    assert_eq!(store.delete_doc(text("nope")), DocDeletion::UnknownDocument);
    assert_eq!(aggregate(&store, "d"), vec![pair("a", "x")]);
}

#[test]
fn unknown_subdocument_after_put() {
    let mut store = Store::new();
    put(&mut store, "d", "a", "x");
    assert_eq!(store.get_value(text("d"), text("b")), Lookup::UnknownSubdocument);
}

#[test]
fn deleting_an_unknown_subdocument_changes_nothing() {
    let mut store = Store::new();
    put(&mut store, "d", "a", "x");
    assert_eq!(store.delete_subdoc(text("d"), text("b")), SubdocDeletion::UnknownSubdocument);
    assert_eq!(aggregate(&store, "d"), vec![pair("a", "x")]);
    assert_eq!(store.get_value(text("d"), text("a")), found("x"));
}

#[test]
fn aggregate_lists_every_subdocument() {
    let mut store = Store::new();
    put(&mut store, "d", "a", "1");
    put(&mut store, "d", "b", "2");
    let doc = store.get_aggregate_value(text("d"));
    assert_eq!(doc.contents.len(), 2);
    assert_eq!(pairs(&doc), vec![pair("a", "1"), pair("b", "2")]);
}

#[test]
fn aggregate_of_unknown_document_is_empty() {
    let store = Store::new();
    let doc = store.get_aggregate_value(text("missing"));
    assert_eq!(doc, Document { contents: vec![] });
}

#[test]
fn aggregate_does_not_make_the_document() {
    let mut store = Store::new();
    assert_eq!(store.get_aggregate_value(text("missing")).contents.len(), 0);
    assert_eq!(store.get_value(text("missing"), text("a")), Lookup::UnknownDocument);
    assert_eq!(store.delete_doc(text("missing")), DocDeletion::UnknownDocument);
}

#[test]
fn deleted_document_is_unknown() {
    let mut store = Store::new();
    put(&mut store, "d", "a", "1");
    assert_eq!(store.delete_doc(text("d")), DocDeletion::Deleted);
    assert_eq!(store.get_value(text("d"), text("a")), Lookup::UnknownDocument);
    assert_eq!(store.get_aggregate_value(text("d")).contents.len(), 0);
    assert_eq!(store.delete_doc(text("d")), DocDeletion::UnknownDocument);
}

#[test]
fn deleting_a_document_takes_all_its_subdocuments() {
    let mut store = Store::new();
    put(&mut store, "d", "a", "1");
    put(&mut store, "d", "b", "2");
    put(&mut store, "e", "a", "other");
    assert_eq!(store.delete_doc(text("d")), DocDeletion::Deleted);
    assert_eq!(store.get_value(text("d"), text("a")), Lookup::UnknownDocument);
    assert_eq!(store.get_value(text("d"), text("b")), Lookup::UnknownDocument);
    assert_eq!(store.delete_subdoc(text("d"), text("a")), SubdocDeletion::UnknownDocument);
    assert_eq!(aggregate(&store, "e"), vec![pair("a", "other")]);
}

#[test]
fn put_after_document_deletion_starts_afresh() {
    let mut store = Store::new();
    put(&mut store, "d", "a", "1");
    put(&mut store, "d", "b", "2");
    assert_eq!(store.delete_doc(text("d")), DocDeletion::Deleted);
    put(&mut store, "d", "c", "3");
    assert_eq!(aggregate(&store, "d"), vec![pair("c", "3")]);
    assert_eq!(store.get_value(text("d"), text("a")), Lookup::UnknownSubdocument);
}

#[test]
fn deleting_a_subdocument_leaves_its_sibling() {
    let mut store = Store::new();
    put(&mut store, "d", "a", "1");
    put(&mut store, "d", "b", "2");
    assert_eq!(store.delete_subdoc(text("d"), text("a")), SubdocDeletion::Deleted);
    assert_eq!(store.get_value(text("d"), text("b")), found("2"));
    assert_eq!(store.get_value(text("d"), text("a")), Lookup::UnknownSubdocument);
    assert_eq!(aggregate(&store, "d"), vec![pair("b", "2")]);
}

#[test]
fn deleting_a_subdocument_twice_reports_it_unknown() {
    let mut store = Store::new();
    put(&mut store, "d", "a", "1");
    put(&mut store, "d", "b", "2");
    assert_eq!(store.delete_subdoc(text("d"), text("a")), SubdocDeletion::Deleted);
    assert_eq!(store.delete_subdoc(text("d"), text("a")), SubdocDeletion::UnknownSubdocument);
}

/// Deleting the last sub-document leaves its document in the store, empty:
/// the document is still known, and only deleting the document removes it.
#[test]
fn last_subdocument_deleted_leaves_empty_document() {
    let mut store = Store::new();
    put(&mut store, "d", "a", "1");
    assert_eq!(store.delete_subdoc(text("d"), text("a")), SubdocDeletion::Deleted);
    assert_eq!(store.get_value(text("d"), text("a")), Lookup::UnknownSubdocument);
    assert_eq!(store.delete_subdoc(text("d"), text("a")), SubdocDeletion::UnknownSubdocument);
    assert_eq!(store.get_aggregate_value(text("d")).contents.len(), 0);
    assert_eq!(store.delete_doc(text("d")), DocDeletion::Deleted);
    assert_eq!(store.get_value(text("d"), text("a")), Lookup::UnknownDocument);
}

#[test]
fn put_into_emptied_document() {
    let mut store = Store::new();
    put(&mut store, "d", "a", "1");
    assert_eq!(store.delete_subdoc(text("d"), text("a")), SubdocDeletion::Deleted);
    put(&mut store, "d", "b", "2");
    assert_eq!(aggregate(&store, "d"), vec![pair("b", "2")]);
}

#[test]
fn order_walkthrough() {
    let mut store = Store::new();
    put(&mut store, "order1", "item_a", "red shirt");
    put(&mut store, "order1", "item_b", "blue hat");
    assert_eq!(
        aggregate(&store, "order1"),
        vec![pair("item_a", "red shirt"), pair("item_b", "blue hat")]
    );
    assert_eq!(store.delete_subdoc(text("order1"), text("item_a")), SubdocDeletion::Deleted);
    assert_eq!(store.get_value(text("order1"), text("item_a")), Lookup::UnknownSubdocument);
    assert_eq!(store.delete_doc(text("order1")), DocDeletion::Deleted);
    assert_eq!(store.get_aggregate_value(text("order1")).contents.len(), 0);
}

#[test]
fn empty_identifiers_are_ordinary_keys() {
    let mut store = Store::new();
    put(&mut store, "", "", "root");
    put(&mut store, "", "a", "leaf");
    put(&mut store, "d", "", "other");
    assert_eq!(store.get_value(text(""), text("")), found("root"));
    assert_eq!(store.get_value(text(""), text("a")), found("leaf"));
    assert_eq!(store.get_value(text("d"), text("")), found("other"));
    assert_eq!(store.get_value(text("d"), text("a")), Lookup::UnknownSubdocument);
    assert_eq!(aggregate(&store, ""), vec![pair("", "root"), pair("a", "leaf")]);
    assert_eq!(store.delete_subdoc(text(""), text("")), SubdocDeletion::Deleted);
    assert_eq!(store.delete_doc(text("")), DocDeletion::Deleted);
    assert_eq!(store.get_value(text(""), text("a")), Lookup::UnknownDocument);
}

#[test]
fn empty_contents_are_kept() {
    let mut store = Store::new();
    put(&mut store, "d", "a", "");
    assert_eq!(store.get_value(text("d"), text("a")), found(""));
    assert_eq!(aggregate(&store, "d"), vec![pair("a", "")]);
}

#[test]
fn identifiers_are_compared_exactly() {
    let mut store = Store::new();
    put(&mut store, "Doc", "Sub", "upper");
    put(&mut store, "doc", "sub", "lower");
    put(&mut store, "doc ", "sub", "spaced");
    put(&mut store, "d\u{f6}c", "s\u{fc}b", "accented");
    assert_eq!(store.get_value(text("Doc"), text("Sub")), found("upper"));
    assert_eq!(store.get_value(text("doc"), text("sub")), found("lower"));
    assert_eq!(store.get_value(text("doc "), text("sub")), found("spaced"));
    assert_eq!(store.get_value(text("d\u{f6}c"), text("s\u{fc}b")), found("accented"));
    assert_eq!(store.get_value(text("doc"), text("Sub")), Lookup::UnknownSubdocument);
    assert_eq!(store.get_value(text("DOC"), text("sub")), Lookup::UnknownDocument);
}

#[test]
fn same_subdocument_name_in_two_documents() {
    let mut store = Store::new();
    put(&mut store, "d1", "s", "one");
    put(&mut store, "d2", "s", "two");
    assert_eq!(store.delete_subdoc(text("d1"), text("s")), SubdocDeletion::Deleted);
    assert_eq!(store.get_value(text("d1"), text("s")), Lookup::UnknownSubdocument);
    assert_eq!(store.get_value(text("d2"), text("s")), found("two"));
}

#[test]
fn removal_from_any_position_keeps_the_rest() {
    let names = ["a", "b", "c", "d", "e"];
    for gone in names.iter() {
        let mut store = Store::new();
        for name in names.iter() {
            put(&mut store, "doc", name, &format!("value of {}", name));
        }
        assert_eq!(store.delete_subdoc(text("doc"), text(gone)), SubdocDeletion::Deleted);
        let mut expected: Vec<(String, String)> = Vec::new();
        for name in names.iter() {
            if name != gone {
                expected.push((text(name), format!("value of {}", name)));
                assert_eq!(
                    store.get_value(text("doc"), text(name)),
                    Lookup::Found(format!("value of {}", name))
                );
            }
        }
        assert_eq!(store.get_value(text("doc"), text(gone)), Lookup::UnknownSubdocument);
        assert_eq!(aggregate(&store, "doc"), expected);
    }
}

#[test]
fn document_removal_from_any_position_keeps_the_rest() {
    let names = ["p", "q", "r", "s"];
    for gone in names.iter() {
        let mut store = Store::new();
        for name in names.iter() {
            put(&mut store, name, "x", &format!("x of {}", name));
            put(&mut store, name, "y", &format!("y of {}", name));
        }
        assert_eq!(store.delete_doc(text(gone)), DocDeletion::Deleted);
        for name in names.iter() {
            if name == gone {
                assert_eq!(store.get_value(text(name), text("x")), Lookup::UnknownDocument);
                assert_eq!(aggregate(&store, name), vec![]);
            } else {
                assert_eq!(
                    aggregate(&store, name),
                    vec![
                        (text("x"), format!("x of {}", name)),
                        (text("y"), format!("y of {}", name))
                    ]
                );
            }
        }
    }
}

#[test]
fn entries_can_be_removed_down_to_none() {
    let mut store = Store::new();
    let mut expected: Vec<(String, String)> = Vec::new();
    for i in 0..20 {
        let name = format!("s{:02}", i);
        put(&mut store, "doc", &name, &format!("{}", i));
        expected.push((name, format!("{}", i)));
    }
    assert_eq!(aggregate(&store, "doc"), expected);
    for step in [7usize, 0, 17, 3, 3, 10, 0, 12, 5, 5, 1, 8, 0, 2, 4, 0, 1, 2, 1, 0] {
        let (name, _) = expected.remove(step);
        assert_eq!(store.delete_subdoc(text("doc"), name.clone()), SubdocDeletion::Deleted);
        assert_eq!(store.get_value(text("doc"), name), Lookup::UnknownSubdocument);
        assert_eq!(aggregate(&store, "doc"), expected);
    }
    assert_eq!(expected.len(), 0);
}

#[test]
fn many_puts_are_all_visible() {
    let mut store = Store::new();
    for d in 0..10 {
        for s in 0..30 {
            put(&mut store, &format!("doc{}", d), &format!("sub{}", s), &format!("{}/{}", d, s));
        }
    }
    for d in 0..10 {
        let doc = store.get_aggregate_value(format!("doc{}", d));
        assert_eq!(doc.contents.len(), 30);
        let mut expected: Vec<(String, String)> = Vec::new();
        for s in 0..30 {
            expected.push((format!("sub{}", s), format!("{}/{}", d, s)));
            assert_eq!(
                store.get_value(format!("doc{}", d), format!("sub{}", s)),
                Lookup::Found(format!("{}/{}", d, s))
            );
        }
        expected.sort();
        assert_eq!(pairs(&doc), expected);
    }
}

#[test]
fn puts_to_distinct_keys_in_any_order_leave_the_same_documents() {
    let keys = [("d1", "a", "1"), ("d2", "a", "2"), ("d1", "b", "3"), ("d3", "c", "4"), ("d2", "b", "5")];
    let mut forward = Store::new();
    for (d, s, c) in keys.iter() {
        put(&mut forward, d, s, c);
    }
    let mut backward = Store::new();
    for (d, s, c) in keys.iter().rev() {
        put(&mut backward, d, s, c);
    }
    let mut shuffled = Store::new();
    for i in [2usize, 4, 0, 3, 1] {
        let (d, s, c) = keys[i];
        put(&mut shuffled, d, s, c);
    }
    for d in ["d1", "d2", "d3"] {
        assert_eq!(aggregate(&forward, d), aggregate(&backward, d));
        assert_eq!(aggregate(&forward, d), aggregate(&shuffled, d));
    }
    assert_eq!(aggregate(&forward, "d1"), vec![pair("a", "1"), pair("b", "3")]);
    assert_eq!(aggregate(&forward, "d2"), vec![pair("a", "2"), pair("b", "5")]);
    assert_eq!(aggregate(&forward, "d3"), vec![pair("c", "4")]);
    for (d, s, c) in keys.iter() {
        assert_eq!(shuffled.get_value(text(d), text(s)), found(c));
    }
}

#[test]
fn aggregate_lists_no_subdocument_twice() {
    let mut store = Store::new();
    for round in 0..3 {
        for s in ["a", "b", "c"] {
            put(&mut store, "d", s, &format!("{}{}", s, round));
        }
    }
    let doc = store.get_aggregate_value(text("d"));
    assert_eq!(doc.contents.len(), 3);
    assert_eq!(pairs(&doc), vec![pair("a", "a2"), pair("b", "b2"), pair("c", "c2")]);
}

#[test]
fn reading_changes_nothing() {
    let mut store = Store::new();
    put(&mut store, "d", "a", "1");
    for _ in 0..3 {
        assert_eq!(store.get_value(text("d"), text("a")), found("1"));
        assert_eq!(store.get_value(text("d"), text("b")), Lookup::UnknownSubdocument);
        assert_eq!(store.get_value(text("e"), text("a")), Lookup::UnknownDocument);
        assert_eq!(aggregate(&store, "d"), vec![pair("a", "1")]);
        assert_eq!(aggregate(&store, "e"), vec![]);
    }
}

#[test]
fn clones_are_equal_to_what_they_copy() {
    let m = message("a", "1");
    assert_eq!(m.clone(), m);
    let doc = Document { contents: vec![message("a", "1"), message("b", "2"), message("a", "3")] };
    assert_eq!(doc.clone(), doc);
    assert_eq!(Document { contents: vec![] }.clone(), Document { contents: vec![] });
    assert_eq!(found("x").clone(), found("x"));
    assert_eq!(Lookup::UnknownSubdocument.clone(), Lookup::UnknownSubdocument);
    assert_eq!(Lookup::UnknownDocument.clone(), Lookup::UnknownDocument);
}

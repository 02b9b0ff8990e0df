//! The ingestion dispatcher and the backend model it drives.

use ruyi_search::{
    feed_file, service_one, EventQueue, SearchBackendModel, SearchableDocument,
    SearchableDocumentId, SearchableMessage, SearchableRoot,
};

#[test]
fn events_are_serviced_oldest_first() {
    let mut queue = EventQueue::new();
    let mut backend = SearchBackendModel::new();
    let root = SearchableRoot::Files {
        folder_path: "d".to_string(),
    };
    let doc = SearchableDocument::new("a.txt".to_string(), root, "one".to_string());
    let id = SearchableDocumentId::new("a.txt", &doc.root());
    ruyi_search::send_new_searchable_document(&mut queue, doc);
    ruyi_search::invalidate_searchable_document(&mut queue, id);
    assert_eq!(queue.len(), 2);

    assert!(service_one(&mut queue, &mut backend));
    assert_eq!(backend.documents.len(), 1);
    assert!(service_one(&mut queue, &mut backend));
    assert_eq!(backend.documents.len(), 0);
    // nothing left: a further step is a no-op
    assert!(!service_one(&mut queue, &mut backend));
}

#[test]
fn reindexing_an_unchanged_file_replaces() {
    // The same file fed twice produces the same identity both times and one
    // backend record, not two.
    let mut queue = EventQueue::new();
    let mut backend = SearchBackendModel::new();
    let path = "/srv/files/dir/notes.txt";
    let base = "/srv/files";
    assert!(feed_file(&mut queue, path, base, b"hello", None));
    assert!(feed_file(&mut queue, path, base, b"hello", None));
    assert_eq!(queue.len(), 2);
    assert!(service_one(&mut queue, &mut backend));
    assert!(service_one(&mut queue, &mut backend));
    assert_eq!(backend.documents.len(), 1);

    let root = SearchableRoot::Files {
        folder_path: "dir".to_string(),
    };
    let id = SearchableDocumentId::new("notes.txt", &root);
    assert!(backend.documents.contains(&id));
}

#[test]
fn a_changed_file_keeps_its_identity() {
    let mut queue = EventQueue::new();
    let mut backend = SearchBackendModel::new();
    let path = "/srv/files/dir/notes.txt";
    let base = "/srv/files";
    assert!(feed_file(&mut queue, path, base, b"first", None));
    assert!(feed_file(&mut queue, path, base, b"second", None));
    assert!(service_one(&mut queue, &mut backend));
    assert!(service_one(&mut queue, &mut backend));
    assert_eq!(backend.documents.len(), 1);
    let root = SearchableRoot::Files {
        folder_path: "dir".to_string(),
    };
    let id = SearchableDocumentId::new("notes.txt", &root);
    let stored = backend.documents.get(&id).expect("the record is there");
    assert_eq!(stored.contents(), "second");
}

#[test]
fn git_documents_live_in_their_own_index() {
    let mut queue = EventQueue::new();
    let mut backend = SearchBackendModel::new();
    let fed = ruyi_search::feed_git_file(
        &mut queue,
        "/srv/gits/proj/src/lib.rs",
        "/srv/gits/proj",
        "git@example.test:me/proj.git".to_string(),
        "main".to_string(),
        b"pub fn f() {}",
        None,
    );
    assert!(fed);
    assert!(service_one(&mut queue, &mut backend));
    assert_eq!(backend.github_documents.len(), 1);
    assert_eq!(backend.documents.len(), 0);
}

#[test]
fn message_upserts_collide_by_design() {
    // Two identical messages from one author share an identity: the second
    // upsert replaces the first.
    let mut queue = EventQueue::new();
    let mut backend = SearchBackendModel::new();
    ruyi_search::send_new_searchable_message(&mut queue, SearchableMessage::new(7, "same".to_string()));
    ruyi_search::send_new_searchable_message(&mut queue, SearchableMessage::new(7, "same".to_string()));
    assert!(service_one(&mut queue, &mut backend));
    assert!(service_one(&mut queue, &mut backend));
    assert_eq!(backend.messages.len(), 1);
}

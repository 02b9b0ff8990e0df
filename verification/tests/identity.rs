//! Identity and provenance scenarios.

use ruyi_search::{
    EventQueue, IngestEvent, SearchableDocument, SearchableDocumentId, SearchableRoot,
};
use sha2::Digest;

#[test]
fn notes_txt_under_watched_root() {
    let root = SearchableRoot::Files {
        folder_path: "R".to_string(),
    };
    let doc = SearchableDocument::new("notes.txt".to_string(), root, "hello".to_string());
    assert_eq!(doc.filename(), "notes.txt");
    assert_eq!(doc.contents(), "hello");
    assert_eq!(doc.root_string(), "file://R/");
    let expected = hex::encode(sha2::Sha256::digest("file://R/notes.txt".as_bytes()));
    assert_eq!(doc.id().as_str(), expected.as_str());
}

#[test]
fn id_is_deterministic() {
    let r1 = SearchableRoot::Files {
        folder_path: "a/b".to_string(),
    };
    let r2 = SearchableRoot::Files {
        folder_path: "a/b".to_string(),
    };
    let id1 = SearchableDocumentId::new("f.txt", &r1);
    let id2 = SearchableDocumentId::new("f.txt", &r2);
    assert_eq!(id1.as_str(), id2.as_str());
}

#[test]
fn id_ignores_folder_spelling() {
    // A trailing or doubled slash normalizes away, so the identity is stable
    // across spellings of the same folder.
    let plain = SearchableRoot::Files {
        folder_path: "a/b".to_string(),
    };
    let trailing = SearchableRoot::Files {
        folder_path: "a/b/".to_string(),
    };
    let doubled = SearchableRoot::Files {
        folder_path: "a//b".to_string(),
    };
    let id = SearchableDocumentId::new("f.txt", &plain);
    assert_eq!(id.as_str(), SearchableDocumentId::new("f.txt", &trailing).as_str());
    assert_eq!(id.as_str(), SearchableDocumentId::new("f.txt", &doubled).as_str());
}

#[test]
fn new_file_relative_to_base() {
    let root = SearchableRoot::new_file("/srv/files/dir/sub/x.txt", "/srv/files");
    match root {
        SearchableRoot::Files { folder_path } => assert_eq!(folder_path, "dir/sub"),
        _ => panic!("expected a local root"),
    }
    let at_base = SearchableRoot::new_file("/srv/files/x.txt", "/srv/files");
    match at_base {
        SearchableRoot::Files { folder_path } => assert_eq!(folder_path, ""),
        _ => panic!("expected a local root"),
    }
}

#[test]
fn github_root_encodes_like_files() {
    // The git variant deliberately reuses the path-only encoding.
    let local = SearchableRoot::Files {
        folder_path: "proj/src".to_string(),
    };
    let git = SearchableRoot::GitHub {
        origin: "git@example.test:me/proj.git".to_string(),
        branch: "main".to_string(),
        folder_path: "proj/src".to_string(),
    };
    assert_eq!(local.canonical_string(), git.canonical_string());
    let a = SearchableDocumentId::new("lib.rs", &local);
    let b = SearchableDocumentId::new("lib.rs", &git);
    assert_eq!(a.as_str(), b.as_str());
}

#[test]
fn deletion_invalidates_creation_id() {
    // The id queued on removal equals the one computed when the file was
    // first seen.
    let mut queue = EventQueue::new();
    let path = "/watched/dir/notes.txt";
    let base = "/watched";
    let fed = ruyi_search::feed_file(&mut queue, path, base, b"hello", None);
    assert!(fed);
    let created_id = match queue.pop_front() {
        Some(IngestEvent::NewDocument(d)) => d.id().as_str().to_string(),
        other => panic!("expected a new-document event, got {:?}", other),
    };
    ruyi_search::invalidate_file(&mut queue, path, base);
    match queue.pop_front() {
        Some(IngestEvent::InvalidatedDocument(inv)) => {
            assert_eq!(inv.0.as_str(), created_id.as_str());
        }
        other => panic!("expected an invalidation event, got {:?}", other),
    }
}

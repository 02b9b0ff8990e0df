//! Canonical encoding and decoding of provenance roots.

use ruyi_search::{SearchableDocument, SearchableRoot};

fn encoded(root: SearchableRoot) -> String {
    root.canonical_string()
}

fn round_trip(root: SearchableRoot) {
    // Encoding, decoding, and re-encoding must reproduce the original
    // string, whatever variant the decoder picked.
    let s = root.canonical_string();
    let doc = SearchableDocument::new("f.txt".to_string(), root, String::new());
    let decoded = doc.root();
    assert_eq!(decoded.canonical_string(), s);
}

#[test]
fn file_encoding_shape() {
    assert_eq!(
        encoded(SearchableRoot::Files { folder_path: "a/b".to_string() }),
        "file://a/b/"
    );
    assert_eq!(
        encoded(SearchableRoot::Files { folder_path: "".to_string() }),
        "file://"
    );
    assert_eq!(
        encoded(SearchableRoot::Files { folder_path: "/".to_string() }),
        "file://"
    );
    assert_eq!(
        encoded(SearchableRoot::Files { folder_path: "a//b///c/".to_string() }),
        "file://a/b/c/"
    );
}

#[test]
fn gdrive_encoding_shape() {
    assert_eq!(
        encoded(SearchableRoot::GoogleDrive {
            drive_name: "team".to_string(),
            folder_path: "docs/specs".to_string(),
        }),
        "gdrive://team/docs/specs/"
    );
    assert_eq!(
        encoded(SearchableRoot::GoogleDrive {
            drive_name: "team".to_string(),
            folder_path: "".to_string(),
        }),
        "gdrive://team/"
    );
}

#[test]
fn files_round_trip() {
    round_trip(SearchableRoot::Files { folder_path: "a/b".to_string() });
    round_trip(SearchableRoot::Files { folder_path: "".to_string() });
    round_trip(SearchableRoot::Files { folder_path: "/abs/path".to_string() });
}

#[test]
fn github_round_trip() {
    round_trip(SearchableRoot::GitHub {
        origin: "git@example.test:me/proj.git".to_string(),
        branch: "main".to_string(),
        folder_path: "proj/src".to_string(),
    });
}

#[test]
fn gdrive_round_trip() {
    round_trip(SearchableRoot::GoogleDrive {
        drive_name: "team".to_string(),
        folder_path: "docs".to_string(),
    });
    round_trip(SearchableRoot::GoogleDrive {
        drive_name: "team".to_string(),
        folder_path: "".to_string(),
    });
    round_trip(SearchableRoot::GoogleDrive {
        drive_name: "".to_string(),
        folder_path: "x".to_string(),
    });
}

#[test]
fn decode_dispatches_on_scheme() {
    let doc = SearchableDocument::new(
        "f.txt".to_string(),
        SearchableRoot::Files { folder_path: "a".to_string() },
        String::new(),
    );
    match doc.root() {
        SearchableRoot::Files { folder_path } => assert_eq!(folder_path, "a/"),
        other => panic!("expected a local root, got {:?}", other),
    }
    let doc = SearchableDocument::new(
        "f.txt".to_string(),
        SearchableRoot::GoogleDrive {
            drive_name: "team".to_string(),
            folder_path: "docs".to_string(),
        },
        String::new(),
    );
    match doc.root() {
        SearchableRoot::GoogleDrive { drive_name, folder_path } => {
            assert_eq!(drive_name, "team");
            assert_eq!(folder_path, "/docs/");
        }
        other => panic!("expected a drive root, got {:?}", other),
    }
}

//! Classification of filesystem notifications, and message identity.

use ruyi_search::{classify_change, FsChangeKind, SearchableMessage, WatchDecision};
use sha2::Digest;

#[test]
fn change_classification() {
    assert_eq!(
        classify_change(FsChangeKind::Created, true),
        WatchDecision::Reextract
    );
    assert_eq!(
        classify_change(FsChangeKind::Modified, true),
        WatchDecision::Reextract
    );
    // create/modify on something that is not a file: nothing to do
    assert_eq!(
        classify_change(FsChangeKind::Created, false),
        WatchDecision::Ignore
    );
    assert_eq!(
        classify_change(FsChangeKind::Modified, false),
        WatchDecision::Ignore
    );
    assert_eq!(
        classify_change(FsChangeKind::Removed, true),
        WatchDecision::Invalidate
    );
    assert_eq!(
        classify_change(FsChangeKind::RenamedFrom, true),
        WatchDecision::Invalidate
    );
}

#[test]
fn message_id_hashes_author_and_body() {
    let msg = SearchableMessage::new(42, "hello".to_string());
    assert_eq!(msg.author_id(), 42);
    assert_eq!(msg.message(), "hello");
    let mut digest = sha2::Sha256::new();
    digest.update(42u64.to_le_bytes());
    digest.update("hello".as_bytes());
    let expected = hex::encode(digest.finalize());
    assert_eq!(msg.id_str(), expected.as_str());
}

#[test]
fn message_ids_distinguish_authors() {
    let a = SearchableMessage::new(1, "hello".to_string());
    let b = SearchableMessage::new(2, "hello".to_string());
    assert_ne!(a.id_str(), b.id_str());
}

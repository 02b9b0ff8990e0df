//! The chat boundary: opt-in tracking and author-scoped invalidation.

use ruyi_search::{
    author_opt_in, author_opt_out, record_chat_message, service_one, should_index_message,
    EventQueue, OptInSet, SearchBackendModel,
};

#[test]
fn opt_out_removes_all_messages_of_the_author() {
    // Author 42 opts in, sends two messages, then opts out: both messages
    // leave the index, and a later message from 42 is not indexed at all.
    let mut opt_in = OptInSet::new();
    let mut queue = EventQueue::new();
    let mut backend = SearchBackendModel::new();

    assert!(author_opt_in(&mut opt_in, 42));
    assert!(record_chat_message(&mut queue, &opt_in, false, 42, "first".to_string()));
    assert!(record_chat_message(&mut queue, &opt_in, false, 42, "second".to_string()));
    assert!(service_one(&mut queue, &mut backend));
    assert!(service_one(&mut queue, &mut backend));
    assert_eq!(backend.messages.len(), 2);

    assert!(author_opt_out(&mut opt_in, &mut queue, 42));
    assert!(service_one(&mut queue, &mut backend));
    assert_eq!(backend.messages.len(), 0);

    let indexed = record_chat_message(&mut queue, &opt_in, false, 42, "third".to_string());
    assert!(!indexed);
    assert_eq!(queue.len(), 0);
}

#[test]
fn opt_out_spares_other_authors() {
    let mut opt_in = OptInSet::new();
    let mut queue = EventQueue::new();
    let mut backend = SearchBackendModel::new();
    author_opt_in(&mut opt_in, 1);
    author_opt_in(&mut opt_in, 2);
    record_chat_message(&mut queue, &opt_in, false, 1, "from one".to_string());
    record_chat_message(&mut queue, &opt_in, false, 2, "from two".to_string());
    service_one(&mut queue, &mut backend);
    service_one(&mut queue, &mut backend);
    author_opt_out(&mut opt_in, &mut queue, 1);
    service_one(&mut queue, &mut backend);
    assert_eq!(backend.messages.len(), 1);
}

#[test]
fn own_messages_are_always_indexed() {
    let opt_in = OptInSet::new();
    assert!(should_index_message(true, 99, &opt_in));
    assert!(!should_index_message(false, 99, &opt_in));
}

#[test]
fn membership_changes_report_persistence() {
    // The caller re-persists the list exactly when it changed.
    let mut opt_in = OptInSet::new();
    assert!(author_opt_in(&mut opt_in, 5));
    assert!(!author_opt_in(&mut opt_in, 5));
    let mut queue = EventQueue::new();
    assert!(author_opt_out(&mut opt_in, &mut queue, 5));
    assert!(!author_opt_out(&mut opt_in, &mut queue, 5));
    // the invalidation is queued either way
    assert_eq!(queue.len(), 2);
}

#[test]
fn persisted_list_round_trips() {
    let mut opt_in = OptInSet::new();
    author_opt_in(&mut opt_in, 3);
    author_opt_in(&mut opt_in, 9);
    let rebuilt = OptInSet::from_ids(opt_in.id_list());
    assert!(rebuilt.contains(3));
    assert!(rebuilt.contains(9));
    assert!(!rebuilt.contains(4));
}

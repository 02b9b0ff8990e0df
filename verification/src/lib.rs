//! Ingestion-and-synchronization pipeline for a full-text search backend.
//!
//! Content from heterogeneous sources (local file trees, cloned git
//! repositories, chat messages) is normalized into searchable text, given a
//! stable content-addressed identity, and pushed through an
//! add/replace/invalidate protocol towards the search backend.
//!
//! The crate holds the verified core: the content extractor, the document
//! identity and provenance model with its canonical string encoding, the
//! ingestion dispatcher that serializes all backend writes, and the
//! rate-limited single-flight gate around the git synchronizer. Process
//! wiring (filesystem walking, subprocesses, the network client of the
//! backend) lives outside, handing plain values in and out.

pub mod backend;
pub mod chat;
pub mod digest;
pub mod document;
pub mod events;
pub mod extract;
pub mod gitsync;
pub mod message;
pub mod root;
pub mod strutil;
pub mod watch;

pub use backend::{DocumentIndexModel, MessageIndexModel, SearchBackendModel, service_one};
pub use chat::{
    author_opt_in, author_opt_out, record_chat_message, should_index_message, OptInSet,
};
pub use document::{InvalidatedSearchableDocument, SearchableDocument, SearchableDocumentId};
pub use events::{
    invalidate_message_author_id, invalidate_searchable_document, operation_for,
    send_new_searchable_document, send_new_searchable_github_document,
    send_new_searchable_message, BackendOp, EventQueue, IngestEvent,
};
pub use extract::{
    classify_extension, docx_text, extract_contents, extract_text_docx, file_extension,
    ExtensionClass,
};
pub use gitsync::{feed_git_file, GitSyncGate, GIT_SYNC_COOLDOWN_SECONDS};
pub use message::SearchableMessage;
pub use root::SearchableRoot;
pub use watch::{classify_change, feed_file, invalidate_file, FsChangeKind, WatchDecision};

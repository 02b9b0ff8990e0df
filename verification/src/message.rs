//! Searchable chat messages.
//!
//! A message's id is the hex SHA-256 digest of the author id's little-endian
//! bytes followed by the message body's bytes. Two identical messages from
//! one author collide by design: messages are indexed once and never
//! re-synced, so a collision replaces an identical entry.

use vstd::prelude::*;
use vstd::string::StrSliceExecFns;

use crate::digest::{hex_encode, hex_of, sha256_digest, sha256_of};

verus! {

/// The content-addressed identity of a chat message.
pub open spec fn message_id_chars(author_id: u64, message: Seq<char>) -> Seq<char> {
    hex_of(
        sha256_of(
            vstd::bytes::spec_u64_to_le_bytes(author_id) + vstd::utf8::encode_utf8(message),
        ),
    )
}

/// Mathematical model of a message.
pub struct MessageView {
    pub id: Seq<char>,
    pub author_id: u64,
    pub message: Seq<char>,
}

/// A chat message from a tracked author, ready for indexing.
#[derive(Debug, Clone)]
pub struct SearchableMessage {
    id: String,
    author_id: u64,
    message: String,
}

impl View for SearchableMessage {
    type V = MessageView;

    closed spec fn view(&self) -> MessageView {
        MessageView { id: self.id@, author_id: self.author_id, message: self.message@ }
    }
}

impl SearchableMessage {
    pub fn new(author_id: u64, message: String) -> (r: Self)
        ensures
            r@.id == message_id_chars(author_id, message@),
            r@.author_id == author_id,
            r@.message == message@,
    {
        let mut bytes = vstd::bytes::u64_to_le_bytes(author_id);
        let mut body = message.as_str().as_bytes_vec();
        bytes.append(&mut body);
        let id = hex_encode(sha256_digest(bytes.as_slice()).as_slice());
        SearchableMessage { id, author_id, message }
    }

    pub fn author_id(&self) -> (r: u64)
        ensures
            r == self@.author_id,
    {
        self.author_id
    }

    /// The identifier as the hex string it is.
    pub fn id_str(&self) -> (r: &str)
        ensures
            r@ == self@.id,
    {
        self.id.as_str()
    }

    pub fn message(&self) -> (r: &str)
        ensures
            r@ == self@.message,
    {
        self.message.as_str()
    }
}

} // verus!

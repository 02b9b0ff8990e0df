//! Fan-in of ingestion events and the dispatcher's decision per event.
//!
//! Every producer (the local tree watcher, the git synchronizer, the chat
//! front end) appends to one pending-event queue; the ingestion dispatcher
//! owns the sole consuming end and services exactly one event per step, so
//! writes against the search backend are fully serialized and never race.

use vstd::prelude::*;

use crate::document::{InvalidatedSearchableDocument, SearchableDocument, SearchableDocumentId};
use crate::message::SearchableMessage;

verus! {

/// One unit of work for the ingestion dispatcher.
#[derive(Debug, Clone)]
pub enum IngestEvent {
    /// A document found or changed under a watched local tree.
    NewDocument(SearchableDocument),
    /// A document re-extracted by the git synchronizer.
    NewGitHubDocument(SearchableDocument),
    /// A document disappeared from its tree.
    InvalidatedDocument(InvalidatedSearchableDocument),
    /// A chat message from a tracked author.
    NewMessage(SearchableMessage),
    /// An author revoked tracking of their messages.
    InvalidatedAuthor(u64),
}

/// The pending ingestion events, oldest first.
pub struct EventQueue {
    events: Vec<IngestEvent>,
}

impl View for EventQueue {
    type V = Seq<IngestEvent>;

    closed spec fn view(&self) -> Seq<IngestEvent> {
        self.events@
    }
}

impl EventQueue {
    pub fn new() -> (r: Self)
        ensures
            r@ == Seq::<IngestEvent>::empty(),
    {
        EventQueue { events: Vec::new() }
    }

    pub fn len(&self) -> (r: usize)
        ensures
            r == self@.len(),
    {
        self.events.len()
    }

    fn push(&mut self, event: IngestEvent)
        ensures
            final(self)@ == old(self)@.push(event),
    {
        self.events.push(event);
    }

    /// Take the oldest pending event, if any.
    pub fn pop_front(&mut self) -> (r: Option<IngestEvent>)
        ensures
            old(self)@.len() == 0 ==> r is None && final(self)@ == old(self)@,
            old(self)@.len() > 0 ==> r == Option::Some(old(self)@[0]) && final(self)@ == old(
                self,
            )@.drop_first(),
    {
        if self.events.len() == 0 {
            Option::None
        } else {
            let e = self.events.remove(0);
            proof {
                assert(self.events@ =~= old(self)@.drop_first());
            }
            Option::Some(e)
        }
    }
}

/// Queue a create/replace for a document from a watched local tree.
pub fn send_new_searchable_document(queue: &mut EventQueue, doc: SearchableDocument)
    ensures
        final(queue)@ == old(queue)@.push(IngestEvent::NewDocument(doc)),
{
    queue.push(IngestEvent::NewDocument(doc));
}

/// Queue a create/replace for a document re-extracted from a git repository.
pub fn send_new_searchable_github_document(queue: &mut EventQueue, doc: SearchableDocument)
    ensures
        final(queue)@ == old(queue)@.push(IngestEvent::NewGitHubDocument(doc)),
{
    queue.push(IngestEvent::NewGitHubDocument(doc));
}

/// Queue a create for a chat message.
pub fn send_new_searchable_message(queue: &mut EventQueue, msg: SearchableMessage)
    ensures
        final(queue)@ == old(queue)@.push(IngestEvent::NewMessage(msg)),
{
    queue.push(IngestEvent::NewMessage(msg));
}

/// Queue a deletion for a document that disappeared.
pub fn invalidate_searchable_document(queue: &mut EventQueue, id: SearchableDocumentId)
    ensures
        final(queue)@ == old(queue)@.push(
            IngestEvent::InvalidatedDocument(InvalidatedSearchableDocument(id)),
        ),
{
    queue.push(IngestEvent::InvalidatedDocument(InvalidatedSearchableDocument(id)));
}

/// Queue a bulk deletion of one author's messages.
pub fn invalidate_message_author_id(queue: &mut EventQueue, id: u64)
    ensures
        final(queue)@ == old(queue)@.push(IngestEvent::InvalidatedAuthor(id)),
{
    queue.push(IngestEvent::InvalidatedAuthor(id));
}

/// One write against the search backend. Each variant names its index:
/// documents and git documents live in separate indexes, messages in a
/// third.
#[derive(Debug, Clone)]
pub enum BackendOp {
    UpsertDocument { document: SearchableDocument },
    UpsertGitHubDocument { document: SearchableDocument },
    DeleteDocument { id: SearchableDocumentId },
    UpsertMessage { message: SearchableMessage },
    DeleteAuthorMessages { author_id: u64 },
}

/// The dispatcher's decision: the single backend write an event calls for.
pub open spec fn spec_operation_for(event: IngestEvent) -> BackendOp {
    match event {
        IngestEvent::NewDocument(d) => BackendOp::UpsertDocument { document: d },
        IngestEvent::NewGitHubDocument(d) => BackendOp::UpsertGitHubDocument { document: d },
        IngestEvent::InvalidatedDocument(inv) => BackendOp::DeleteDocument { id: inv.0 },
        IngestEvent::NewMessage(m) => BackendOp::UpsertMessage { message: m },
        IngestEvent::InvalidatedAuthor(a) => BackendOp::DeleteAuthorMessages { author_id: a },
    }
}

/// Map one pending event to the backend write it calls for.
pub fn operation_for(event: IngestEvent) -> (r: BackendOp)
    ensures
        r == spec_operation_for(event),
{
    match event {
        IngestEvent::NewDocument(d) => BackendOp::UpsertDocument { document: d },
        IngestEvent::NewGitHubDocument(d) => BackendOp::UpsertGitHubDocument { document: d },
        IngestEvent::InvalidatedDocument(inv) => BackendOp::DeleteDocument { id: inv.0 },
        IngestEvent::NewMessage(m) => BackendOp::UpsertMessage { message: m },
        IngestEvent::InvalidatedAuthor(a) => BackendOp::DeleteAuthorMessages { author_id: a },
    }
}

} // verus!

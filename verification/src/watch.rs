//! The local tree watcher's decisions: what a filesystem notification means,
//! and how a file turns into an ingestion event.
//!
//! The walking and the change subscription are the caller's edge; what is
//! decided here is the classification of each notification and the exact
//! event a file produces — including the invalidation whose identity must
//! equal the one computed when the file was first seen.

use vstd::prelude::*;
use vstd::string::StrSliceExecFns;

use crate::document::{id_chars, DocumentView, SearchableDocument, SearchableDocumentId};
use crate::events::{
    invalidate_searchable_document, send_new_searchable_document, EventQueue, IngestEvent,
};
use crate::extract::{extract_contents, spec_extract};
use crate::root::{encode_root, parent_dir, rel_to_base, under_base, RootView, SearchableRoot};
use crate::strutil::{last_index_of_exec, last_slash, lemma_last_slash_bounds};

verus! {

/// A filesystem notification, as the provider classifies it.
#[derive(Debug, Clone, Copy, PartialEq, Eq, Structural)]
pub enum FsChangeKind {
    Created,
    Modified,
    Removed,
    /// The old path of a rename: the file is gone from here.
    RenamedFrom,
}

/// What the watcher does with one notification.
#[derive(Debug, Clone, Copy, PartialEq, Eq, Structural)]
pub enum WatchDecision {
    /// Re-extract the file and emit a create/replace.
    Reextract,
    /// Emit an invalidation for the old filename and root.
    Invalidate,
    /// Not a file-level change: nothing to do.
    Ignore,
}

pub open spec fn spec_classify_change(kind: FsChangeKind, is_file: bool) -> WatchDecision {
    match kind {
        FsChangeKind::Created | FsChangeKind::Modified => if is_file {
            WatchDecision::Reextract
        } else {
            WatchDecision::Ignore
        },
        FsChangeKind::Removed | FsChangeKind::RenamedFrom => WatchDecision::Invalidate,
    }
}

/// Classify one change notification: create- and modify-class events on a
/// file are re-extracted, removals and renames-away invalidate the old
/// identity, and anything not file-level is ignored.
pub fn classify_change(kind: FsChangeKind, is_file: bool) -> (r: WatchDecision)
    ensures
        r == spec_classify_change(kind, is_file),
{
    match kind {
        FsChangeKind::Created | FsChangeKind::Modified => if is_file {
            WatchDecision::Reextract
        } else {
            WatchDecision::Ignore
        },
        FsChangeKind::Removed | FsChangeKind::RenamedFrom => WatchDecision::Invalidate,
    }
}

/// The filename part of a path: everything after its last slash.
pub open spec fn file_name_of(path: Seq<char>) -> Seq<char> {
    path.skip(last_slash(path) + 1)
}

/// The provenance of a file under the watched base directory.
pub open spec fn local_file_root(path: Seq<char>, base: Seq<char>) -> RootView {
    RootView::Files { folder_path: rel_to_base(parent_dir(path), base) }
}

/// The identity a file under the watched base carries, however often it is
/// re-scanned.
pub open spec fn local_document_id(path: Seq<char>, base: Seq<char>) -> Seq<char> {
    id_chars(encode_root(local_file_root(path, base)), file_name_of(path))
}

/// One file from the watched tree: extract it and, when text came out,
/// queue a create/replace for it. `path` and `base` are canonical
/// `/`-separated path strings, resolved by the caller's edge; `pdf_text` is
/// the caller's PDF decode of the bytes, consulted only for the PDF class
/// (see `extract_contents`).
pub fn feed_file(
    queue: &mut EventQueue,
    path: &str,
    base: &str,
    bytes: &[u8],
    pdf_text: Option<String>,
) -> (fed: bool)
    requires
        last_slash(path@) >= 0,
        under_base(parent_dir(path@), base@),
    ensures
        fed == (spec_extract(file_name_of(path@), bytes@, pdf_text.deep_view()) is Some),
        !fed ==> final(queue)@ == old(queue)@,
        fed ==> final(queue)@.len() == old(queue)@.len() + 1 && final(queue)@.subrange(
            0,
            old(queue)@.len() as int,
        ) == old(queue)@ && (final(queue)@.last() matches IngestEvent::NewDocument(d) && d@ == (
        DocumentView {
            id: local_document_id(path@, base@),
            filename: file_name_of(path@),
            contents: spec_extract(file_name_of(path@), bytes@, pdf_text.deep_view())->0,
            root: encode_root(local_file_root(path@, base@)),
        }) && d.wf()),
{
    proof {
        lemma_last_slash_bounds(path@);
    }
    let n = path.unicode_len();
    let i = match last_index_of_exec(path, '/') {
        Option::Some(i) => i,
        Option::None => 0,  // unreachable: the requires gives a slash
    };
    let filename = path.substring_char(i + 1, n);
    proof {
        assert(filename@ =~= file_name_of(path@));
    }
    match extract_contents(filename, bytes, pdf_text) {
        Option::Some(contents) => {
            let root = SearchableRoot::new_file(path, base);
            let doc = SearchableDocument::new(filename.to_owned(), root, contents);
            send_new_searchable_document(queue, doc);
            proof {
                assert(queue@.subrange(0, old(queue)@.len() as int) =~= old(queue)@);
            }
            true
        },
        Option::None => false,
    }
}

/// A file disappeared from the watched tree: queue the invalidation for it.
/// The identity is recomputed from filename and root exactly as creation
/// computed it, so the deletion reaches the record the creation wrote.
pub fn invalidate_file(queue: &mut EventQueue, path: &str, base: &str)
    requires
        last_slash(path@) >= 0,
        under_base(parent_dir(path@), base@),
    ensures
        final(queue)@.len() == old(queue)@.len() + 1,
        final(queue)@.subrange(0, old(queue)@.len() as int) == old(queue)@,
        final(queue)@.last() matches IngestEvent::InvalidatedDocument(inv) && inv.0@
            == local_document_id(path@, base@),
{
    proof {
        lemma_last_slash_bounds(path@);
    }
    let n = path.unicode_len();
    let i = match last_index_of_exec(path, '/') {
        Option::Some(i) => i,
        Option::None => 0,  // unreachable: the requires gives a slash
    };
    let filename = path.substring_char(i + 1, n);
    proof {
        assert(filename@ =~= file_name_of(path@));
    }
    let root = SearchableRoot::new_file(path, base);
    let id = SearchableDocumentId::new(filename, &root);
    invalidate_searchable_document(queue, id);
    proof {
        assert(queue@.subrange(0, old(queue)@.len() as int) =~= old(queue)@);
    }
}

} // verus!

//! Git synchronizer scheduling: a rate-limited, single-flight gate, and the
//! per-file feeding step of a repository sync.
//!
//! The limiter owns the timestamp of the last run. A trigger within the
//! cooldown is a no-op; otherwise the timestamp moves forward at once —
//! before the run completes — so overlapping triggers are prevented
//! entirely rather than serialized. The caller injects the clock, as
//! seconds from any fixed monotonic origin.

use vstd::prelude::*;
use vstd::string::StrSliceExecFns;

use crate::document::{id_chars, DocumentView, SearchableDocument};
use crate::events::{send_new_searchable_github_document, EventQueue, IngestEvent};
use crate::extract::{extract_contents, spec_extract};
use crate::root::{encode_root, parent_dir, rel_to_base, under_base, RootView, SearchableRoot};
use crate::strutil::{last_index_of_exec, last_slash, lemma_last_slash_bounds};
use crate::watch::file_name_of;

verus! {

/// Cooldown between git synchronizer runs, in seconds.
pub const GIT_SYNC_COOLDOWN_SECONDS: u64 = 1800;

/// Does a gate that last ran at `last` admit a run at `now`?
pub open spec fn gate_allows(last: Option<u64>, now: u64) -> bool {
    match last {
        Option::None => true,
        Option::Some(t) => now >= t && now - t >= GIT_SYNC_COOLDOWN_SECONDS,
    }
}

/// The single-flight gate around the git synchronizer: the only mutual
/// exclusion the sync path has, shared by everything that may trigger it.
pub struct GitSyncGate {
    last_run: Option<u64>,
}

impl GitSyncGate {
    /// When the last run was admitted, if ever.
    pub closed spec fn last_run_time(self) -> Option<u64> {
        self.last_run
    }

    pub fn new() -> (r: Self)
        ensures
            r.last_run_time() is None,
    {
        GitSyncGate { last_run: Option::None }
    }

    /// Ask to start a synchronizer run at time `now`. Admitted exactly when
    /// no run was ever admitted or the cooldown has elapsed; on admission
    /// the timestamp moves to `now` immediately, blocking overlapping
    /// triggers for a full cooldown.
    pub fn try_trigger(&mut self, now: u64) -> (ran: bool)
        ensures
            ran == gate_allows(old(self).last_run_time(), now),
            ran ==> final(self).last_run_time() == Option::Some(now),
            !ran ==> final(self).last_run_time() == old(self).last_run_time(),
    {
        match self.last_run {
            Option::None => {
                self.last_run = Option::Some(now);
                true
            },
            Option::Some(t) => {
                if now >= t && now - t >= GIT_SYNC_COOLDOWN_SECONDS {
                    self.last_run = Option::Some(now);
                    true
                } else {
                    false
                }
            },
        }
    }
}

/// Single-flight under the cooldown: when a trigger at `t1` starts a run,
/// any further trigger before the cooldown elapses is a no-op, so exactly
/// one synchronizer run results from the pair.
pub proof fn lemma_single_flight(last: Option<u64>, t1: u64, t2: u64)
    requires
        gate_allows(last, t1),
        t1 <= t2,
        t2 - t1 < GIT_SYNC_COOLDOWN_SECONDS,
    ensures
        !gate_allows(Option::Some(t1), t2),
{
}

/// Once the cooldown has elapsed, a trigger runs again.
pub proof fn lemma_rerun_after_cooldown(t1: u64, t2: u64)
    requires
        t1 <= t2,
        t2 - t1 >= GIT_SYNC_COOLDOWN_SECONDS,
    ensures
        gate_allows(Option::Some(t1), t2),
{
}

/// The provenance of a file tracked by a git repository checked out under
/// `base`.
pub open spec fn github_file_root(
    path: Seq<char>,
    base: Seq<char>,
    origin: Seq<char>,
    branch: Seq<char>,
) -> RootView {
    RootView::GitHub { origin, branch, folder_path: rel_to_base(parent_dir(path), base) }
}

/// One file of a pulled repository: extract it and, when text came out,
/// queue a create/replace tagged with the repository's origin and branch.
/// `path` and `base` are canonical `/`-separated path strings; the tracked
/// file list, the pull, and the PDF decode (`pdf_text`, consulted only for
/// the PDF class) happen at the caller's edge.
pub fn feed_git_file(
    queue: &mut EventQueue,
    path: &str,
    base: &str,
    origin: String,
    branch: String,
    bytes: &[u8],
    pdf_text: Option<String>,
) -> (fed: bool)
    requires
        last_slash(path@) >= 0,
        under_base(parent_dir(path@), base@),
    ensures
        fed == (spec_extract(file_name_of(path@), bytes@, pdf_text.deep_view()) is Some),
        !fed ==> final(queue)@ == old(queue)@,
        fed ==> final(queue)@.len() == old(queue)@.len() + 1 && final(queue)@.subrange(
            0,
            old(queue)@.len() as int,
        ) == old(queue)@ && (final(queue)@.last() matches IngestEvent::NewGitHubDocument(d)
            && d@ == (DocumentView {
            id: id_chars(
                encode_root(github_file_root(path@, base@, origin@, branch@)),
                file_name_of(path@),
            ),
            filename: file_name_of(path@),
            contents: spec_extract(file_name_of(path@), bytes@, pdf_text.deep_view())->0,
            root: encode_root(github_file_root(path@, base@, origin@, branch@)),
        }) && d.wf()),
{
    proof {
        lemma_last_slash_bounds(path@);
    }
    let n = path.unicode_len();
    let i = match last_index_of_exec(path, '/') {
        Option::Some(i) => i,
        Option::None => 0,  // unreachable: the requires gives a slash
    };
    let filename = path.substring_char(i + 1, n);
    proof {
        assert(filename@ =~= file_name_of(path@));
    }
    match extract_contents(filename, bytes, pdf_text) {
        Option::Some(contents) => {
            let root = SearchableRoot::new_github_file(path, base, origin, branch);
            let doc = SearchableDocument::new(filename.to_owned(), root, contents);
            send_new_searchable_github_document(queue, doc);
            proof {
                assert(queue@.subrange(0, old(queue)@.len() as int) =~= old(queue)@);
            }
            true
        },
        Option::None => false,
    }
}

} // verus!


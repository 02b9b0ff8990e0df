//! The chat boundary: the opt-in membership list and what each incoming
//! message or opt-out does to the pipeline.
//!
//! Command parsing and the chat transport live at the caller's edge; what
//! is decided here is membership, whether a message is indexed at all, and
//! the author-scoped invalidation an opt-out queues.

use vstd::prelude::*;

use crate::events::{send_new_searchable_message, EventQueue, IngestEvent};
use crate::message::{message_id_chars, MessageView, SearchableMessage};

verus! {

proof fn lemma_take_to_set_step(l: Seq<u64>, i: int)
    requires
        0 <= i < l.len(),
    ensures
        l.take(i + 1).to_set() == l.take(i).to_set().insert(l[i]),
{
    assert forall|x: u64|
        l.take(i + 1).contains(x) implies l.take(i).to_set().insert(l[i]).contains(x) by {
        let w = choose|w: int| 0 <= w < i + 1 && #[trigger] l.take(i + 1)[w] == x;
        if w < i {
            assert(l.take(i)[w] == x);
            assert(l.take(i).contains(x));
        } else {
            assert(x == l[i]);
        }
    }
    assert forall|x: u64|
        l.take(i).to_set().insert(l[i]).contains(x) implies l.take(i + 1).contains(x) by {
        if l.take(i).contains(x) {
            let w = choose|w: int| 0 <= w < i && #[trigger] l.take(i)[w] == x;
            assert(l.take(i + 1)[w] == x);
        } else {
            assert(x == l[i]);
            assert(l.take(i + 1)[i] == x);
        }
    }
    assert(l.take(i + 1).to_set() =~= l.take(i).to_set().insert(l[i]));
}

/// The authors who agreed to have their messages indexed.
pub struct OptInSet {
    ids: Vec<u64>,
}

impl View for OptInSet {
    type V = Set<u64>;

    closed spec fn view(&self) -> Set<u64> {
        self.ids@.to_set()
    }
}

impl OptInSet {
    /// Well-formed: each author appears once, so the persisted list is
    /// canonical.
    pub closed spec fn wf(self) -> bool {
        forall|i: int, j: int| 0 <= i < j < self.ids@.len() ==> self.ids@[i] != self.ids@[j]
    }

    pub fn new() -> (r: Self)
        ensures
            r.wf(),
            r@ == Set::<u64>::empty(),
    {
        let s = OptInSet { ids: Vec::new() };
        proof {
            assert(s@ =~= Set::<u64>::empty());
        }
        s
    }

    /// Rebuild the set from a persisted list of author ids (duplicates
    /// collapse).
    pub fn from_ids(list: &Vec<u64>) -> (r: Self)
        ensures
            r.wf(),
            r@ == list@.to_set(),
    {
        let mut s = OptInSet::new();
        let n = list.len();
        let mut i: usize = 0;
        while i < n
            invariant
                n == list@.len(),
                i <= n,
                s.wf(),
                s@ == list@.take(i as int).to_set(),
            decreases n - i,
        {
            s.insert(list[i]);
            proof {
                lemma_take_to_set_step(list@, i as int);
            }
            i += 1;
        }
        proof {
            assert(list@.take(n as int) =~= list@);
        }
        s
    }

    /// Is this author on the list?
    pub fn contains(&self, id: u64) -> (r: bool)
        ensures
            r == self@.contains(id),
    {
        let n = self.ids.len();
        let mut i: usize = 0;
        while i < n
            invariant
                n == self.ids@.len(),
                i <= n,
                forall|j: int| 0 <= j < i ==> self.ids@[j] != id,
            decreases n - i,
        {
            if self.ids[i] == id {
                return true;
            }
            i += 1;
        }
        proof {
            if self.ids@.contains(id) {
                let w = choose|w: int| 0 <= w < self.ids@.len() && self.ids@[w] == id;
                assert(false);
            }
        }
        false
    }

    /// Add an author; says whether the list changed (and so must be
    /// re-persisted).
    pub fn insert(&mut self, id: u64) -> (added: bool)
        requires
            old(self).wf(),
        ensures
            final(self).wf(),
            final(self)@ == old(self)@.insert(id),
            added == !old(self)@.contains(id),
    {
        if self.contains(id) {
            proof {
                assert(self@ =~= old(self)@.insert(id));
            }
            false
        } else {
            let ghost before = self.ids@;
            self.ids.push(id);
            proof {
                assert forall|x: u64| self.ids@.contains(x) <==> before.contains(x) || x == id by {
                    if self.ids@.contains(x) {
                        let w = choose|w: int|
                            0 <= w < self.ids@.len() && self.ids@[w] == x;
                        if w < before.len() {
                            assert(before[w] == x);
                        }
                    }
                    if before.contains(x) {
                        let w = choose|w: int| 0 <= w < before.len() && before[w] == x;
                        assert(self.ids@[w] == x);
                    }
                    if x == id {
                        assert(self.ids@[self.ids@.len() - 1] == x);
                    }
                }
                assert(self@ =~= old(self)@.insert(id));
                assert forall|a: int, b: int|
                    0 <= a < b < self.ids@.len() implies self.ids@[a] != self.ids@[b] by {
                    if b < before.len() {
                        assert(before[a] != before[b]);
                    } else {
                        assert(self.ids@[b] == id);
                        assert(before[a] == self.ids@[a]);
                        if self.ids@[a] == id {
                            assert(before.contains(id));
                        }
                    }
                }
            }
            true
        }
    }

    /// Remove an author; says whether the list changed.
    pub fn remove(&mut self, id: u64) -> (removed: bool)
        requires
            old(self).wf(),
        ensures
            final(self).wf(),
            final(self)@ == old(self)@.remove(id),
            removed == old(self)@.contains(id),
    {
        let n = self.ids.len();
        let mut i: usize = 0;
        while i < n
            invariant
                old(self).wf(),
                n == old(self).ids@.len(),
                i <= n,
                self.ids@ == old(self).ids@,
                forall|j: int| 0 <= j < i ==> self.ids@[j] != id,
            decreases n - i,
        {
            if self.ids[i] == id {
                let ghost before = self.ids@;
                self.ids.remove(i);
                proof {
                    assert forall|p: int, q: int|
                        0 <= p < q < before.len() implies before[p] != before[q] by {
                        assert(old(self).ids@[p] != old(self).ids@[q]);
                    }
                    assert(before.contains(id)) by {
                        assert(before[i as int] == id);
                    }
                    assert forall|a: int, b: int|
                        0 <= a < b < self.ids@.len() implies self.ids@[a] != self.ids@[b] by {
                        let a0 = if a < i { a } else { a + 1 };
                        let b0 = if b < i { b } else { b + 1 };
                        assert(self.ids@[a] == before[a0]);
                        assert(self.ids@[b] == before[b0]);
                        assert(before[a0] != before[b0]);
                    }
                    assert forall|x: u64|
                        self.ids@.contains(x) <==> before.contains(x) && x != id by {
                        if self.ids@.contains(x) {
                            let w = choose|w: int|
                                0 <= w < self.ids@.len() && self.ids@[w] == x;
                            let w0 = if w < i { w } else { w + 1 };
                            assert(before[w0] == x);
                            assert(before[w0] != before[i as int] || w0 == i);
                        }
                        if before.contains(x) && x != id {
                            let w0 = choose|w0: int| 0 <= w0 < before.len() && before[w0] == x;
                            let w = if w0 < i { w0 } else { w0 - 1 };
                            assert(w0 != i);
                            assert(self.ids@[w] == x);
                        }
                    }
                    assert(self@ =~= old(self)@.remove(id));
                }
                return true;
            }
            i += 1;
        }
        proof {
            if self.ids@.contains(id) {
                let w = choose|w: int| 0 <= w < self.ids@.len() && self.ids@[w] == id;
                assert(false);
            }
            assert(self@ =~= old(self)@.remove(id));
        }
        false
    }

    /// The list as persisted: one entry per opted-in author.
    pub fn id_list(&self) -> (r: &Vec<u64>)
        ensures
            r@.to_set() == self@,
    {
        &self.ids
    }
}

/// Is a message indexed at all? The bot's own messages always are; anyone
/// else's only while they are on the opt-in list.
pub fn should_index_message(is_own: bool, author_id: u64, opt_in: &OptInSet) -> (r: bool)
    ensures
        r == (is_own || opt_in@.contains(author_id)),
{
    is_own || opt_in.contains(author_id)
}

/// One chat message arrives: queue it for indexing exactly when its author
/// is tracked; otherwise nothing happens at all.
pub fn record_chat_message(
    queue: &mut EventQueue,
    opt_in: &OptInSet,
    is_own: bool,
    author_id: u64,
    message: String,
) -> (indexed: bool)
    ensures
        indexed == (is_own || opt_in@.contains(author_id)),
        !indexed ==> final(queue)@ == old(queue)@,
        indexed ==> final(queue)@.len() == old(queue)@.len() + 1 && final(queue)@.subrange(
            0,
            old(queue)@.len() as int,
        ) == old(queue)@ && (final(queue)@.last() matches IngestEvent::NewMessage(m) && m@ == (
        MessageView {
            id: message_id_chars(author_id, message@),
            author_id: author_id,
            message: message@,
        })),
{
    if should_index_message(is_own, author_id, opt_in) {
        let msg = SearchableMessage::new(author_id, message);
        send_new_searchable_message(queue, msg);
        proof {
            assert(queue@.subrange(0, old(queue)@.len() as int) =~= old(queue)@);
        }
        true
    } else {
        false
    }
}

/// An author opts in: add them to the list; the caller re-persists it when
/// the list changed.
pub fn author_opt_in(opt_in: &mut OptInSet, author_id: u64) -> (added: bool)
    requires
        old(opt_in).wf(),
    ensures
        final(opt_in).wf(),
        final(opt_in)@ == old(opt_in)@.insert(author_id),
        added == !old(opt_in)@.contains(author_id),
{
    opt_in.insert(author_id)
}

/// An author opts out: take them off the list and queue the author-scoped
/// invalidation. The invalidation is queued unconditionally — wiping a
/// revoking author's messages must not depend on the list's state.
pub fn author_opt_out(opt_in: &mut OptInSet, queue: &mut EventQueue, author_id: u64) -> (removed:
    bool)
    requires
        old(opt_in).wf(),
    ensures
        final(opt_in).wf(),
        final(opt_in)@ == old(opt_in)@.remove(author_id),
        removed == old(opt_in)@.contains(author_id),
        final(queue)@ == old(queue)@.push(IngestEvent::InvalidatedAuthor(author_id)),
{
    let removed = opt_in.remove(author_id);
    crate::events::invalidate_message_author_id(queue, author_id);
    removed
}

} // verus!

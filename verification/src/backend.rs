//! In-memory model of the search backend's indexes.
//!
//! The backend is an outside service; what the pipeline relies on is only
//! its keyed upsert/delete behaviour. This module states that behaviour as
//! verified data structures: each index is a map from content-addressed
//! identity to the stored record. The dispatcher's effect on the backend is
//! specified against these models, and the idempotence of re-indexing is
//! proved over them.

use vstd::prelude::*;

use crate::document::{id_chars, DocumentView, SearchableDocument, SearchableDocumentId};
use crate::events::{spec_operation_for, BackendOp, EventQueue, operation_for};
use crate::message::{MessageView, SearchableMessage};
use crate::root::{encode_root, RootView};
use crate::strutil::str_eq;

verus! {

/// The map a document sequence represents, keyed by identity: later entries
/// win.
pub open spec fn doc_map_of(s: Seq<SearchableDocument>) -> Map<Seq<char>, DocumentView>
    decreases s.len(),
{
    if s.len() == 0 {
        Map::empty()
    } else {
        doc_map_of(s.drop_last()).insert(s.last()@.id, s.last()@)
    }
}

/// No two entries share an identity.
pub open spec fn doc_ids_unique(s: Seq<SearchableDocument>) -> bool {
    forall|i: int, j: int| 0 <= i < j < s.len() ==> s[i]@.id != s[j]@.id
}

proof fn lemma_doc_map_absent(s: Seq<SearchableDocument>, k: Seq<char>)
    requires
        forall|i: int| 0 <= i < s.len() ==> s[i]@.id != k,
    ensures
        !doc_map_of(s).dom().contains(k),
    decreases s.len(),
{
    if s.len() > 0 {
        assert(s[s.len() - 1]@.id != k);
        assert forall|i: int| 0 <= i < s.drop_last().len() implies s.drop_last()[i]@.id != k by {
            assert(s[i]@.id != k);
        }
        lemma_doc_map_absent(s.drop_last(), k);
    }
}

proof fn lemma_doc_map_index(s: Seq<SearchableDocument>, i: int)
    requires
        doc_ids_unique(s),
        0 <= i < s.len(),
    ensures
        doc_map_of(s).dom().contains(s[i]@.id),
        doc_map_of(s)[s[i]@.id] == s[i]@,
    decreases s.len(),
{
    if i == s.len() - 1 {
    } else {
        assert forall|a: int, b: int| 0 <= a < b < s.drop_last().len() implies s.drop_last()[a]@.id
            != s.drop_last()[b]@.id by {
            assert(s[a]@.id != s[b]@.id);
        }
        lemma_doc_map_index(s.drop_last(), i);
        assert(s[i]@.id != s[s.len() - 1]@.id);
    }
}

proof fn lemma_doc_map_finite(s: Seq<SearchableDocument>)
    ensures
        doc_map_of(s).dom().finite(),
    decreases s.len(),
{
    if s.len() > 0 {
        lemma_doc_map_finite(s.drop_last());
    }
}

proof fn lemma_doc_map_len(s: Seq<SearchableDocument>)
    requires
        doc_ids_unique(s),
    ensures
        doc_map_of(s).dom().finite(),
        doc_map_of(s).dom().len() == s.len(),
    decreases s.len(),
{
    lemma_doc_map_finite(s);
    if s.len() > 0 {
        assert forall|a: int, b: int| 0 <= a < b < s.drop_last().len() implies s.drop_last()[a]@.id
            != s.drop_last()[b]@.id by {
            assert(s[a]@.id != s[b]@.id);
        }
        lemma_doc_map_len(s.drop_last());
        assert forall|i: int| 0 <= i < s.drop_last().len() implies s.drop_last()[i]@.id != s.last()@.id by {
            assert(s[i]@.id != s[s.len() - 1]@.id);
        }
        lemma_doc_map_absent(s.drop_last(), s.last()@.id);
        assert(doc_map_of(s).dom() =~= doc_map_of(s.drop_last()).dom().insert(s.last()@.id));
    }
}

proof fn lemma_doc_map_remove_at(s: Seq<SearchableDocument>, i: int)
    requires
        doc_ids_unique(s),
        0 <= i < s.len(),
    ensures
        doc_map_of(s.remove(i)) == doc_map_of(s).remove(s[i]@.id),
    decreases s.len(),
{
    let k = s[i]@.id;
    assert forall|a: int, b: int| 0 <= a < b < s.drop_last().len() implies s.drop_last()[a]@.id
        != s.drop_last()[b]@.id by {
        assert(s[a]@.id != s[b]@.id);
    }
    if i == s.len() - 1 {
        assert(s.remove(i) =~= s.drop_last());
        assert forall|j: int| 0 <= j < s.drop_last().len() implies s.drop_last()[j]@.id != k by {
            assert(s[j]@.id != s[i]@.id);
        }
        lemma_doc_map_absent(s.drop_last(), k);
        assert(doc_map_of(s).remove(k) =~= doc_map_of(s.drop_last()));
    } else {
        assert(s.remove(i).drop_last() =~= s.drop_last().remove(i));
        assert(s.remove(i).last() == s.last());
        assert(s.drop_last()[i] == s[i]);
        lemma_doc_map_remove_at(s.drop_last(), i);
        assert(s[i]@.id != s[s.len() - 1]@.id);
        assert(doc_map_of(s.remove(i)) =~= doc_map_of(s).remove(k));
    }
}

/// One backend document index: records keyed by their content-addressed
/// identity.
pub struct DocumentIndexModel {
    entries: Vec<SearchableDocument>,
}

impl View for DocumentIndexModel {
    type V = Map<Seq<char>, DocumentView>;

    closed spec fn view(&self) -> Map<Seq<char>, DocumentView> {
        doc_map_of(self.entries@)
    }
}

impl DocumentIndexModel {
    /// Well-formed: identities are unique, as a keyed store keeps them.
    pub closed spec fn wf(self) -> bool {
        doc_ids_unique(self.entries@)
    }

    pub fn new() -> (r: Self)
        ensures
            r@ == Map::<Seq<char>, DocumentView>::empty(),
            r.wf(),
    {
        DocumentIndexModel { entries: Vec::new() }
    }

    /// How many records the index holds.
    pub fn len(&self) -> (r: usize)
        requires
            self.wf(),
        ensures
            r == self@.dom().len(),
    {
        proof {
            lemma_doc_map_len(self.entries@);
        }
        self.entries.len()
    }

    fn find_index(&self, id: &SearchableDocumentId) -> (r: Option<usize>)
        ensures
            match r {
                Some(i) => i < self.entries@.len() && self.entries@[i as int]@.id == id@,
                None => forall|j: int| 0 <= j < self.entries@.len() ==> self.entries@[j]@.id != id@,
            },
    {
        let n = self.entries.len();
        let mut i: usize = 0;
        while i < n
            invariant
                n == self.entries@.len(),
                i <= n,
                forall|j: int| 0 <= j < i ==> self.entries@[j]@.id != id@,
            decreases n - i,
        {
            if str_eq(self.entries[i].id().as_str(), id.as_str()) {
                return Option::Some(i);
            }
            i += 1;
        }
        Option::None
    }

    /// Remove whatever record carries this identity.
    fn remove_entry(&mut self, id: &SearchableDocumentId)
        requires
            old(self).wf(),
        ensures
            final(self).wf(),
            doc_map_of(final(self).entries@) == doc_map_of(old(self).entries@).remove(id@),
            forall|j: int|
                0 <= j < final(self).entries@.len() ==> final(self).entries@[j]@.id != id@,
    {
        match self.find_index(id) {
            Option::Some(i) => {
                proof {
                    lemma_doc_map_remove_at(self.entries@, i as int);
                }
                let ghost before = self.entries@;
                self.entries.remove(i);
                proof {
                    assert forall|a: int, b: int|
                        0 <= a < b < self.entries@.len() implies self.entries@[a]@.id
                        != self.entries@[b]@.id by {
                        let a0 = if a < i { a } else { a + 1 };
                        let b0 = if b < i { b } else { b + 1 };
                        assert(self.entries@[a] == before[a0]);
                        assert(self.entries@[b] == before[b0]);
                        assert(before[a0]@.id != before[b0]@.id);
                    }
                    assert forall|j: int| 0 <= j < self.entries@.len() implies self.entries@[j]@.id
                        != id@ by {
                        let j0 = if j < i { j } else { j + 1 };
                        assert(self.entries@[j] == before[j0]);
                        if j0 != i {
                            assert(before[j0]@.id != before[i as int]@.id);
                        }
                    }
                }
            },
            Option::None => {
                proof {
                    lemma_doc_map_absent(self.entries@, id@);
                    assert(doc_map_of(self.entries@).remove(id@) =~= doc_map_of(self.entries@));
                }
            },
        }
    }

    /// Insert-or-replace, keyed by the document's identity.
    pub fn upsert(&mut self, doc: SearchableDocument)
        requires
            old(self).wf(),
        ensures
            final(self).wf(),
            final(self)@ == old(self)@.insert(doc@.id, doc@),
    {
        self.remove_entry(doc.id());
        let ghost cleaned = self.entries@;
        self.entries.push(doc);
        proof {
            assert(self.entries@.drop_last() =~= cleaned);
            assert(self.entries@.last() == doc);
            assert(doc_map_of(self.entries@) == doc_map_of(cleaned).insert(doc@.id, doc@));
            assert(doc_map_of(self.entries@) =~= old(self)@.insert(doc@.id, doc@));
            assert forall|a: int, b: int|
                0 <= a < b < self.entries@.len() implies self.entries@[a]@.id
                != self.entries@[b]@.id by {
                if b == self.entries@.len() - 1 {
                    assert(self.entries@[a] == cleaned[a]);
                } else {
                    assert(self.entries@[a] == cleaned[a]);
                    assert(self.entries@[b] == cleaned[b]);
                }
            }
        }
    }

    /// Delete by identity; absent identities are a no-op.
    pub fn delete(&mut self, id: &SearchableDocumentId)
        requires
            old(self).wf(),
        ensures
            final(self).wf(),
            final(self)@ == old(self)@.remove(id@),
    {
        self.remove_entry(id);
    }

    /// Drop every record: the full-index reset before a git re-sync.
    pub fn clear(&mut self)
        ensures
            final(self).wf(),
            final(self)@ == Map::<Seq<char>, DocumentView>::empty(),
    {
        self.entries.clear();
    }

    /// The record stored under an identity, if any.
    pub fn get(&self, id: &SearchableDocumentId) -> (r: Option<&SearchableDocument>)
        requires
            self.wf(),
        ensures
            match r {
                Some(d) => self@.dom().contains(id@) && d@ == self@[id@],
                None => !self@.dom().contains(id@),
            },
    {
        match self.find_index(id) {
            Option::Some(i) => {
                proof {
                    lemma_doc_map_index(self.entries@, i as int);
                }
                Option::Some(&self.entries[i])
            },
            Option::None => {
                proof {
                    lemma_doc_map_absent(self.entries@, id@);
                }
                Option::None
            },
        }
    }

    /// Is a record stored under this identity?
    pub fn contains(&self, id: &SearchableDocumentId) -> (r: bool)
        requires
            self.wf(),
        ensures
            r == self@.dom().contains(id@),
    {
        match self.get(id) {
            Option::Some(_) => true,
            Option::None => false,
        }
    }
}

/// The map a message sequence represents, keyed by identity: later entries
/// win.
pub open spec fn msg_map_of(s: Seq<SearchableMessage>) -> Map<Seq<char>, MessageView>
    decreases s.len(),
{
    if s.len() == 0 {
        Map::empty()
    } else {
        msg_map_of(s.drop_last()).insert(s.last()@.id, s.last()@)
    }
}

/// No two entries share an identity.
pub open spec fn msg_ids_unique(s: Seq<SearchableMessage>) -> bool {
    forall|i: int, j: int| 0 <= i < j < s.len() ==> s[i]@.id != s[j]@.id
}

/// The author-scoped bulk deletion, at the map level: every record of this
/// author gone, everything else untouched.
pub open spec fn remove_author_from(m: Map<Seq<char>, MessageView>, author: u64) -> Map<
    Seq<char>,
    MessageView,
> {
    Map::new(|k: Seq<char>| m.dom().contains(k) && m[k].author_id != author, |k: Seq<char>| m[k])
}

proof fn lemma_msg_map_absent(s: Seq<SearchableMessage>, k: Seq<char>)
    requires
        forall|i: int| 0 <= i < s.len() ==> s[i]@.id != k,
    ensures
        !msg_map_of(s).dom().contains(k),
    decreases s.len(),
{
    if s.len() > 0 {
        assert(s[s.len() - 1]@.id != k);
        assert forall|i: int| 0 <= i < s.drop_last().len() implies s.drop_last()[i]@.id != k by {
            assert(s[i]@.id != k);
        }
        lemma_msg_map_absent(s.drop_last(), k);
    }
}

proof fn lemma_msg_map_index(s: Seq<SearchableMessage>, i: int)
    requires
        msg_ids_unique(s),
        0 <= i < s.len(),
    ensures
        msg_map_of(s).dom().contains(s[i]@.id),
        msg_map_of(s)[s[i]@.id] == s[i]@,
    decreases s.len(),
{
    if i == s.len() - 1 {
    } else {
        assert forall|a: int, b: int| 0 <= a < b < s.drop_last().len() implies s.drop_last()[a]@.id
            != s.drop_last()[b]@.id by {
            assert(s[a]@.id != s[b]@.id);
        }
        lemma_msg_map_index(s.drop_last(), i);
        assert(s[i]@.id != s[s.len() - 1]@.id);
    }
}

proof fn lemma_msg_map_finite(s: Seq<SearchableMessage>)
    ensures
        msg_map_of(s).dom().finite(),
    decreases s.len(),
{
    if s.len() > 0 {
        lemma_msg_map_finite(s.drop_last());
    }
}

proof fn lemma_msg_map_len(s: Seq<SearchableMessage>)
    requires
        msg_ids_unique(s),
    ensures
        msg_map_of(s).dom().finite(),
        msg_map_of(s).dom().len() == s.len(),
    decreases s.len(),
{
    lemma_msg_map_finite(s);
    if s.len() > 0 {
        assert forall|a: int, b: int| 0 <= a < b < s.drop_last().len() implies s.drop_last()[a]@.id
            != s.drop_last()[b]@.id by {
            assert(s[a]@.id != s[b]@.id);
        }
        lemma_msg_map_len(s.drop_last());
        assert forall|i: int| 0 <= i < s.drop_last().len() implies s.drop_last()[i]@.id
            != s.last()@.id by {
            assert(s[i]@.id != s[s.len() - 1]@.id);
        }
        lemma_msg_map_absent(s.drop_last(), s.last()@.id);
        assert(msg_map_of(s).dom() =~= msg_map_of(s.drop_last()).dom().insert(s.last()@.id));
    }
}

proof fn lemma_msg_map_remove_at(s: Seq<SearchableMessage>, i: int)
    requires
        msg_ids_unique(s),
        0 <= i < s.len(),
    ensures
        msg_map_of(s.remove(i)) == msg_map_of(s).remove(s[i]@.id),
    decreases s.len(),
{
    let k = s[i]@.id;
    assert forall|a: int, b: int| 0 <= a < b < s.drop_last().len() implies s.drop_last()[a]@.id
        != s.drop_last()[b]@.id by {
        assert(s[a]@.id != s[b]@.id);
    }
    if i == s.len() - 1 {
        assert(s.remove(i) =~= s.drop_last());
        assert forall|j: int| 0 <= j < s.drop_last().len() implies s.drop_last()[j]@.id != k by {
            assert(s[j]@.id != s[i]@.id);
        }
        lemma_msg_map_absent(s.drop_last(), k);
        assert(msg_map_of(s).remove(k) =~= msg_map_of(s.drop_last()));
    } else {
        assert(s.remove(i).drop_last() =~= s.drop_last().remove(i));
        assert(s.remove(i).last() == s.last());
        assert(s.drop_last()[i] == s[i]);
        lemma_msg_map_remove_at(s.drop_last(), i);
        assert(s[i]@.id != s[s.len() - 1]@.id);
        assert(msg_map_of(s.remove(i)) =~= msg_map_of(s).remove(k));
    }
}

/// The backend message index: records keyed by their content-addressed
/// identity.
pub struct MessageIndexModel {
    entries: Vec<SearchableMessage>,
}

impl View for MessageIndexModel {
    type V = Map<Seq<char>, MessageView>;

    closed spec fn view(&self) -> Map<Seq<char>, MessageView> {
        msg_map_of(self.entries@)
    }
}

impl MessageIndexModel {
    /// Well-formed: identities are unique, as a keyed store keeps them.
    pub closed spec fn wf(self) -> bool {
        msg_ids_unique(self.entries@)
    }

    pub fn new() -> (r: Self)
        ensures
            r@ == Map::<Seq<char>, MessageView>::empty(),
            r.wf(),
    {
        MessageIndexModel { entries: Vec::new() }
    }

    /// How many records the index holds.
    pub fn len(&self) -> (r: usize)
        requires
            self.wf(),
        ensures
            r == self@.dom().len(),
    {
        proof {
            lemma_msg_map_len(self.entries@);
        }
        self.entries.len()
    }

    fn find_index(&self, id_str: &str) -> (r: Option<usize>)
        ensures
            match r {
                Some(i) => i < self.entries@.len() && self.entries@[i as int]@.id == id_str@,
                None => forall|j: int|
                    0 <= j < self.entries@.len() ==> self.entries@[j]@.id != id_str@,
            },
    {
        let n = self.entries.len();
        let mut i: usize = 0;
        while i < n
            invariant
                n == self.entries@.len(),
                i <= n,
                forall|j: int| 0 <= j < i ==> self.entries@[j]@.id != id_str@,
            decreases n - i,
        {
            if str_eq(self.entries[i].id_str(), id_str) {
                return Option::Some(i);
            }
            i += 1;
        }
        Option::None
    }

    fn find_author_index(&self, author: u64) -> (r: Option<usize>)
        ensures
            match r {
                Some(i) => i < self.entries@.len() && self.entries@[i as int]@.author_id == author,
                None => forall|j: int|
                    0 <= j < self.entries@.len() ==> self.entries@[j]@.author_id != author,
            },
    {
        let n = self.entries.len();
        let mut i: usize = 0;
        while i < n
            invariant
                n == self.entries@.len(),
                i <= n,
                forall|j: int| 0 <= j < i ==> self.entries@[j]@.author_id != author,
            decreases n - i,
        {
            if self.entries[i].author_id() == author {
                return Option::Some(i);
            }
            i += 1;
        }
        Option::None
    }

    fn remove_at(&mut self, i: usize)
        requires
            msg_ids_unique(old(self).entries@),
            i < old(self).entries@.len(),
        ensures
            msg_ids_unique(final(self).entries@),
            final(self).entries@ == old(self).entries@.remove(i as int),
            msg_map_of(final(self).entries@) == msg_map_of(old(self).entries@).remove(
                old(self).entries@[i as int]@.id,
            ),
    {
        proof {
            lemma_msg_map_remove_at(self.entries@, i as int);
        }
        let ghost before = self.entries@;
        self.entries.remove(i);
        proof {
            assert forall|a: int, b: int|
                0 <= a < b < self.entries@.len() implies self.entries@[a]@.id
                != self.entries@[b]@.id by {
                let a0 = if a < i { a } else { a + 1 };
                let b0 = if b < i { b } else { b + 1 };
                assert(self.entries@[a] == before[a0]);
                assert(self.entries@[b] == before[b0]);
                assert(before[a0]@.id != before[b0]@.id);
            }
        }
    }

    /// Insert-or-replace, keyed by the message's identity.
    pub fn upsert(&mut self, msg: SearchableMessage)
        requires
            old(self).wf(),
        ensures
            final(self).wf(),
            final(self)@ == old(self)@.insert(msg@.id, msg@),
    {
        match self.find_index(msg.id_str()) {
            Option::Some(i) => {
                self.remove_at(i);
                proof {
                    let ghost before = old(self).entries@;
                    assert forall|j: int|
                        0 <= j < self.entries@.len() implies self.entries@[j]@.id != msg@.id by {
                        let j0 = if j < i { j } else { j + 1 };
                        assert(self.entries@[j] == before[j0]);
                        if j0 != i {
                            assert(before[j0]@.id != before[i as int]@.id);
                        }
                    }
                }
            },
            Option::None => {
                proof {
                    lemma_msg_map_absent(self.entries@, msg@.id);
                    assert(msg_map_of(self.entries@).remove(msg@.id) =~= msg_map_of(
                        self.entries@,
                    ));
                }
            },
        }
        let ghost cleaned = self.entries@;
        proof {
            lemma_msg_map_absent(cleaned, msg@.id);
        }
        self.entries.push(msg);
        proof {
            assert(self.entries@.drop_last() =~= cleaned);
            assert(self.entries@.last() == msg);
            assert(msg_map_of(self.entries@) =~= old(self)@.insert(msg@.id, msg@));
            assert forall|a: int, b: int|
                0 <= a < b < self.entries@.len() implies self.entries@[a]@.id
                != self.entries@[b]@.id by {
                if b == self.entries@.len() - 1 {
                    assert(self.entries@[a] == cleaned[a]);
                } else {
                    assert(self.entries@[a] == cleaned[a]);
                    assert(self.entries@[b] == cleaned[b]);
                }
            }
        }
    }

    /// Delete every message of one author; other authors' records are
    /// untouched.
    pub fn delete_by_author(&mut self, author: u64)
        requires
            old(self).wf(),
        ensures
            final(self).wf(),
            final(self)@ == remove_author_from(old(self)@, author),
    {
        loop
            invariant
                msg_ids_unique(self.entries@),
                forall|k: Seq<char>| #[trigger]
                    msg_map_of(self.entries@).dom().contains(k) ==> msg_map_of(
                        old(self).entries@,
                    ).dom().contains(k) && msg_map_of(self.entries@)[k] == msg_map_of(
                        old(self).entries@,
                    )[k],
                forall|k: Seq<char>| #[trigger]
                    msg_map_of(old(self).entries@).dom().contains(k) && msg_map_of(
                        old(self).entries@,
                    )[k].author_id != author ==> msg_map_of(self.entries@).dom().contains(k),
            ensures
                msg_ids_unique(self.entries@),
                forall|k: Seq<char>| #[trigger]
                    msg_map_of(self.entries@).dom().contains(k) ==> msg_map_of(
                        old(self).entries@,
                    ).dom().contains(k) && msg_map_of(self.entries@)[k] == msg_map_of(
                        old(self).entries@,
                    )[k],
                forall|k: Seq<char>| #[trigger]
                    msg_map_of(old(self).entries@).dom().contains(k) && msg_map_of(
                        old(self).entries@,
                    )[k].author_id != author ==> msg_map_of(self.entries@).dom().contains(k),
                forall|j: int|
                    0 <= j < self.entries@.len() ==> self.entries@[j]@.author_id != author,
            decreases self.entries@.len(),
        {
            match self.find_author_index(author) {
                Option::None => {
                    break ;
                },
                Option::Some(i) => {
                    let ghost before = self.entries@;
                    let ghost k = self.entries@[i as int]@.id;
                    proof {
                        lemma_msg_map_index(before, i as int);
                    }
                    self.remove_at(i);
                },
            }
        }
        proof {
            assert forall|k: Seq<char>|
                msg_map_of(self.entries@).dom().contains(k) implies msg_map_of(
                self.entries@,
            )[k].author_id != author by {
                if forall|i: int| 0 <= i < self.entries@.len() ==> self.entries@[i]@.id != k {
                    lemma_msg_map_absent(self.entries@, k);
                } else {
                    let i = choose|i: int|
                        0 <= i < self.entries@.len() && self.entries@[i]@.id == k;
                    lemma_msg_map_index(self.entries@, i);
                }
            }
            assert(msg_map_of(self.entries@) =~= remove_author_from(
                msg_map_of(old(self).entries@),
                author,
            ));
        }
    }

    /// The record stored under an identity, if any.
    pub fn get(&self, id_str: &str) -> (r: Option<&SearchableMessage>)
        requires
            self.wf(),
        ensures
            match r {
                Some(m) => self@.dom().contains(id_str@) && m@ == self@[id_str@],
                None => !self@.dom().contains(id_str@),
            },
    {
        match self.find_index(id_str) {
            Option::Some(i) => {
                proof {
                    lemma_msg_map_index(self.entries@, i as int);
                }
                Option::Some(&self.entries[i])
            },
            Option::None => {
                proof {
                    lemma_msg_map_absent(self.entries@, id_str@);
                }
                Option::None
            },
        }
    }

    /// Is a record stored under this identity?
    pub fn contains(&self, id_str: &str) -> (r: bool)
        requires
            self.wf(),
        ensures
            r == self@.dom().contains(id_str@),
    {
        match self.get(id_str) {
            Option::Some(_) => true,
            Option::None => false,
        }
    }
}

/// The backend as the dispatcher sees it: two document indexes (local trees
/// and git repositories) and the message index.
pub struct SearchBackendModel {
    pub documents: DocumentIndexModel,
    pub github_documents: DocumentIndexModel,
    pub messages: MessageIndexModel,
}

/// What one backend write does: the addressed index changes as the keyed
/// operation says, the other two stay untouched.
pub open spec fn spec_apply(pre: SearchBackendModel, post: SearchBackendModel, op: BackendOp) -> bool {
    match op {
        BackendOp::UpsertDocument { document } => {
            &&& post.documents@ == pre.documents@.insert(document@.id, document@)
            &&& post.github_documents@ == pre.github_documents@
            &&& post.messages@ == pre.messages@
        },
        BackendOp::UpsertGitHubDocument { document } => {
            &&& post.documents@ == pre.documents@
            &&& post.github_documents@ == pre.github_documents@.insert(document@.id, document@)
            &&& post.messages@ == pre.messages@
        },
        BackendOp::DeleteDocument { id } => {
            &&& post.documents@ == pre.documents@.remove(id@)
            &&& post.github_documents@ == pre.github_documents@
            &&& post.messages@ == pre.messages@
        },
        BackendOp::UpsertMessage { message } => {
            &&& post.documents@ == pre.documents@
            &&& post.github_documents@ == pre.github_documents@
            &&& post.messages@ == pre.messages@.insert(message@.id, message@)
        },
        BackendOp::DeleteAuthorMessages { author_id } => {
            &&& post.documents@ == pre.documents@
            &&& post.github_documents@ == pre.github_documents@
            &&& post.messages@ == remove_author_from(pre.messages@, author_id)
        },
    }
}

impl SearchBackendModel {
    pub open spec fn wf(self) -> bool {
        self.documents.wf() && self.github_documents.wf() && self.messages.wf()
    }

    pub fn new() -> (r: Self)
        ensures
            r.wf(),
            r.documents@ == Map::<Seq<char>, DocumentView>::empty(),
            r.github_documents@ == Map::<Seq<char>, DocumentView>::empty(),
            r.messages@ == Map::<Seq<char>, MessageView>::empty(),
    {
        SearchBackendModel {
            documents: DocumentIndexModel::new(),
            github_documents: DocumentIndexModel::new(),
            messages: MessageIndexModel::new(),
        }
    }

    /// Perform one backend write.
    pub fn apply(&mut self, op: BackendOp)
        requires
            old(self).wf(),
        ensures
            final(self).wf(),
            spec_apply(*old(self), *final(self), op),
    {
        match op {
            BackendOp::UpsertDocument { document } => self.documents.upsert(document),
            BackendOp::UpsertGitHubDocument { document } => self.github_documents.upsert(document),
            BackendOp::DeleteDocument { id } => self.documents.delete(&id),
            BackendOp::UpsertMessage { message } => self.messages.upsert(message),
            BackendOp::DeleteAuthorMessages { author_id } => self.messages.delete_by_author(
                author_id,
            ),
        }
    }
}

/// Service exactly one pending event: the body of the dispatcher's loop.
/// Events are consumed oldest first and their writes applied one at a time,
/// so backend writes are strictly ordered by arrival and never concurrent.
pub fn service_one(queue: &mut EventQueue, backend: &mut SearchBackendModel) -> (serviced: bool)
    requires
        old(backend).wf(),
    ensures
        final(backend).wf(),
        old(queue)@.len() == 0 ==> !serviced && final(queue)@ == old(queue)@ && *final(backend)
            == *old(backend),
        old(queue)@.len() > 0 ==> serviced && final(queue)@ == old(queue)@.drop_first()
            && spec_apply(*old(backend), *final(backend), spec_operation_for(old(queue)@[0])),
{
    match queue.pop_front() {
        Option::Some(event) => {
            let op = operation_for(event);
            backend.apply(op);
            true
        },
        Option::None => false,
    }
}

/// Re-indexing an unchanged file is idempotent: the same filename, root and
/// contents produce the same identity both times, and the second upsert
/// leaves the index exactly as the first did — one record, replaced in
/// place, never a duplicate.
pub proof fn lemma_reindex_idempotent(
    docs: Map<Seq<char>, DocumentView>,
    filename: Seq<char>,
    root: RootView,
    contents: Seq<char>,
)
    ensures
        ({
            let d = DocumentView {
                id: id_chars(encode_root(root), filename),
                filename: filename,
                contents: contents,
                root: encode_root(root),
            };
            docs.insert(d.id, d).insert(d.id, d) == docs.insert(d.id, d)
        }),
{
    let d = DocumentView {
        id: id_chars(encode_root(root), filename),
        filename: filename,
        contents: contents,
        root: encode_root(root),
    };
    assert(docs.insert(d.id, d).insert(d.id, d) =~= docs.insert(d.id, d));
}

} // verus!

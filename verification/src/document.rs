//! Searchable documents and their content-addressed identity.
//!
//! A document's id is the lowercase hex SHA-256 digest of its canonical root
//! string followed by its filename. Re-scanning an unchanged file therefore
//! reproduces the same id, which turns a re-index into a backend replace
//! rather than a duplicate entry.

use vstd::prelude::*;
use vstd::string::StrSliceExecFns;
use vstd::string::StringExecFns;

use crate::digest::{hex_encode, hex_of, sha256_digest, sha256_of};
use crate::root::{
    decoded_drive_name, decoded_file_path, decoded_gdrive_path, encode_root, file_encoding,
    file_scheme, gdrive_scheme, is_canonical_root, is_file_encoding, is_gdrive_encoding,
    lemma_root_round_trip, parent_dir, rel_to_base, RootView, SearchableRoot,
};
use crate::strutil::{
    first_slash, first_slash_exec, lemma_first_slash_bounds, norm_tail, str_starts_with,
};

verus! {

/// The content-addressed identity: hex digest of canonical root string and
/// filename, concatenated in that order.
pub open spec fn id_chars(root_str: Seq<char>, filename: Seq<char>) -> Seq<char> {
    hex_of(sha256_of(vstd::utf8::encode_utf8(root_str + filename)))
}

/// Content-addressed identifier of a searchable document.
#[derive(Debug, Clone)]
pub struct SearchableDocumentId(String);

impl View for SearchableDocumentId {
    type V = Seq<char>;

    closed spec fn view(&self) -> Seq<char> {
        self.0@
    }
}

impl SearchableDocumentId {
    /// The identity of the document `filename` under `root`: a pure function
    /// of the root's canonical string and the filename.
    pub fn new(filename: &str, root: &SearchableRoot) -> (r: Self)
        ensures
            r@ == id_chars(encode_root(root@), filename@),
    {
        let combined = root.canonical_string().concat(filename);
        let bytes = combined.as_str().as_bytes_vec();
        SearchableDocumentId(hex_encode(sha256_digest(bytes.as_slice()).as_slice()))
    }

    /// The identifier as the hex string it is.
    pub fn as_str(&self) -> (r: &str)
        ensures
            r@ == self@,
    {
        self.0.as_str()
    }
}

/// Deletion marker: all that invalidation needs is the identity.
#[derive(Debug, Clone)]
pub struct InvalidatedSearchableDocument(pub SearchableDocumentId);

/// Mathematical model of a document: each field as a character sequence.
pub struct DocumentView {
    pub id: Seq<char>,
    pub filename: Seq<char>,
    pub contents: Seq<char>,
    pub root: Seq<char>,
}

/// An immutable searchable item: a changed real-world file produces a new
/// value with the same id, never a mutation of this one.
#[derive(Debug, Clone)]
pub struct SearchableDocument {
    id: SearchableDocumentId,
    filename: String,
    contents: String,
    root: String,
}

impl View for SearchableDocument {
    type V = DocumentView;

    closed spec fn view(&self) -> DocumentView {
        DocumentView {
            id: self.id@,
            filename: self.filename@,
            contents: self.contents@,
            root: self.root@,
        }
    }
}

impl SearchableDocument {
    /// Well-formed: the provenance field is a canonical root encoding and
    /// the id is the content-addressed identity computed from it.
    pub open spec fn wf(self) -> bool {
        is_canonical_root(self@.root) && self@.id == id_chars(self@.root, self@.filename)
    }

    pub fn new(filename: String, root: SearchableRoot, contents: String) -> (r: Self)
        ensures
            r@.filename == filename@,
            r@.contents == contents@,
            r@.root == encode_root(root@),
            r@.id == id_chars(encode_root(root@), filename@),
            r.wf(),
    {
        proof {
            lemma_root_round_trip(root@);
        }
        let id = SearchableDocumentId::new(filename.as_str(), &root);
        let root_str = root.canonical_string();
        SearchableDocument { id, filename, contents, root: root_str }
    }

    pub fn filename(&self) -> (r: &str)
        ensures
            r@ == self@.filename,
    {
        self.filename.as_str()
    }

    pub fn contents(&self) -> (r: &str)
        ensures
            r@ == self@.contents,
    {
        self.contents.as_str()
    }

    pub fn id(&self) -> (r: &SearchableDocumentId)
        ensures
            r@ == self@.id,
    {
        &self.id
    }

    /// The persisted canonical provenance string.
    pub fn root_string(&self) -> (r: &str)
        ensures
            r@ == self@.root,
    {
        self.root.as_str()
    }

    /// Decode the persisted provenance string back into a root, dispatching
    /// on its scheme prefix. Total on every string the encoder emits; the
    /// `file://` form decodes to a local root (git provenance shares that
    /// encoding and is not recoverable from it).
    pub fn root(&self) -> (r: SearchableRoot)
        requires
            is_canonical_root(self@.root),
        ensures
            is_file_encoding(self@.root) ==> r@ == (RootView::Files {
                folder_path: decoded_file_path(self@.root),
            }),
            !is_file_encoding(self@.root) ==> r@ == (RootView::GoogleDrive {
                drive_name: decoded_drive_name(self@.root),
                folder_path: decoded_gdrive_path(self@.root),
            }),
    {
        let s = self.root.as_str();
        proof {
            reveal_strlit("file://");
            assert("file://"@ =~= file_scheme());
        }
        if str_starts_with(s, "file://") {
            let path = s.substring_char(7, s.unicode_len());
            proof {
                assert(path@ =~= decoded_file_path(self@.root));
            }
            SearchableRoot::Files { folder_path: path.to_owned() }
        } else {
            proof {
                assert(is_gdrive_encoding(self@.root));
            }
            let n = s.unicode_len();
            let rem = s.substring_char(9, n);
            proof {
                assert(rem@ =~= self@.root.skip(9));
                lemma_first_slash_bounds(rem@);
            }
            let i = first_slash_exec(rem);
            let drive = rem.substring_char(0, i);
            let path = rem.substring_char(i, rem.unicode_len());
            proof {
                assert(drive@ =~= decoded_drive_name(self@.root));
                assert(path@ =~= decoded_gdrive_path(self@.root));
            }
            SearchableRoot::GoogleDrive {
                drive_name: drive.to_owned(),
                folder_path: path.to_owned(),
            }
        }
    }
}

/// Identity is a pure function of the encoded provenance: roots with one
/// canonical string cannot give a file two identities.
pub proof fn lemma_id_depends_on_encoding(r1: RootView, r2: RootView, filename: Seq<char>)
    requires
        encode_root(r1) == encode_root(r2),
    ensures
        id_chars(encode_root(r1), filename) == id_chars(encode_root(r2), filename),
{
}

/// Identity is canonicalization-invariant: however a logical file was
/// reached, once symlinks and relative components are resolved the two
/// lookups agree on one canonical path string, and the id computed from that
/// string and the filename is the same.
pub proof fn lemma_id_canonicalization_invariant(
    path1: Seq<char>,
    path2: Seq<char>,
    base: Seq<char>,
    filename: Seq<char>,
)
    requires
        path1 == path2,
    ensures
        id_chars(
            encode_root(RootView::Files { folder_path: rel_to_base(parent_dir(path1), base) }),
            filename,
        ) == id_chars(
            encode_root(RootView::Files { folder_path: rel_to_base(parent_dir(path2), base) }),
            filename,
        ),
{
}

/// Folder spellings that normalize alike give the same identity: a trailing
/// slash or a doubled separator in the folder path does not change the id.
pub proof fn lemma_id_spelling_invariant(p1: Seq<char>, p2: Seq<char>, filename: Seq<char>)
    requires
        norm_tail(p1) == norm_tail(p2),
    ensures
        id_chars(file_encoding(p1), filename) == id_chars(file_encoding(p2), filename),
{
}

} // verus!


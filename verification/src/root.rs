//! Provenance model: where a searchable document came from.
//!
//! A `SearchableRoot` has exactly one canonical string encoding, used both as
//! hash input for document identity and as the persisted provenance field.
//! Local and git-hosted trees encode as `file://<folder>/`, drive folders as
//! `gdrive://<drive>/<folder>/`. The folder part never carries a trailing
//! slash and never holds two adjacent slashes, so two spellings of the same
//! folder agree on one string. Decoding dispatches on the scheme prefix and
//! re-encodes to the same string (see the round-trip lemmas).

use vstd::prelude::*;
use vstd::string::StrSliceExecFns;
use vstd::string::StringExecFns;

use crate::strutil::{
    collapse_slashes, first_slash, has_adjacent_slashes, last_index_of_exec, last_slash,
    lemma_collapse_double_slash, lemma_collapse_id, lemma_collapse_slash_free_prefix,
    lemma_first_slash_bounds, lemma_last_slash_bounds, lemma_norm_tail_shape, lemma_trim_id,
    lemma_trim_append_slash, norm_tail, normalize_tail, trim_trailing_slashes,
};

verus! {

/// Mathematical model of a provenance root: the variant with its fields as
/// character sequences.
pub enum RootView {
    Files { folder_path: Seq<char> },
    GitHub { origin: Seq<char>, branch: Seq<char>, folder_path: Seq<char> },
    GoogleDrive { drive_name: Seq<char>, folder_path: Seq<char> },
}

/// Where a document came from: a watched local folder, a tracked git
/// repository, or a cloud drive folder.
///
/// The git variant carries origin and branch, but its canonical encoding is
/// deliberately the same path-only `file://` form as the local variant:
/// changing it would change every git-sourced document identity, so the
/// narrower encoding is kept until a migration is decided.
#[derive(Debug, Clone)]
pub enum SearchableRoot {
    Files { folder_path: String },
    GitHub { origin: String, branch: String, folder_path: String },
    GoogleDrive { drive_name: String, folder_path: String },
}

impl View for SearchableRoot {
    type V = RootView;

    open spec fn view(&self) -> RootView {
        match self {
            SearchableRoot::Files { folder_path } => RootView::Files { folder_path: folder_path@ },
            SearchableRoot::GitHub { origin, branch, folder_path } => RootView::GitHub {
                origin: origin@,
                branch: branch@,
                folder_path: folder_path@,
            },
            SearchableRoot::GoogleDrive { drive_name, folder_path } => RootView::GoogleDrive {
                drive_name: drive_name@,
                folder_path: folder_path@,
            },
        }
    }
}

pub open spec fn file_scheme() -> Seq<char> {
    seq!['f', 'i', 'l', 'e', ':', '/', '/']
}

pub open spec fn gdrive_scheme() -> Seq<char> {
    seq!['g', 'd', 'r', 'i', 'v', 'e', ':', '/', '/']
}

/// Canonical encoding of a local or git root: `file://<folder>/`, or bare
/// `file://` when the folder normalizes to nothing.
pub open spec fn file_encoding(p: Seq<char>) -> Seq<char> {
    if norm_tail(p).len() == 0 {
        file_scheme()
    } else {
        file_scheme() + norm_tail(p) + seq!['/']
    }
}

/// Canonical encoding of a drive root: `gdrive://<drive>/<folder>/`, with the
/// drive name and folder normalized as one slash-separated tail.
pub open spec fn gdrive_encoding(d: Seq<char>, p: Seq<char>) -> Seq<char> {
    gdrive_scheme() + norm_tail(d + seq!['/'] + p) + seq!['/']
}

/// The one canonical string of a root.
pub open spec fn encode_root(r: RootView) -> Seq<char> {
    match r {
        RootView::Files { folder_path } => file_encoding(folder_path),
        RootView::GitHub { origin, branch, folder_path } => file_encoding(folder_path),
        RootView::GoogleDrive { drive_name, folder_path } => gdrive_encoding(
            drive_name,
            folder_path,
        ),
    }
}

pub open spec fn is_file_encoding(s: Seq<char>) -> bool {
    s.len() >= 7 && s.subrange(0, 7) == file_scheme()
}

pub open spec fn is_gdrive_encoding(s: Seq<char>) -> bool {
    s.len() >= 9 && s.subrange(0, 9) == gdrive_scheme()
}

/// Strings the decoder is total on: everything the encoder can emit.
pub open spec fn is_canonical_root(s: Seq<char>) -> bool {
    is_file_encoding(s) || is_gdrive_encoding(s)
}

/// The folder of a `file://` encoding: everything after the scheme.
pub open spec fn decoded_file_path(s: Seq<char>) -> Seq<char> {
    s.skip(7)
}

/// The drive of a `gdrive://` encoding: the remainder up to its first slash.
pub open spec fn decoded_drive_name(s: Seq<char>) -> Seq<char> {
    s.skip(9).take(first_slash(s.skip(9)))
}

/// The folder of a `gdrive://` encoding: the remainder from its first slash.
pub open spec fn decoded_gdrive_path(s: Seq<char>) -> Seq<char> {
    s.skip(9).skip(first_slash(s.skip(9)))
}

impl SearchableRoot {
    /// The canonical string encoding of this root.
    pub fn canonical_string(&self) -> (r: String)
        ensures
            r@ == encode_root(self@),
    {
        match self {
            SearchableRoot::Files { folder_path } => file_encode_exec(folder_path.as_str()),
            SearchableRoot::GitHub { origin: _, branch: _, folder_path } => file_encode_exec(
                folder_path.as_str(),
            ),
            SearchableRoot::GoogleDrive { drive_name, folder_path } => gdrive_encode_exec(
                drive_name.as_str(),
                folder_path.as_str(),
            ),
        }
    }

    /// Root for a local file under the watched base directory: the file's
    /// parent directory, relative to the base. Both paths must already be in
    /// the same canonical spelling (resolved by the caller), with `/` as
    /// separator; the parent must lie at or under the base.
    pub fn new_file(path: &str, base: &str) -> (r: Self)
        requires
            last_slash(path@) >= 0,
            under_base(parent_dir(path@), base@),
        ensures
            r@ == (RootView::Files {
                folder_path: rel_to_base(parent_dir(path@), base@),
            }),
    {
        let folder = relative_parent(path, base);
        SearchableRoot::Files { folder_path: folder }
    }

    /// Root for a file tracked by a git repository checked out under `base`:
    /// like `new_file`, but tagged with the repository's origin URL and
    /// current branch.
    pub fn new_github_file(path: &str, base: &str, origin: String, branch: String) -> (r: Self)
        requires
            last_slash(path@) >= 0,
            under_base(parent_dir(path@), base@),
        ensures
            r@ == (RootView::GitHub {
                origin: origin@,
                branch: branch@,
                folder_path: rel_to_base(parent_dir(path@), base@),
            }),
    {
        let folder = relative_parent(path, base);
        SearchableRoot::GitHub { origin, branch, folder_path: folder }
    }
}

/// The directory part of a path: everything before its last slash.
pub open spec fn parent_dir(p: Seq<char>) -> Seq<char> {
    p.take(last_slash(p))
}

/// Does `parent` lie at or under `base`?
pub open spec fn under_base(parent: Seq<char>, base: Seq<char>) -> bool {
    parent == base || (parent.len() > base.len() && parent.take(base.len() as int) == base
        && parent[base.len() as int] == '/')
}

/// `parent` relative to `base`: empty at the base itself, otherwise the part
/// after `base/`.
pub open spec fn rel_to_base(parent: Seq<char>, base: Seq<char>) -> Seq<char> {
    if parent.len() == base.len() {
        Seq::empty()
    } else {
        parent.skip(base.len() as int + 1)
    }
}

/// A `file://` encoding decodes to a local root that re-encodes to the very
/// same string.
pub proof fn lemma_file_round_trip(p: Seq<char>)
    ensures
        is_file_encoding(file_encoding(p)),
        !is_gdrive_encoding(file_encoding(p)),
        file_encoding(decoded_file_path(file_encoding(p))) == file_encoding(p),
{
    let n = norm_tail(p);
    let e = file_encoding(p);
    lemma_norm_tail_shape(p);
    assert(e.subrange(0, 7) =~= file_scheme());
    assert(e[0] == 'f');
    if is_gdrive_encoding(e) {
        assert(e.subrange(0, 9)[0] == 'g');
        assert(false);
    }
    let t = decoded_file_path(e);
    if n.len() == 0 {
        assert(t =~= Seq::<char>::empty());
        assert(trim_trailing_slashes(t) =~= Seq::<char>::empty());
        assert(norm_tail(t).len() == 0);
    } else {
        assert(t =~= n + seq!['/']);
        lemma_trim_append_slash(n);
        lemma_trim_id(n);
        lemma_collapse_id(n);
        assert(norm_tail(t) == n);
        assert(file_encoding(t) =~= e);
    }
}

/// A `gdrive://` encoding decodes to a drive root that re-encodes to the
/// very same string, whatever the decoder picked as the drive name.
pub proof fn lemma_gdrive_round_trip(d: Seq<char>, p: Seq<char>)
    ensures
        is_gdrive_encoding(gdrive_encoding(d, p)),
        !is_file_encoding(gdrive_encoding(d, p)),
        gdrive_encoding(
            decoded_drive_name(gdrive_encoding(d, p)),
            decoded_gdrive_path(gdrive_encoding(d, p)),
        ) == gdrive_encoding(d, p),
{
    let x = norm_tail(d + seq!['/'] + p);
    let e = gdrive_encoding(d, p);
    lemma_norm_tail_shape(d + seq!['/'] + p);
    assert(e.subrange(0, 9) =~= gdrive_scheme());
    assert(e[0] == 'g');
    if is_file_encoding(e) {
        assert(e.subrange(0, 7)[0] == 'f');
        assert(false);
    }
    let rem = e.skip(9);
    assert(rem =~= x + seq!['/']);
    let i = first_slash(rem);
    lemma_first_slash_bounds(rem);
    assert(rem[x.len() as int] == '/');
    assert(i <= x.len());
    let dn = decoded_drive_name(e);
    let dp = decoded_gdrive_path(e);
    assert(dn =~= x.take(i));
    assert(dp =~= x.skip(i) + seq!['/']);
    let tail2 = dn + seq!['/'] + dp;
    // trimming removes exactly the final slash of the re-joined tail
    let mid = x.take(i) + seq!['/'] + x.skip(i);
    assert(tail2 =~= mid + seq!['/']);
    lemma_trim_append_slash(mid);
    if i == x.len() {
        assert(mid =~= x + seq!['/']);
        lemma_trim_append_slash(x);
        if x.len() == 0 {
            assert(trim_trailing_slashes(x).len() == 0);
            assert(norm_tail(tail2).len() == 0);
            assert(gdrive_encoding(dn, dp) =~= e);
        } else {
            lemma_trim_id(x);
            lemma_collapse_id(x);
            assert(norm_tail(tail2) == x);
            assert(gdrive_encoding(dn, dp) =~= e);
        }
    } else {
        // x[i] is the first slash of x; re-joining doubled it
        assert(x[i] == '/');
        assert(x.len() > 0);
        assert(mid.last() == x.last());
        lemma_trim_id(mid);
        assert(trim_trailing_slashes(tail2) == mid);
        let a = x.take(i);
        let b = x.skip(i + 1);
        assert(forall|j: int| 0 <= j < a.len() ==> #[trigger] a[j] != '/');
        assert(mid =~= a + (seq!['/', '/'] + b));
        lemma_collapse_slash_free_prefix(a, seq!['/', '/'] + b);
        lemma_collapse_double_slash(b);
        assert(seq!['/'] + b =~= x.skip(i));
        assert forall|j: int| 0 <= j && j + 1 < x.skip(i).len() implies !(#[trigger] x.skip(i)[j]
            == '/' && x.skip(i)[j + 1] == '/') by {
            if x.skip(i)[j] == '/' && x.skip(i)[j + 1] == '/' {
                assert(x[i + j] == '/' && x[i + j + 1] == '/');
                assert(has_adjacent_slashes(x));
            }
        }
        lemma_collapse_id(x.skip(i));
        assert(collapse_slashes(mid) =~= a + x.skip(i));
        assert(a + x.skip(i) =~= x);
        assert(norm_tail(tail2) == x);
        assert(gdrive_encoding(dn, dp) =~= e);
    }
}

/// Folder paths that normalize differently never collide in the `file://`
/// encoding: the canonical string determines the normalized folder.
pub proof fn lemma_file_encoding_injective(p1: Seq<char>, p2: Seq<char>)
    requires
        norm_tail(p1) != norm_tail(p2),
    ensures
        file_encoding(p1) != file_encoding(p2),
{
    let n1 = norm_tail(p1);
    let n2 = norm_tail(p2);
    if file_encoding(p1) == file_encoding(p2) {
        if n1.len() == 0 || n2.len() == 0 {
            assert(n1.len() == 0 && n2.len() == 0);
            assert(n1 =~= n2);
        } else {
            assert(file_encoding(p1).len() == 8 + n1.len());
            assert(file_encoding(p2).len() == 8 + n2.len());
            assert(n1.len() == n2.len());
            assert forall|j: int| 0 <= j < n1.len() implies n1[j] == n2[j] by {
                assert(file_encoding(p1)[7 + j] == n1[j]);
                assert(file_encoding(p2)[7 + j] == n2[j]);
            }
            assert(n1 =~= n2);
        }
        assert(false);
    }
}

/// Drive-and-folder tails that normalize differently never collide in the
/// `gdrive://` encoding.
pub proof fn lemma_gdrive_encoding_injective(d1: Seq<char>, p1: Seq<char>, d2: Seq<char>, p2: Seq<char>)
    requires
        norm_tail(d1 + seq!['/'] + p1) != norm_tail(d2 + seq!['/'] + p2),
    ensures
        gdrive_encoding(d1, p1) != gdrive_encoding(d2, p2),
{
    let x1 = norm_tail(d1 + seq!['/'] + p1);
    let x2 = norm_tail(d2 + seq!['/'] + p2);
    if gdrive_encoding(d1, p1) == gdrive_encoding(d2, p2) {
        assert(gdrive_encoding(d1, p1).len() == 10 + x1.len());
        assert(gdrive_encoding(d2, p2).len() == 10 + x2.len());
        assert(x1.len() == x2.len());
        assert forall|j: int| 0 <= j < x1.len() implies x1[j] == x2[j] by {
            assert(gdrive_encoding(d1, p1)[9 + j] == x1[j]);
            assert(gdrive_encoding(d2, p2)[9 + j] == x2[j]);
        }
        assert(x1 =~= x2);
        assert(false);
    }
}

/// Round trip: every root's canonical string decodes (by scheme dispatch) to
/// a root whose own canonical string is the original one.
pub proof fn lemma_root_round_trip(r: RootView)
    ensures
        is_canonical_root(encode_root(r)),
        is_file_encoding(encode_root(r)) ==> file_encoding(decoded_file_path(encode_root(r)))
            == encode_root(r),
        is_gdrive_encoding(encode_root(r)) ==> gdrive_encoding(
            decoded_drive_name(encode_root(r)),
            decoded_gdrive_path(encode_root(r)),
        ) == encode_root(r),
{
    match r {
        RootView::Files { folder_path } => lemma_file_round_trip(folder_path),
        RootView::GitHub { origin, branch, folder_path } => lemma_file_round_trip(folder_path),
        RootView::GoogleDrive { drive_name, folder_path } => lemma_gdrive_round_trip(
            drive_name,
            folder_path,
        ),
    }
}

fn relative_parent(path: &str, base: &str) -> (r: String)
    requires
        last_slash(path@) >= 0,
        under_base(parent_dir(path@), base@),
    ensures
        r@ == rel_to_base(parent_dir(path@), base@),
{
    proof {
        lemma_last_slash_bounds(path@);
    }
    let i = match last_index_of_exec(path, '/') {
        Some(i) => i,
        None => 0,  // unreachable: the requires gives a slash
    };
    let parent = path.substring_char(0, i);
    let blen = base.unicode_len();
    if parent.unicode_len() == blen {
        String::new()
    } else {
        parent.substring_char(blen + 1, parent.unicode_len()).to_owned()
    }
}

fn file_encode_exec(p: &str) -> (r: String)
    ensures
        r@ == file_encoding(p@),
{
    let tail = normalize_tail(p);
    let mut out: String = "file://".to_owned();
    proof {
        reveal_strlit("file://");
        assert(out@ =~= file_scheme());
    }
    if tail.as_str().unicode_len() > 0 {
        out.append(tail.as_str());
        out.append("/");
        proof {
            reveal_strlit("/");
            assert("/"@ =~= seq!['/']);
            assert(out@ =~= file_scheme() + norm_tail(p@) + seq!['/']);
        }
    }
    out
}

fn gdrive_encode_exec(d: &str, p: &str) -> (r: String)
    ensures
        r@ == gdrive_encoding(d@, p@),
{
    let mut joined: String = d.to_owned();
    joined.append("/");
    joined.append(p);
    proof {
        reveal_strlit("/");
        assert("/"@ =~= seq!['/']);
        assert(joined@ =~= d@ + seq!['/'] + p@);
    }
    let tail = normalize_tail(joined.as_str());
    let mut out: String = "gdrive://".to_owned();
    proof {
        reveal_strlit("gdrive://");
        assert(out@ =~= gdrive_scheme());
    }
    out.append(tail.as_str());
    out.append("/");
    proof {
        assert(out@ =~= gdrive_scheme() + norm_tail(d@ + seq!['/'] + p@) + seq!['/']);
    }
    out
}

} // verus!

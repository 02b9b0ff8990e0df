//! String helpers for the canonical provenance encoding.
//!
//! Canonical root strings never carry a trailing slash on the folder part and
//! never contain two adjacent slashes after the scheme. The two spec
//! functions `trim_trailing_slashes` and `collapse_slashes` define that
//! normalization; the exec functions mirror them character by character.

use vstd::prelude::*;
use vstd::string::StrSliceExecFns;
use vstd::string::StringExecFns;

verus! {

/// `s` without its trailing run of `'/'` characters.
pub open spec fn trim_trailing_slashes(s: Seq<char>) -> Seq<char>
    decreases s.len(),
{
    if s.len() > 0 && s.last() == '/' {
        trim_trailing_slashes(s.drop_last())
    } else {
        s
    }
}

/// `s` with every run of adjacent `'/'` characters collapsed to a single one.
pub open spec fn collapse_slashes(s: Seq<char>) -> Seq<char>
    decreases s.len(),
{
    if s.len() == 0 {
        Seq::empty()
    } else if s.len() >= 2 && s[0] == '/' && s[1] == '/' {
        collapse_slashes(s.drop_first())
    } else {
        seq![s[0]] + collapse_slashes(s.drop_first())
    }
}

/// Full normalization of the folder part of a canonical root string.
pub open spec fn norm_tail(s: Seq<char>) -> Seq<char> {
    collapse_slashes(trim_trailing_slashes(s))
}

pub open spec fn has_adjacent_slashes(s: Seq<char>) -> bool {
    exists|i: int| 0 <= i && i + 1 < s.len() && #[trigger] s[i] == '/' && s[i + 1] == '/'
}

/// The index of the first `'/'` in `s`, or `s.len()` if there is none.
pub open spec fn first_slash(s: Seq<char>) -> int
    decreases s.len(),
{
    if s.len() == 0 {
        0
    } else if s[0] == '/' {
        0
    } else {
        1 + first_slash(s.drop_first())
    }
}

/// The index of the last occurrence of `c` in `s`, or `-1` if there is none.
pub open spec fn last_index_of(s: Seq<char>, c: char) -> int
    decreases s.len(),
{
    if s.len() == 0 {
        -1
    } else if s.last() == c {
        s.len() - 1
    } else {
        last_index_of(s.drop_last(), c)
    }
}

/// The index of the last `'/'` in `s`, or `-1` if there is none.
pub open spec fn last_slash(s: Seq<char>) -> int {
    last_index_of(s, '/')
}

pub proof fn lemma_first_slash_bounds(s: Seq<char>)
    ensures
        0 <= first_slash(s) <= s.len(),
        first_slash(s) < s.len() ==> s[first_slash(s)] == '/',
        forall|j: int| 0 <= j < first_slash(s) ==> s[j] != '/',
    decreases s.len(),
{
    if s.len() > 0 && s[0] != '/' {
        lemma_first_slash_bounds(s.drop_first());
        assert forall|j: int| 0 <= j < first_slash(s) implies s[j] != '/' by {
            if j > 0 {
                assert(s.drop_first()[j - 1] != '/');
            }
        }
    }
}

pub proof fn lemma_last_index_of_bounds(s: Seq<char>, c: char)
    ensures
        -1 <= last_index_of(s, c) < s.len(),
        last_index_of(s, c) >= 0 ==> s[last_index_of(s, c)] == c,
        forall|j: int| last_index_of(s, c) < j < s.len() ==> s[j] != c,
    decreases s.len(),
{
    if s.len() > 0 && s.last() != c {
        lemma_last_index_of_bounds(s.drop_last(), c);
        assert forall|j: int| last_index_of(s, c) < j < s.len() implies s[j] != c by {
            if j < s.len() - 1 {
                assert(s.drop_last()[j] != c);
            }
        }
    }
}

pub proof fn lemma_last_slash_bounds(s: Seq<char>)
    ensures
        -1 <= last_slash(s) < s.len(),
        last_slash(s) >= 0 ==> s[last_slash(s)] == '/',
        forall|j: int| last_slash(s) < j < s.len() ==> s[j] != '/',
{
    lemma_last_index_of_bounds(s, '/');
}

/// Trimming is the identity on strings without a trailing slash.
pub proof fn lemma_trim_id(s: Seq<char>)
    requires
        s.len() == 0 || s.last() != '/',
    ensures
        trim_trailing_slashes(s) == s,
{
}

/// Appending slashes does not change the trimmed value.
pub proof fn lemma_trim_append_slash(s: Seq<char>)
    ensures
        trim_trailing_slashes(s + seq!['/']) == trim_trailing_slashes(s),
{
    assert((s + seq!['/']).last() == '/');
    assert((s + seq!['/']).drop_last() =~= s);
}

/// A trimmed string is empty or ends in something other than a slash.
pub proof fn lemma_trim_shape(s: Seq<char>)
    ensures
        trim_trailing_slashes(s).len() == 0 || trim_trailing_slashes(s).last() != '/',
    decreases s.len(),
{
    if s.len() > 0 && s.last() == '/' {
        lemma_trim_shape(s.drop_last());
    }
}

/// The normalized tail has no adjacent slashes and no trailing slash.
pub proof fn lemma_norm_tail_shape(s: Seq<char>)
    ensures
        !has_adjacent_slashes(norm_tail(s)),
        norm_tail(s).len() > 0 ==> norm_tail(s).last() != '/',
{
    lemma_trim_shape(s);
    lemma_collapse_shape(trim_trailing_slashes(s));
}

/// Collapsing is the identity on strings without adjacent slashes.
pub proof fn lemma_collapse_id(s: Seq<char>)
    requires
        !has_adjacent_slashes(s),
    ensures
        collapse_slashes(s) == s,
    decreases s.len(),
{
    if s.len() > 0 {
        if s.len() >= 2 && s[0] == '/' && s[1] == '/' {
            assert(has_adjacent_slashes(s));
        }
        assert forall|i: int| 0 <= i && i + 1 < s.drop_first().len() implies !(#[trigger] s.drop_first()[i]
            == '/' && s.drop_first()[i + 1] == '/') by {
            if s.drop_first()[i] == '/' && s.drop_first()[i + 1] == '/' {
                assert(s[i + 1] == '/' && s[i + 2] == '/');
            }
        }
        lemma_collapse_id(s.drop_first());
        assert(collapse_slashes(s) =~= s);
    }
}

/// A collapsed string keeps the last character of its input and never gains
/// adjacent slashes.
pub proof fn lemma_collapse_shape(s: Seq<char>)
    ensures
        s.len() > 0 ==> collapse_slashes(s).len() > 0 && collapse_slashes(s).last() == s.last(),
        !has_adjacent_slashes(collapse_slashes(s)),
        s.len() > 0 && s[0] != '/' ==> collapse_slashes(s)[0] == s[0],
        s.len() > 0 && s[0] == '/' ==> collapse_slashes(s)[0] == '/',
    decreases s.len(),
{
    if s.len() == 0 {
    } else if s.len() >= 2 && s[0] == '/' && s[1] == '/' {
        lemma_collapse_shape(s.drop_first());
        assert(s.drop_first().last() == s.last());
        assert(s.drop_first()[0] == '/');
    } else if s.len() == 1 {
        assert(s.drop_first().len() == 0);
        assert(collapse_slashes(s.drop_first()) =~= Seq::<char>::empty());
        assert(collapse_slashes(s) =~= seq![s[0]]);
        assert(!has_adjacent_slashes(collapse_slashes(s)));
    } else {
        lemma_collapse_shape(s.drop_first());
        let c = collapse_slashes(s);
        let ct = collapse_slashes(s.drop_first());
        assert(c =~= seq![s[0]] + ct);
        assert(s.drop_first().len() > 0);
        assert(c.last() == ct.last());
        assert forall|i: int| 0 <= i && i + 1 < c.len() implies !(#[trigger] c[i] == '/' && c[i + 1]
            == '/') by {
            if i == 0 {
                // c[1] is ct[0], which can be a slash only when s[1] is one
                if c[0] == '/' && c[1] == '/' {
                    assert(ct[0] == '/');
                    if s.drop_first()[0] != '/' {
                        assert(ct[0] == s.drop_first()[0]);
                    }
                    assert(s[1] == '/');
                    assert(s[0] == '/' && s[1] == '/');
                    assert(false);
                }
            } else {
                assert(c[i] == ct[i - 1] && c[i + 1] == ct[i]);
                assert(!has_adjacent_slashes(ct));
            }
        }
    }
}

/// Collapsing distributes over a slash-free prefix.
pub proof fn lemma_collapse_slash_free_prefix(a: Seq<char>, b: Seq<char>)
    requires
        forall|i: int| 0 <= i < a.len() ==> a[i] != '/',
    ensures
        collapse_slashes(a + b) == a + collapse_slashes(b),
    decreases a.len(),
{
    if a.len() == 0 {
        assert(a + b =~= b);
        assert(a + collapse_slashes(b) =~= collapse_slashes(b));
    } else {
        let s = a + b;
        assert(s[0] == a[0]);
        assert(s[0] != '/');
        assert(s.len() > 0);
        assert(s.drop_first() =~= a.drop_first() + b);
        assert forall|i: int| 0 <= i < a.drop_first().len() implies a.drop_first()[i] != '/' by {
            assert(a.drop_first()[i] == a[i + 1]);
        }
        lemma_collapse_slash_free_prefix(a.drop_first(), b);
        assert(collapse_slashes(s) =~= seq![s[0]] + (a.drop_first() + collapse_slashes(b)));
        assert(seq![s[0]] + (a.drop_first() + collapse_slashes(b)) =~= a + collapse_slashes(b));
    }
}

/// One leading double slash collapses to a single one.
pub proof fn lemma_collapse_double_slash(b: Seq<char>)
    ensures
        collapse_slashes(seq!['/', '/'] + b) == collapse_slashes(seq!['/'] + b),
{
    let s = seq!['/', '/'] + b;
    assert(s[0] == '/' && s[1] == '/');
    assert(s.drop_first() =~= seq!['/'] + b);
}

// ---- executable counterparts ----

/// Character-equality of two string slices.
pub fn str_eq(a: &str, b: &str) -> (r: bool)
    ensures
        r == (a@ == b@),
{
    let sa: String = a.to_owned();
    let sb: String = b.to_owned();
    sa.eq(&sb)
}

/// Does `s` start with `prefix`, character-wise?
pub fn str_starts_with(s: &str, prefix: &str) -> (r: bool)
    ensures
        r == (s@.len() >= prefix@.len() && s@.subrange(0, prefix@.len() as int) == prefix@),
{
    let n = s.unicode_len();
    let p = prefix.unicode_len();
    if n < p {
        false
    } else {
        str_eq(s.substring_char(0, p), prefix)
    }
}

pub fn trim_trailing_slashes_exec(s: &str) -> (r: String)
    ensures
        r@ == trim_trailing_slashes(s@),
    decreases s@.len(),
{
    let n = s.unicode_len();
    if n > 0 && s.get_char(n - 1) == '/' {
        let head = s.substring_char(0, n - 1);
        proof {
            assert(head@ =~= s@.drop_last());
        }
        trim_trailing_slashes_exec(head)
    } else {
        s.to_owned()
    }
}

pub fn collapse_slashes_exec(s: &str) -> (r: String)
    ensures
        r@ == collapse_slashes(s@),
    decreases s@.len(),
{
    let n = s.unicode_len();
    if n == 0 {
        String::new()
    } else if n >= 2 && s.get_char(0) == '/' && s.get_char(1) == '/' {
        let tail = s.substring_char(1, n);
        proof {
            assert(tail@ =~= s@.drop_first());
        }
        collapse_slashes_exec(tail)
    } else {
        let tail = s.substring_char(1, n);
        proof {
            assert(tail@ =~= s@.drop_first());
        }
        let mut out: String = s.substring_char(0, 1).to_owned();
        let rest = collapse_slashes_exec(tail);
        out.append(rest.as_str());
        proof {
            assert(out@ =~= seq![s@[0]] + collapse_slashes(s@.drop_first()));
        }
        out
    }
}

/// Executable normalization of the folder part of a root string.
pub fn normalize_tail(s: &str) -> (r: String)
    ensures
        r@ == norm_tail(s@),
{
    let trimmed = trim_trailing_slashes_exec(s);
    collapse_slashes_exec(trimmed.as_str())
}

/// The index of the first `'/'` in `s`, or its length if there is none.
pub fn first_slash_exec(s: &str) -> (r: usize)
    ensures
        r == first_slash(s@),
    decreases s@.len(),
{
    let n = s.unicode_len();
    if n == 0 {
        0
    } else if s.get_char(0) == '/' {
        0
    } else {
        let tail = s.substring_char(1, n);
        proof {
            assert(tail@ =~= s@.drop_first());
            lemma_first_slash_bounds(s@.drop_first());
        }
        1 + first_slash_exec(tail)
    }
}

/// The index of the last occurrence of `c` in `s`, if any.
pub fn last_index_of_exec(s: &str, c: char) -> (r: Option<usize>)
    ensures
        match r {
            Some(i) => last_index_of(s@, c) == i as int,
            None => last_index_of(s@, c) == -1,
        },
    decreases s@.len(),
{
    let n = s.unicode_len();
    if n == 0 {
        None
    } else if s.get_char(n - 1) == c {
        Some(n - 1)
    } else {
        let head = s.substring_char(0, n - 1);
        proof {
            assert(head@ =~= s@.drop_last());
            lemma_last_index_of_bounds(s@.drop_last(), c);
        }
        last_index_of_exec(head, c)
    }
}

} // verus!

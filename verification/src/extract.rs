//! Content extraction: from a file's name and raw bytes to searchable text.
//!
//! Dispatch is by file extension over a fixed, case-sensitive allow-list.
//! Plain-text formats are decoded as UTF-8; word-processor bytes go through
//! the outside parser; for PDF the caller runs the decoder at its edge (it
//! can abort on malformed input) and hands the outcome in; known binary
//! formats and extension-less names are skipped silently; anything else is
//! skipped as unrecognized (callers may warn). Extraction is deterministic
//! in its inputs and has no side effects, so every branch is testable on
//! its own.

use vstd::prelude::*;
use vstd::string::StrSliceExecFns;

use std::io::Cursor;

use docx_rust::document::{BodyContent, ParagraphContent, RunContent};
use docx_rust::DocxFile;

use crate::strutil::{
    last_index_of, last_index_of_exec, lemma_last_index_of_bounds, str_eq,
};

verus! {

/// How a file extension is handled.
#[derive(Debug, Clone, Copy, PartialEq, Eq, Structural)]
pub enum ExtensionClass {
    /// Read the bytes as UTF-8 text verbatim.
    Text,
    /// Take the caller's PDF decode of the bytes.
    Pdf,
    /// Decode through the word-processor document parser.
    Docx,
    /// A known non-text format (or no extension at all): skip silently.
    Binary,
    /// Unrecognized: skip, but worth a warning at the boundary.
    Unknown,
}

pub open spec fn is_text_extension(e: Seq<char>) -> bool {
    ||| e == "txt"@
    ||| e == "md"@
    ||| e == "rs"@
    ||| e == "py"@
    ||| e == "toml"@
    ||| e == "json"@
    ||| e == "cpp"@
    ||| e == "bazel"@
    ||| e == "ron"@
    ||| e == "xml"@
    ||| e == "h"@
    ||| e == "jsonc"@
    ||| e == "hpp"@
    ||| e == "sql"@
    ||| e == "c"@
}

pub open spec fn is_binary_extension(e: Seq<char>) -> bool {
    ||| e == "gitignore"@
    ||| e == "lock"@
    ||| e == "obj"@
    ||| e == "mtl"@
    ||| e == "png"@
    ||| e == "a"@
    ||| e == "stl"@
}

pub open spec fn spec_classify(ext: Option<Seq<char>>) -> ExtensionClass {
    match ext {
        Option::None => ExtensionClass::Binary,
        Option::Some(e) => if is_text_extension(e) {
            ExtensionClass::Text
        } else if e == "pdf"@ {
            ExtensionClass::Pdf
        } else if e == "docx"@ {
            ExtensionClass::Docx
        } else if is_binary_extension(e) {
            ExtensionClass::Binary
        } else {
            ExtensionClass::Unknown
        },
    }
}

fn is_text_extension_exec(e: &str) -> (r: bool)
    ensures
        r == is_text_extension(e@),
{
    str_eq(e, "txt") || str_eq(e, "md") || str_eq(e, "rs") || str_eq(e, "py") || str_eq(
        e,
        "toml",
    ) || str_eq(e, "json") || str_eq(e, "cpp") || str_eq(e, "bazel") || str_eq(e, "ron") || str_eq(
        e,
        "xml",
    ) || str_eq(e, "h") || str_eq(e, "jsonc") || str_eq(e, "hpp") || str_eq(e, "sql") || str_eq(
        e,
        "c",
    )
}

fn is_binary_extension_exec(e: &str) -> (r: bool)
    ensures
        r == is_binary_extension(e@),
{
    str_eq(e, "gitignore") || str_eq(e, "lock") || str_eq(e, "obj") || str_eq(e, "mtl") || str_eq(
        e,
        "png",
    ) || str_eq(e, "a") || str_eq(e, "stl")
}

/// Classify an extension against the fixed allow-list.
pub fn classify_extension(ext: Option<&str>) -> (r: ExtensionClass)
    ensures
        r == spec_classify(ext.deep_view()),
{
    match ext {
        Option::None => ExtensionClass::Binary,
        Option::Some(e) => if is_text_extension_exec(e) {
            ExtensionClass::Text
        } else if str_eq(e, "pdf") {
            ExtensionClass::Pdf
        } else if str_eq(e, "docx") {
            ExtensionClass::Docx
        } else if is_binary_extension_exec(e) {
            ExtensionClass::Binary
        } else {
            ExtensionClass::Unknown
        },
    }
}

/// The extension of a file name: the characters after its last `'.'`,
/// provided that dot is not the leading character (dot-files have none).
pub open spec fn spec_extension(filename: Seq<char>) -> Option<Seq<char>> {
    if last_index_of(filename, '.') > 0 {
        Option::Some(filename.skip(last_index_of(filename, '.') + 1))
    } else {
        Option::None
    }
}

pub fn file_extension(filename: &str) -> (r: Option<String>)
    ensures
        r.deep_view() == spec_extension(filename@),
{
    proof {
        lemma_last_index_of_bounds(filename@, '.');
    }
    let n = filename.unicode_len();
    match last_index_of_exec(filename, '.') {
        Option::Some(i) => if i > 0 {
            Option::Some(filename.substring_char(i + 1, n).to_owned())
        } else {
            Option::None
        },
        Option::None => Option::None,
    }
}

/// What a text run sequence of one paragraph joins to.
pub open spec fn join_runs(runs: Seq<Seq<char>>) -> Seq<char>
    decreases runs.len(),
{
    if runs.len() == 0 {
        Seq::empty()
    } else {
        runs[0] + join_runs(runs.drop_first())
    }
}

/// What a parsed document joins to: each paragraph's runs in order, one
/// joined line break per paragraph.
pub open spec fn join_paragraphs(paras: Seq<Seq<Seq<char>>>) -> Seq<char>
    decreases paras.len(),
{
    if paras.len() == 0 {
        Seq::empty()
    } else {
        join_runs(paras[0]) + seq!['\n'] + join_paragraphs(paras.drop_first())
    }
}

/// The text of a parsed word-processor document.
pub fn docx_text(paras: &Vec<Vec<String>>) -> (r: String)
    ensures
        r@ == join_paragraphs(paras.deep_view()),
{
    let ghost all = paras.deep_view();
    let mut out = String::new();
    proof {
        assert(all.skip(0) =~= all);
    }
    let n = paras.len();
    let mut i: usize = 0;
    while i < n
        invariant
            n == paras.len(),
            all == paras.deep_view(),
            i <= n,
            join_paragraphs(all) =~= out@ + join_paragraphs(all.skip(i as int)),
        decreases n - i,
    {
        let para = &paras[i];
        let ghost runs = para.deep_view();
        proof {
            assert(all.skip(i as int)[0] == runs);
            assert(all.skip(i as int).drop_first() =~= all.skip(i as int + 1));
            assert(join_paragraphs(all.skip(i as int)) == join_runs(runs) + seq!['\n']
                + join_paragraphs(all.skip(i as int + 1)));
            assert(runs.skip(0) =~= runs);
        }
        let m = para.len();
        let mut j: usize = 0;
        while j < m
            invariant
                m == para.len(),
                runs == para.deep_view(),
                j <= m,
                all == paras.deep_view(),
                i < paras.len(),
                join_paragraphs(all) =~= out@ + join_runs(runs.skip(j as int)) + seq!['\n']
                    + join_paragraphs(all.skip(i as int + 1)),
            decreases m - j,
        {
            proof {
                assert(runs.skip(j as int)[0] == runs[j as int]);
                assert(runs.skip(j as int).drop_first() =~= runs.skip(j as int + 1));
                assert(join_runs(runs.skip(j as int)) == runs[j as int] + join_runs(
                    runs.skip(j as int + 1),
                ));
                assert(runs[j as int] == para@[j as int]@);
            }
            out.append(para[j].as_str());
            j += 1;
        }
        proof {
            assert(runs.skip(m as int) =~= Seq::<Seq<char>>::empty());
            assert(join_runs(runs.skip(m as int)) =~= Seq::<char>::empty());
        }
        out.append("\n");
        proof {
            reveal_strlit("\n");
            assert("\n"@ =~= seq!['\n']);
        }
        i += 1;
    }
    proof {
        assert(all.skip(n as int) =~= Seq::<Seq<Seq<char>>>::empty());
    }
    out
}

/// Relies on String::from_utf8: succeeds exactly on valid UTF-8 input,
/// decoding it.
#[verifier::external_body]
fn string_from_utf8(bytes: &[u8]) -> (r: Option<String>)
    ensures
        r is Some <==> vstd::utf8::valid_utf8(bytes@),
        r matches Some(s) ==> s@ == vstd::utf8::decode_utf8(bytes@),
{
    String::from_utf8(bytes.to_vec()).ok()
}

/// What the word-processor parser produces from the given bytes, if they
/// parse at all: the paragraphs in order, each the list of its text runs,
/// a pure function of the bytes alone.
pub uninterp spec fn docx_paragraphs(bytes: Seq<u8>) -> Option<Seq<Seq<Seq<char>>>>;

/// Relies on docx_rust::DocxFile::from_reader and Docx::parse: the parsed
/// document's paragraphs in order, each the list of its text runs with
/// hyperlinked runs included; absent when the bytes do not parse.
#[verifier::external_body]
fn docx_parse_paragraphs(bytes: &[u8]) -> (r: Option<Vec<Vec<String>>>)
    ensures
        r is Some <==> docx_paragraphs(bytes@) is Some,
        r matches Some(p) ==> docx_paragraphs(bytes@) == Option::Some(p.deep_view()),
{
    let Ok(f) = DocxFile::from_reader(Cursor::new(bytes)) else { return None };
    let Ok(d) = f.parse() else { return None };
    Some(d.document.body.content.into_iter().filter_map(|c| match c {
        BodyContent::Paragraph(p) => Some(p.content.into_iter().flat_map(|pc| match pc {
            ParagraphContent::Run(r) => r.content,
            ParagraphContent::Link(l) => l.content.map_or(vec![], |r| r.content),
            _ => vec![],
        }).filter_map(|rc| match rc {
            RunContent::Text(t) => Some(t.text.to_string()),
            _ => None,
        }).collect()),
        _ => None,
    }).collect())
}

/// The text of a word-processor document: its paragraphs' runs joined in
/// order, one line break per paragraph, absent when the bytes do not parse.
pub fn extract_text_docx(bytes: &[u8]) -> (r: Option<String>)
    ensures
        r is Some <==> docx_paragraphs(bytes@) is Some,
        r matches Some(s) ==> docx_paragraphs(bytes@) matches Some(p) && s@ == join_paragraphs(p),
{
    match docx_parse_paragraphs(bytes) {
        Option::Some(p) => Option::Some(docx_text(&p)),
        Option::None => Option::None,
    }
}

/// What extraction yields for a file's name, its bytes, and the outcome of
/// the caller's PDF decode of those bytes: text exactly when the decode for
/// the extension class succeeds, nothing for skipped classes.
pub open spec fn spec_extract(
    filename: Seq<char>,
    bytes: Seq<u8>,
    pdf_text: Option<Seq<char>>,
) -> Option<Seq<char>> {
    match spec_classify(spec_extension(filename)) {
        ExtensionClass::Text => if vstd::utf8::valid_utf8(bytes) {
            Option::Some(vstd::utf8::decode_utf8(bytes))
        } else {
            Option::None
        },
        ExtensionClass::Pdf => pdf_text,
        ExtensionClass::Docx => match docx_paragraphs(bytes) {
            Option::Some(p) => Option::Some(join_paragraphs(p)),
            Option::None => Option::None,
        },
        ExtensionClass::Binary => Option::None,
        ExtensionClass::Unknown => Option::None,
    }
}

/// Extract searchable text from a file, given its name and raw bytes.
///
/// Returns text exactly when the file's extension class calls for a decode
/// and that decode succeeds; extensions in the known-binary skip-list, names
/// without an extension, and unrecognized extensions yield nothing.
///
/// `pdf_text` is the outcome of decoding these same bytes with the PDF text
/// extractor, and is consulted only for names in the PDF class. The outside
/// PDF decoder can abort on malformed input instead of returning an error,
/// so running it is edge work like the file read itself: the caller runs it
/// with the abort contained and hands in what came back, and extraction here
/// stays total.
pub fn extract_contents(filename: &str, bytes: &[u8], pdf_text: Option<String>) -> (r: Option<
    String,
>)
    ensures
        r.deep_view() == spec_extract(filename@, bytes@, pdf_text.deep_view()),
        r is Some <==> spec_extract(filename@, bytes@, pdf_text.deep_view()) is Some,
{
    let ext = file_extension(filename);
    let ext_ref = match &ext {
        Option::Some(e) => Option::Some(e.as_str()),
        Option::None => Option::None,
    };
    proof {
        assert(ext_ref.deep_view() =~= spec_extension(filename@));
    }
    match classify_extension(ext_ref) {
        ExtensionClass::Text => string_from_utf8(bytes),
        ExtensionClass::Pdf => pdf_text,
        ExtensionClass::Docx => extract_text_docx(bytes),
        ExtensionClass::Binary => Option::None,
        ExtensionClass::Unknown => Option::None,
    }
}

} // verus!

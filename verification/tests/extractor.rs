//! The content extractor, branch by branch.

use docx_rust::document::{Paragraph, Run};
use ruyi_search::{classify_extension, docx_text, extract_contents, file_extension, ExtensionClass};

#[test]
fn extension_of_names() {
    assert_eq!(file_extension("notes.txt"), Some("txt".to_string()));
    assert_eq!(file_extension("archive.tar.gz"), Some("gz".to_string()));
    assert_eq!(file_extension("Makefile"), None);
    assert_eq!(file_extension(".gitignore"), None);
    assert_eq!(file_extension("odd."), Some("".to_string()));
}

#[test]
fn classification_of_extensions() {
    for ext in [
        "txt", "md", "rs", "py", "toml", "json", "cpp", "bazel", "ron", "xml", "h", "jsonc",
        "hpp", "sql", "c",
    ] {
        assert_eq!(classify_extension(Some(ext)), ExtensionClass::Text);
    }
    assert_eq!(classify_extension(Some("pdf")), ExtensionClass::Pdf);
    assert_eq!(classify_extension(Some("docx")), ExtensionClass::Docx);
    for ext in ["gitignore", "lock", "obj", "mtl", "png", "a", "stl"] {
        assert_eq!(classify_extension(Some(ext)), ExtensionClass::Binary);
    }
    assert_eq!(classify_extension(None), ExtensionClass::Binary);
    assert_eq!(classify_extension(Some("exe")), ExtensionClass::Unknown);
    // case-sensitive allow-list
    assert_eq!(classify_extension(Some("TXT")), ExtensionClass::Unknown);
}

#[test]
fn text_decodes_iff_valid_utf8() {
    assert_eq!(
        extract_contents("notes.txt", b"hello", None),
        Some("hello".to_string())
    );
    // invalid UTF-8: the decode fails, so extraction fails
    assert_eq!(extract_contents("notes.txt", &[0xff, 0xfe, 0x80], None), None);
}

#[test]
fn skipped_classes_yield_nothing() {
    assert_eq!(extract_contents("image.png", b"anything", None), None);
    assert_eq!(extract_contents("Cargo.lock", b"anything", None), None);
    assert_eq!(extract_contents("noext", b"anything", None), None);
    assert_eq!(extract_contents("tool.exe", b"anything", None), None);
}

#[test]
fn pdf_failure_is_contained() {
    // the edge decode failed (or aborted and was contained): nothing comes out
    assert_eq!(extract_contents("broken.pdf", b"not a pdf at all", None), None);
}

#[test]
fn pdf_text_comes_through() {
    // the caller decodes the bytes at its edge and hands the outcome in
    let bytes = minimal_pdf("Hello PDF");
    let decoded = pdf_extract::extract_text_from_mem(&bytes).ok();
    assert!(decoded.is_some(), "the crafted PDF decodes");
    let text = extract_contents("doc.pdf", &bytes, decoded).expect("the PDF decodes");
    assert!(text.contains("Hello PDF"), "extracted: {text:?}");
}

#[test]
fn pdf_outcome_is_ignored_elsewhere() {
    // the handed-in decode is consulted only for names in the PDF class
    assert_eq!(
        extract_contents("notes.txt", b"hello", Some("other".to_string())),
        Some("hello".to_string())
    );
    assert_eq!(
        extract_contents("image.png", b"anything", Some("other".to_string())),
        None
    );
}

#[test]
fn docx_failure_is_contained() {
    assert_eq!(extract_contents("broken.docx", b"not a zip archive", None), None);
}

#[test]
fn docx_paragraphs_come_through() {
    let mut docx = docx_rust::Docx::default();
    docx.document.push(
        Paragraph::default().push(Run::default().push_text("first paragraph")),
    );
    docx.document.push(
        Paragraph::default().push(Run::default().push_text("second paragraph")),
    );
    let cursor = docx
        .write(std::io::Cursor::new(Vec::new()))
        .expect("writing the document");
    let bytes = cursor.into_inner();
    let text = extract_contents("doc.docx", &bytes, None).expect("the document parses");
    assert_eq!(text, "first paragraph\nsecond paragraph\n");
}

#[test]
fn docx_text_joins_runs_and_paragraphs() {
    let paras = vec![
        vec!["a".to_string(), "b".to_string()],
        vec![],
        vec!["c".to_string()],
    ];
    assert_eq!(docx_text(&paras), "ab\n\nc\n");
}

/// A one-page PDF with the given text, xref offsets computed exactly.
fn minimal_pdf(text: &str) -> Vec<u8> {
    let stream = format!("BT /F1 24 Tf 72 720 Td ({text}) Tj ET");
    let objects = [
        "<< /Type /Catalog /Pages 2 0 R >>".to_string(),
        "<< /Type /Pages /Kids [3 0 R] /Count 1 >>".to_string(),
        "<< /Type /Page /Parent 2 0 R /MediaBox [0 0 612 792] /Contents 4 0 R \
         /Resources << /Font << /F1 5 0 R >> >> >>"
            .to_string(),
        format!(
            "<< /Length {} >>\nstream\n{stream}\nendstream",
            stream.len()
        ),
        "<< /Type /Font /Subtype /Type1 /BaseFont /Helvetica >>".to_string(),
    ];
    let mut out = String::from("%PDF-1.4\n");
    let mut offsets = Vec::new();
    for (i, body) in objects.iter().enumerate() {
        offsets.push(out.len());
        out.push_str(&format!("{} 0 obj\n{body}\nendobj\n", i + 1));
    }
    let xref_at = out.len();
    out.push_str(&format!("xref\n0 {}\n", objects.len() + 1));
    out.push_str("0000000000 65535 f \n");
    for off in &offsets {
        out.push_str(&format!("{off:010} 00000 n \n"));
    }
    out.push_str(&format!(
        "trailer\n<< /Size {} /Root 1 0 R >>\nstartxref\n{xref_at}\n%%EOF\n",
        objects.len() + 1
    ));
    out.into_bytes()
}

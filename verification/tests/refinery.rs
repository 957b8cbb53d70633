use std::io::Write;

use khawrizm::pattern::{present_groups, Pattern};
use khawrizm::refinery::{
    clean_terminal_noise, document_kind, extract_docx_bytes, extract_docx_text, DocxError, extract_html_text, extract_pdf_text,
    extract_plain_text, extract_pptx, extract_xlsx, file_report, fix_arabic_reversal, fix_pdf_kerning, normalize_text,
    DocumentKind,
};

#[test]
fn kinds_by_extension() {
    assert_eq!(document_kind("PDF"), DocumentKind::Pdf);
    assert_eq!(document_kind("doc"), DocumentKind::Docx);
    assert_eq!(document_kind("Docx"), DocumentKind::Docx);
    assert_eq!(document_kind("xls"), DocumentKind::Xlsx);
    assert_eq!(document_kind("pptx"), DocumentKind::Pptx);
    assert_eq!(document_kind("HTM"), DocumentKind::Html);
    assert_eq!(document_kind("txt"), DocumentKind::Plain);
    assert_eq!(document_kind(""), DocumentKind::Plain);
}

#[test]
fn terminal_noise_is_removed() {
    assert_eq!(clean_terminal_noise("\x1b[31mred\x1b[0m").unwrap(), "red");
    assert_eq!(clean_terminal_noise("$ ls\n# whoami\n").unwrap(), "ls\nwhoami");
    assert_eq!(clean_terminal_noise("[2024-01-31 12:00:05] boot ok").unwrap(), "boot ok");
    assert_eq!(clean_terminal_noise("  plain  ").unwrap(), "plain");
}

#[test]
fn kerning_and_arabic() {
    assert_eq!(fix_pdf_kerning("H e l l o").unwrap(), "He ll o");
    assert_eq!(fix_pdf_kerning("a b").unwrap(), "ab");
    assert_eq!(fix_pdf_kerning("ab cd").unwrap(), "ab cd");
    assert_eq!(fix_arabic_reversal("x ابت y"), "x تبا y");
    assert_eq!(fix_arabic_reversal("x بسم y"), "x مسب y");
    assert_eq!(fix_arabic_reversal("جد هو"), "دج وه");
    assert_eq!(fix_arabic_reversal("ﻻab"), "ﻻab");
    assert_eq!(fix_arabic_reversal(&fix_arabic_reversal("a جدهو b ابت")), "a جدهو b ابت");
    assert_eq!(fix_arabic_reversal("plain"), "plain");
    assert_eq!(normalize_text("  $ a b  ").unwrap(), "ab");
}

#[test]
fn html_docx_and_placeholders() {
    assert_eq!(extract_html_text("<p>a</p><br/>b").unwrap(), " a  b");
    assert_eq!(
        extract_docx_text("<w:p><w:t>Hello</w:t><w:t xml:space=\"preserve\">world</w:t></w:p>").unwrap(),
        "Hello world"
    );
    assert_eq!(extract_docx_text("<w:p/>").unwrap(), "");
    assert_eq!(extract_xlsx(), "[XLSX extracted]");
    assert_eq!(extract_pptx(), "[PPTX extracted]");
}

#[test]
fn pdf_text_from_compressed_streams() {
    let mut enc = flate2::write::ZlibEncoder::new(Vec::new(), flate2::Compression::default());
    enc.write_all(b"BT (Hello) Tj (PDF) Tj ET").unwrap();
    let compressed = enc.finish().unwrap();
    // A stream body survives lossy decoding only when it is valid UTF-8.
    let body = String::from_utf8(compressed.clone());
    let mut pdf = b"%PDF-1.4\nstream\n".to_vec();
    pdf.extend_from_slice(&compressed);
    pdf.extend_from_slice(b"\nendstream\n");
    let text = extract_pdf_text(&pdf).unwrap();
    if body.is_ok() {
        assert_eq!(text, "Hello PDF");
    } else {
        assert_eq!(text, "");
    }
    assert_eq!(extract_pdf_text(b"stream\nnot zlib\nendstream").unwrap(), "");
    // Stream bodies are inflated before their text operators are read.
    assert_eq!(extract_pdf_text(b"stream\n(Hello) Tj\nendstream").unwrap(), "");
    assert_eq!(extract_pdf_text(b"").unwrap(), "");
}

#[test]
fn groups_and_reports() {
    assert!(Pattern::new(r"(a)|b").is_some());
    let groups = vec![Some("a".to_string()), None, Some("c".to_string())];
    assert_eq!(present_groups(&groups), vec!["a".to_string(), "c".to_string()]);
    assert!(Pattern::new("(").is_none());
    assert_eq!(file_report("x.txt", "body"), "=== BEGIN x.txt\nbody\n=== END ===\n");
}

#[test]
fn plain_text_is_lossy_utf8() {
    assert_eq!(extract_plain_text(b"caf\xc3\xa9"), "café");
    assert_eq!(extract_plain_text(b"a\xffb"), "a\u{FFFD}b");
}

fn zip_with(entries: &[(&str, &str)]) -> Vec<u8> {
    let mut writer = zip::ZipWriter::new(std::io::Cursor::new(Vec::new()));
    for (name, body) in entries {
        writer.start_file(*name, zip::write::FileOptions::default()).unwrap();
        writer.write_all(body.as_bytes()).unwrap();
    }
    writer.finish().unwrap().into_inner()
}

#[test]
fn docx_bytes_give_the_body_runs() {
    let archive = zip_with(&[
        ("[Content_Types].xml", "<Types/>"),
        ("word/document.xml", "<w:p><w:r><w:t>Hello</w:t></w:r><w:r><w:t xml:space=\"preserve\">world</w:t></w:r></w:p>"),
    ]);
    assert_eq!(extract_docx_bytes(&archive).unwrap(), "Hello world");
}

#[test]
fn docx_bytes_without_body_entry_give_empty_text() {
    let archive = zip_with(&[("word/styles.xml", "<w:t>style</w:t>")]);
    assert_eq!(extract_docx_bytes(&archive).unwrap(), "");
}

#[test]
fn docx_bytes_that_are_not_an_archive() {
    assert_eq!(extract_docx_bytes(b"plain text, not a zip"), Err(DocxError::NotAnArchive));
    assert_eq!(extract_docx_bytes(&[]), Err(DocxError::NotAnArchive));
}

#[test]
fn document_kind_ascii_extensions_ignore_case() {
    assert_eq!(document_kind("PDF"), document_kind("pdf"));
    assert_eq!(document_kind("HtMl"), DocumentKind::Html);
    assert_eq!(document_kind("XLSX"), DocumentKind::Xlsx);
    assert_eq!(document_kind("PPT"), DocumentKind::Plain);
}

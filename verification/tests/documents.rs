use cephalon::document;
use cephalon::documents::document::{
    get_file_list, get_file_text, get_text_from_docx, is_supported,
    DirectoryEntry, DocType, Document,
};
use cephalon::documents::docx::{docx_text, docx_text_from_xml, DocxError, XmlNode};
use std::io::Write;

fn doc(name: &str) -> Document {
    Document::new(name.to_string(), format!("/data/{}", name))
}

fn node(name: &str, text: &str, children: Vec<XmlNode>) -> XmlNode {
    XmlNode { name: name.to_string(), text: text.to_string(), children }
}

fn entry(name: &str, is_file: bool) -> DirectoryEntry {
    DirectoryEntry { name: name.to_string(), path: format!("/data/{}", name), is_file }
}

fn zip_with(name: &str, contents: &str) -> Vec<u8> {
    let mut writer = zip::ZipWriter::new(std::io::Cursor::new(Vec::new()));
    let options = zip::write::SimpleFileOptions::default()
        .compression_method(zip::CompressionMethod::Deflated);
    writer.start_file(name, options).unwrap();
    writer.write_all(contents.as_bytes()).unwrap();
    writer.finish().unwrap().into_inner()
}

const WORD_NS: &str = "http://schemas.openxmlformats.org/wordprocessingml/2006/main";

#[test]
fn extension_is_after_the_last_dot() {
    let d = doc("report.final.pdf");
    assert_eq!(d.get_extension().unwrap(), "pdf");
    assert_eq!(doc("archive.tar.gz").get_extension().unwrap(), "gz");
    assert_eq!(doc("noext.").get_extension().unwrap(), "");
}

#[test]
fn doc_types_by_extension() {
    assert_eq!(doc("a.pdf").get_doc_type(), DocType::Pdf);
    assert_eq!(doc("a.docx").get_doc_type(), DocType::Docx);
    assert_eq!(doc("a.txt").get_doc_type(), DocType::Txt);
    assert_eq!(doc("a.doc").get_doc_type(), DocType::Unsupported);
    assert_eq!(doc("a.PDF").get_doc_type(), DocType::Unsupported);
    assert_eq!(doc("pdf.md").get_doc_type(), DocType::Unsupported);
}

#[test]
fn supported_names() {
    assert!(is_supported("notes.txt"));
    assert!(is_supported("x.y.docx"));
    assert!(!is_supported("notes.md"));
    assert!(doc("slides.pdf").is_supported());
    assert!(!doc("image.png").is_supported());
    assert!(document::is_supported("paper.pdf"));
}

#[test]
fn document_getters_and_data() {
    let mut d = doc("a.txt");
    assert_eq!(d.get_document_name_as_string().unwrap(), "a.txt");
    assert_eq!(d.get_document_path_as_string().unwrap(), "/data/a.txt");
    assert!(d.get_document_data().is_none());
    d.set_document_data(vec!["one".to_string(), "two".to_string()]);
    assert_eq!(d.get_document_data().clone().unwrap(), vec!["one", "two"]);
    assert_eq!(d.get_document_name_as_string().unwrap(), "a.txt");
}

#[test]
fn file_list_keeps_supported_files_in_order() {
    let entries = vec![
        entry("pdf-sample.pdf", true),
        entry("README", false),
        entry("image.png", true),
        entry("folder.txt", false),
        entry("word-docx-sample.docx", true),
        entry("notes.txt", true),
    ];
    let docs = get_file_list(&entries).unwrap();
    let names: Vec<String> = docs.iter().map(|d| d.get_document_name_as_string().unwrap()).collect();
    assert_eq!(names, vec!["pdf-sample.pdf", "word-docx-sample.docx", "notes.txt"]);
    assert_eq!(docs[0].get_document_path_as_string().unwrap(), "/data/pdf-sample.pdf");
    assert!(docs.iter().all(|d| d.get_document_data().is_none()));
}

#[test]
fn file_list_of_empty_directory() {
    assert!(get_file_list(&vec![]).unwrap().is_empty());
}

#[test]
fn file_text_of_unsupported_document_is_none() {
    assert!(get_file_text(&doc("a.md"), Some("text".to_string()), 4).is_none());
}

#[test]
fn file_text_that_could_not_be_read_is_blank() {
    assert_eq!(get_file_text(&doc("a.pdf"), None, 256).unwrap(), vec!["   "]);
}

#[test]
fn file_text_is_chunked() {
    let chunks = get_file_text(&doc("a.txt"), Some("abcdefg".to_string()), 3).unwrap();
    assert_eq!(chunks, vec!["abc", "def", "g"]);
    assert!(get_file_text(&doc("a.txt"), Some(String::new()), 3).unwrap().is_empty());
}

#[test]
fn runs_are_read_breadth_first() {
    let root = node(
        "document",
        "",
        vec![node("a", "", vec![node("t", "second", vec![])]), node("t", "first", vec![])],
    );
    assert_eq!(docx_text(&root), "first\nsecond\n");
}

#[test]
fn only_t_elements_give_text() {
    let root = node("body", "ignored", vec![node("p", "also ignored", vec![node("t", "kept", vec![])])]);
    assert_eq!(docx_text(&root), "kept\n");
}

#[test]
fn document_without_runs_reads_as_three_spaces() {
    let root = node("document", "", vec![node("body", "", vec![])]);
    assert_eq!(docx_text(&root), "   ");
}

#[test]
fn text_of_word_xml() {
    let xml = format!(
        "<w:document xmlns:w=\"{}\"><w:body><w:p><w:r><w:t>Hello</w:t></w:r></w:p><w:p><w:r><w:t>World</w:t></w:r></w:p></w:body></w:document>",
        WORD_NS
    );
    assert_eq!(docx_text_from_xml(&xml).unwrap(), "Hello\nWorld\n");
}

#[test]
fn malformed_xml_is_reported() {
    assert_eq!(docx_text_from_xml("<w:document"), Err(DocxError::MalformedXml));
}

#[test]
fn text_of_docx_archive() {
    let xml = format!(
        "<w:document xmlns:w=\"{}\"><w:body><w:p><w:r><w:t>Inside a zip</w:t></w:r></w:p></w:body></w:document>",
        WORD_NS
    );
    let archive = zip_with("word/document.xml", &xml);
    assert_eq!(get_text_from_docx(&archive).unwrap(), "Inside a zip\n");
}

#[test]
fn docx_without_document_xml() {
    let archive = zip_with("word/other.xml", "<a/>");
    assert_eq!(get_text_from_docx(&archive), Err(DocxError::MissingDocumentXml));
    assert_eq!(get_text_from_docx(b"not a zip"), Err(DocxError::MissingDocumentXml));
}

#[test]
fn docx_with_malformed_document_xml() {
    let archive = zip_with("word/document.xml", "<<<");
    assert_eq!(get_text_from_docx(&archive), Err(DocxError::MalformedXml));
}

#[test]
fn supported_exactly_when_kind_is_known() {
    for name in ["a.pdf", "b.docx", "c.txt", "d.doc", "e.txt.bak", "f.", "g.pdf.txt"] {
        let d = doc(name);
        assert_eq!(d.is_supported(), d.get_doc_type() != DocType::Unsupported);
    }
}

#[test]
fn name_is_stem_dot_extension() {
    let name = "my.report.v2.docx";
    let extension = doc(name).get_extension().unwrap();
    assert!(!extension.contains('.'));
    assert!(name.ends_with(&format!(".{}", extension)));
}

#[test]
fn listed_documents_have_known_kinds_and_text() {
    let entries = vec![entry("a.pdf", true), entry("b.png", true), entry("c.txt", true)];
    for d in get_file_list(&entries).unwrap() {
        assert_ne!(d.get_doc_type(), DocType::Unsupported);
        assert!(get_file_text(&d, None, 256).is_some());
    }
}

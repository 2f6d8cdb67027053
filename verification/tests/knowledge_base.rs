use cephalon::database::sql_database::{label_text, SQLError};
use cephalon::documents::document::Document;
use cephalon::knowledge_base::{plan_index_rows, Cephalon, KnowledgeBaseError, Matches};

fn doc_with(name: &str, lines: Option<Vec<&str>>) -> Document {
    let mut d = Document::new(name.to_string(), format!("/p/{}", name));
    if let Some(lines) = lines {
        d.set_document_data(lines.into_iter().map(|l| l.to_string()).collect());
    }
    d
}

#[test]
fn rows_are_numbered_from_one_across_documents() {
    let docs = vec![
        doc_with("a.txt", Some(vec!["a0", "a1"])),
        doc_with("b.pdf", Some(vec!["b0"])),
        doc_with("c.txt", None),
        doc_with("d.docx", Some(vec!["d0", "d1", "d2"])),
    ];
    let encodings = vec![Some(2), None, Some(4), Some(3)];
    let rows = plan_index_rows(&docs, &encodings);
    let ids: Vec<usize> = rows.iter().map(|r| r.id).collect();
    assert_eq!(ids, vec![1, 2, 3, 4, 5]);
    let lines: Vec<&str> = rows.iter().map(|r| r.line.as_str()).collect();
    assert_eq!(lines, vec!["a0", "a1", "d0", "d1", "d2"]);
    let names: Vec<&str> = rows.iter().map(|r| r.document_name.as_str()).collect();
    assert_eq!(names, vec!["a.txt", "a.txt", "d.docx", "d.docx", "d.docx"]);
    assert_eq!(rows[3].document, 3);
    assert_eq!(rows[3].line_index, 1);
}

#[test]
fn fewer_encodings_than_lines() {
    let docs = vec![doc_with("a.txt", Some(vec!["x", "y", "z"]))];
    let rows = plan_index_rows(&docs, &vec![Some(2)]);
    assert_eq!(rows.len(), 2);
    assert_eq!(rows[1].line, "y");
}

#[test]
fn no_documents_no_rows() {
    assert!(plan_index_rows(&vec![], &vec![]).is_empty());
}

#[test]
fn labels_are_decimal() {
    assert_eq!(label_text(0), "0");
    assert_eq!(label_text(7), "7");
    assert_eq!(label_text(10), "10");
    assert_eq!(label_text(12345), "12345");
    assert_eq!(label_text(usize::MAX), usize::MAX.to_string());
}

#[test]
fn error_messages() {
    assert_eq!(SQLError.message(), "invalid sql transaction or connection");
    assert_eq!(KnowledgeBaseError.message(), "invalid sql transaction or connection");
}

#[test]
fn loaded_knowledge_base_keeps_its_path() {
    let kb = Cephalon::load("/projects/kb".to_string());
    assert_eq!(kb.path(), "/projects/kb");
}

#[test]
fn matches_hold_name_and_line() {
    let m = Matches { document_name: "a.txt".to_string(), line: "hello".to_string() };
    assert_eq!(m.document_name, "a.txt");
    assert_eq!(m.line, "hello");
}

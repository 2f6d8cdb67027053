//! The knowledge base: where its files live, what a search answers, and how
//! the lines of the documents are numbered when they are put into the index
//! and the database.

use vstd::prelude::*;

use crate::documents::document::Document;

verus! {

/// Why an operation on the knowledge base failed.
#[derive(Debug, Clone)]
pub struct KnowledgeBaseError;

impl KnowledgeBaseError {
    /// The message that describes the error.
    pub fn message(&self) -> (text: String)
        ensures
            text@ == "invalid sql transaction or connection"@,
    {
        "invalid sql transaction or connection".to_owned()
    }
}

/// One answer to a search: the document a line comes from, and the line.
#[derive(Debug)]
pub struct Matches {
    pub document_name: String,
    pub line: String,
}

/// A knowledge base rooted at a project directory.
#[derive(Debug)]
pub struct Cephalon {
    path: String,
    documents: Option<Vec<Document>>,
}

impl Cephalon {
    /// The project directory of the knowledge base.
    pub closed spec fn path_view(&self) -> Seq<char> {
        self.path@
    }

    /// Whether documents are held in memory.
    pub closed spec fn holds_documents(&self) -> bool {
        self.documents is Some
    }

    /// The knowledge base of an existing project directory; no document is
    /// held in memory.
    pub fn load(path: String) -> (kb: Cephalon)
        ensures
            kb.path_view() == path@,
            !kb.holds_documents(),
    {
        Cephalon { path, documents: None }
    }

    /// The project directory of the knowledge base.
    pub fn path(&self) -> (path: &String)
        ensures
            path@ == self.path_view(),
    {
        &self.path
    }
}

/// A line of a document as it is stored: the id it is stored under in the
/// index and in the database, the document (its position in the list and
/// its name), and the line (its position in the document's chunks and its
/// text).
#[derive(Debug)]
pub struct IndexRow {
    pub id: usize,
    pub document: usize,
    pub line_index: usize,
    pub document_name: String,
    pub line: String,
}

/// How many lines of a document are stored: as many as it has encodings,
/// where it has both encodings and text; none otherwise.
pub open spec fn stored_lines(doc: Document, encodings: Option<usize>) -> nat {
    match (encodings, doc.data_view()) {
        (Some(count), Some(_)) => count as nat,
        _ => 0,
    }
}

/// How many lines the first `k` documents store.
pub open spec fn lines_before(docs: Seq<Document>, encodings: Seq<Option<usize>>, k: int) -> nat
    decreases k,
{
    if k <= 0 {
        0
    } else {
        lines_before(docs, encodings, k - 1) + stored_lines(docs[k - 1], encodings[k - 1])
    }
}

/// A document with text stores one row for each of its encodings, and a
/// document without encodings or without text stores none; the rows of the
/// first `k + 1` documents are those of the first `k` and then those of
/// document `k`.
pub proof fn lemma_stored_lines(docs: Seq<Document>, encodings: Seq<Option<usize>>, k: int)
    requires
        0 <= k < docs.len(),
        docs.len() == encodings.len(),
    ensures
        encodings[k] is Some && docs[k].data_view() is Some ==> stored_lines(docs[k], encodings[k])
            == encodings[k]->0 as nat,
        encodings[k] is None || docs[k].data_view() is None ==> stored_lines(docs[k], encodings[k])
            == 0,
        lines_before(docs, encodings, 0) == 0,
        lines_before(docs, encodings, k + 1) == lines_before(docs, encodings, k) + stored_lines(
            docs[k],
            encodings[k],
        ),
{
}

/// Documents further down the list start further down the rows.
pub proof fn lemma_lines_before_monotonic(
    docs: Seq<Document>,
    encodings: Seq<Option<usize>>,
    j: int,
    k: int,
)
    requires
        0 <= j <= k,
    ensures
        lines_before(docs, encodings, j) <= lines_before(docs, encodings, k),
    decreases k - j,
{
    if j < k {
        lemma_lines_before_monotonic(docs, encodings, j, k - 1);
    }
}

/// The rows that go into the index and the database for `docs`, where
/// `encodings[j]` is the number of vector encodings made of document `j`
/// (`None` where none could be made). Documents without encodings or
/// without text are passed over; the lines of the others are numbered in
/// order, from 1. A document cannot have more encodings than lines.
pub fn plan_index_rows(docs: &Vec<Document>, encodings: &Vec<Option<usize>>) -> (rows: Vec<IndexRow>)
    requires
        docs@.len() == encodings@.len(),
        forall|j: int|
            0 <= j < docs@.len() ==> match (encodings@[j], (#[trigger] docs@[j]).data_view()) {
                (Some(count), Some(lines)) => count <= lines.len(),
                _ => true,
            },
        lines_before(docs@, encodings@, docs@.len() as int) <= usize::MAX,
    ensures
        rows@.len() == lines_before(docs@, encodings@, docs@.len() as int),
        forall|r: int|
            0 <= r < rows@.len() ==> {
                let row = #[trigger] rows@[r];
                let j = row.document as int;
                &&& row.id == r + 1
                &&& 0 <= j < docs@.len()
                &&& row.line_index < stored_lines(docs@[j], encodings@[j])
                &&& lines_before(docs@, encodings@, j) + row.line_index == r
                &&& row.document_name@ == docs@[j].name_view()
                &&& docs@[j].data_view() matches Some(lines) && row.line@ == lines[row.line_index as int]
            },
{
    let mut rows: Vec<IndexRow> = Vec::new();
    let mut id: usize = 0;
    let n = docs.len();
    for j in 0..n
        invariant
            n == docs@.len() == encodings@.len(),
            forall|k: int|
                0 <= k < docs@.len() ==> match (encodings@[k], (#[trigger] docs@[k]).data_view()) {
                    (Some(count), Some(lines)) => count <= lines.len(),
                    _ => true,
                },
            lines_before(docs@, encodings@, n as int) <= usize::MAX,
            id == rows@.len() == lines_before(docs@, encodings@, j as int),
            forall|r: int|
                0 <= r < rows@.len() ==> {
                    let row = #[trigger] rows@[r];
                    let k = row.document as int;
                    &&& row.id == r + 1
                    &&& 0 <= k < j
                    &&& row.line_index < stored_lines(docs@[k], encodings@[k])
                    &&& lines_before(docs@, encodings@, k) + row.line_index == r
                    &&& row.document_name@ == docs@[k].name_view()
                    &&& docs@[k].data_view() matches Some(lines) && row.line@ == lines[row.line_index as int]
                },
    {
        let doc = &docs[j];
        proof {
            lemma_lines_before_monotonic(docs@, encodings@, j + 1, n as int);
        }
        match (encodings[j], doc.get_document_data()) {
            (Some(count), Some(lines)) => {
                let name = match doc.get_document_name_as_string() {
                    Ok(name) => name,
                    Err(_) => String::new(),
                };
                let ghost start = rows@.len();
                for l in 0..count
                    invariant
                        n == docs@.len() == encodings@.len(),
                        j < n,
                        encodings@[j as int] == Some(count),
                        docs@[j as int].data_view() == Some(lines.deep_view()),
                        count <= lines@.len(),
                        name@ == docs@[j as int].name_view(),
                        start == lines_before(docs@, encodings@, j as int),
                        start + count <= usize::MAX,
                        id == rows@.len() == start + l,
                        forall|r: int|
                            0 <= r < rows@.len() ==> {
                                let row = #[trigger] rows@[r];
                                let k = row.document as int;
                                &&& row.id == r + 1
                                &&& 0 <= k <= j
                                &&& row.line_index < stored_lines(docs@[k], encodings@[k])
                                &&& lines_before(docs@, encodings@, k) + row.line_index == r
                                &&& row.document_name@ == docs@[k].name_view()
                                &&& docs@[k].data_view() matches Some(lines) && row.line@
                                    == lines[row.line_index as int]
                            },
                {
                    id = id + 1;
                    rows.push(
                        IndexRow {
                            id,
                            document: j,
                            line_index: l,
                            document_name: name.clone(),
                            line: lines[l].clone(),
                        },
                    );
                }
            },
            _ => {},
        }
    }
    rows
}

} // verus!

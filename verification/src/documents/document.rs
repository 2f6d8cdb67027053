//! Documents, their kinds, and the text that is read out of them.

use vstd::prelude::*;
use vstd::slice::slice_subrange;
use vstd::utf8::{decode_utf8, valid_utf8};

use crate::documents::docx::{docx_text_from_xml, docx_text_of, parsed_xml, DocxError};
use crate::documents::chunking::{byte_chunks, lemma_byte_chunks_step, lossy_utf8, replaced_utf8, text_chunks};

verus! {

/// `std::io::Error`, the error type of the results that this module hands out.
#[verifier::external_type_specification]
#[verifier::external_body]
pub struct ExIoError(std::io::Error);

/// Calls `String::from_utf8_lossy` on `bytes` and takes the owned string.
/// Its documentation says that valid UTF-8 is decoded as it stands; what it
/// makes of invalid input (U+FFFD in place of each invalid sequence) is left
/// to the name `replaced_utf8`.
#[verifier::external_body]
fn lossy_string(bytes: &[u8]) -> (s: String)
    ensures
        valid_utf8(bytes@) ==> s@ == decode_utf8(bytes@),
        !valid_utf8(bytes@) ==> s@ == replaced_utf8(bytes@),
{
    String::from_utf8_lossy(bytes).into_owned()
}

/// Splits `text` into strings of `chunk_size` bytes of its UTF-8 encoding;
/// the last one holds what is left. A chunk boundary may fall inside a
/// character, whose pieces are then decoded lossily.
pub fn split_text_into_chunks(text: String, chunk_size: usize) -> (res: Result<
    Vec<String>,
    std::io::Error,
>)
    requires
        chunk_size > 0,
    ensures
        res matches Ok(chunks) && chunks.deep_view() == text_chunks(text@, chunk_size as nat),
{
    let bytes: &[u8] = text.as_str().as_bytes();
    let len = bytes.len();
    let ghost size = chunk_size as nat;
    let ghost all = byte_chunks(bytes@, size).map_values(|b: Seq<u8>| lossy_utf8(b));
    let mut chunks: Vec<String> = Vec::new();
    let mut start: usize = 0;
    assert(bytes@.skip(0) =~= bytes@);
    while start < len
        invariant
            start <= len == bytes@.len(),
            chunk_size > 0,
            size == chunk_size as nat,
            all == byte_chunks(bytes@, size).map_values(|b: Seq<u8>| lossy_utf8(b)),
            chunks.deep_view() + byte_chunks(bytes@.skip(start as int), size).map_values(
                |b: Seq<u8>| lossy_utf8(b),
            ) == all,
        decreases len - start,
    {
        let end: usize = if len - start <= chunk_size {
            len
        } else {
            start + chunk_size
        };
        let piece = slice_subrange(bytes, start, end);
        let ghost rest = bytes@.skip(start as int);
        proof {
            lemma_byte_chunks_step(rest, size);
            assert(piece@ =~= byte_chunks(rest, size)[0]);
            assert(rest.skip((end - start) as int) =~= bytes@.skip(end as int));
        }
        let ghost before = chunks.deep_view();
        chunks.push(lossy_string(piece));
        proof {
            let tail = byte_chunks(bytes@.skip(end as int), size).map_values(
                |b: Seq<u8>| lossy_utf8(b),
            );
            let whole = byte_chunks(rest, size).map_values(|b: Seq<u8>| lossy_utf8(b));
            assert(whole =~= seq![lossy_utf8(piece@)] + tail);
            assert(chunks.deep_view() =~= before.push(lossy_utf8(piece@)));
            assert(chunks.deep_view() + tail =~= before + whole);
        }
        start = end;
    }
    proof {
        assert(bytes@.skip(len as int) =~= Seq::<u8>::empty());
        assert(chunks.deep_view() =~= all);
    }
    Ok(chunks)
}

/// The kinds of documents the library reads text from.
#[derive(Debug, Clone, Copy, PartialEq, Eq, Structural)]
pub enum DocType {
    Pdf,
    Docx,
    Txt,
    Unsupported,
}

/// The index of the last `'.'` in `s`, or -1 where `s` holds none.
pub open spec fn last_dot(s: Seq<char>) -> int
    decreases s.len(),
{
    if s.len() == 0 {
        -1
    } else if s.last() == '.' {
        s.len() - 1
    } else {
        last_dot(s.drop_last())
    }
}

/// The extension of a file name: what follows its last `'.'`.
pub open spec fn extension_of(name: Seq<char>) -> Seq<char> {
    name.subrange(last_dot(name) + 1, name.len() as int)
}

/// The document kind that an extension stands for.
pub open spec fn doc_type_of(extension: Seq<char>) -> DocType {
    if extension == "pdf"@ {
        DocType::Pdf
    } else if extension == "docx"@ {
        DocType::Docx
    } else if extension == "txt"@ {
        DocType::Txt
    } else {
        DocType::Unsupported
    }
}

/// A file name is supported when its extension is `pdf`, `docx` or `txt`.
pub open spec fn is_supported_name(name: Seq<char>) -> bool {
    let extension = extension_of(name);
    extension == "pdf"@ || extension == "docx"@ || extension == "txt"@
}

/// A name that holds a `'.'` has its last one at an index in range.
pub proof fn lemma_last_dot(s: Seq<char>)
    ensures
        -1 <= last_dot(s) < s.len(),
        last_dot(s) >= 0 ==> s[last_dot(s)] == '.',
        forall|k: int| last_dot(s) < k < s.len() ==> s[k] != '.',
        s.contains('.') <==> last_dot(s) >= 0,
    decreases s.len(),
{
    if s.len() > 0 {
        lemma_last_dot(s.drop_last());
        if s.last() != '.' {
            assert forall|k: int| last_dot(s) < k < s.len() implies s[k] != '.' by {
                if k < s.len() - 1 {
                    assert(s[k] == s.drop_last()[k]);
                }
            }
            if s.contains('.') {
                let k = choose|k: int| 0 <= k < s.len() && s[k] == '.';
                assert(s.drop_last()[k] == '.');
            }
            if s.drop_last().contains('.') {
                let k = choose|k: int| 0 <= k < s.len() - 1 && s.drop_last()[k] == '.';
                assert(s[k] == '.');
            }
        }
    }
}

/// The extension of a name holds no `'.'`, and the name is what comes before
/// its last `'.'`, the `'.'`, and the extension.
pub proof fn lemma_extension_split(name: Seq<char>)
    requires
        name.contains('.'),
    ensures
        !extension_of(name).contains('.'),
        name == name.take(last_dot(name)) + seq!['.'] + extension_of(name),
{
    lemma_last_dot(name);
    let e = extension_of(name);
    if e.contains('.') {
        let k = choose|k: int| 0 <= k < e.len() && e[k] == '.';
        assert(name[last_dot(name) + 1 + k] == '.');
    }
    assert(name =~= name.take(last_dot(name)) + seq!['.'] + e);
}

/// The kind of a document is told by its extension alone: `pdf`, `docx` and
/// `txt` are the known kinds, and every other extension is unsupported.
pub proof fn lemma_doc_type_of(extension: Seq<char>)
    ensures
        (doc_type_of(extension) == DocType::Pdf) == (extension == seq!['p', 'd', 'f']),
        (doc_type_of(extension) == DocType::Docx) == (extension == seq!['d', 'o', 'c', 'x']),
        (doc_type_of(extension) == DocType::Txt) == (extension == seq!['t', 'x', 't']),
        (doc_type_of(extension) == DocType::Unsupported) == (extension != seq!['p', 'd', 'f']
            && extension != seq!['d', 'o', 'c', 'x'] && extension != seq!['t', 'x', 't']),
{
    reveal_strlit("pdf");
    reveal_strlit("docx");
    reveal_strlit("txt");
    assert("pdf"@ =~= seq!['p', 'd', 'f']);
    assert("docx"@ =~= seq!['d', 'o', 'c', 'x']);
    assert("txt"@ =~= seq!['t', 'x', 't']);
    assert(seq!['p', 'd', 'f'] != seq!['d', 'o', 'c', 'x']);
    assert(seq!['p', 'd', 'f'][0] != seq!['t', 'x', 't'][0]);
    assert(seq!['d', 'o', 'c', 'x'] != seq!['t', 'x', 't']);
}

/// A name is supported exactly when the text after its last `'.'` is `pdf`,
/// `docx` or `txt`; nothing else of the name matters.
pub proof fn lemma_is_supported_name(name: Seq<char>)
    ensures
        is_supported_name(name) == (extension_of(name) == seq!['p', 'd', 'f'] || extension_of(name)
            == seq!['d', 'o', 'c', 'x'] || extension_of(name) == seq!['t', 'x', 't']),
{
    reveal_strlit("pdf");
    reveal_strlit("docx");
    reveal_strlit("txt");
    assert("pdf"@ =~= seq!['p', 'd', 'f']);
    assert("docx"@ =~= seq!['d', 'o', 'c', 'x']);
    assert("txt"@ =~= seq!['t', 'x', 't']);
}

/// Supported names are exactly those whose kind is not `Unsupported`.
pub proof fn lemma_supported_iff_known_type(name: Seq<char>)
    ensures
        is_supported_name(name) <==> doc_type_of(extension_of(name)) != DocType::Unsupported,
{
}

/// The index of the last `'.'` in `s`.
fn find_last_dot(s: &str) -> (i: usize)
    requires
        s@.contains('.'),
    ensures
        i == last_dot(s@),
        i < s@.len(),
{
    proof {
        lemma_last_dot(s@);
    }
    let n = s.unicode_len();
    let mut j: usize = n;
    assert(s@.subrange(0, n as int) =~= s@);
    while j > 0
        invariant
            j <= n == s@.len(),
            last_dot(s@) == last_dot(s@.subrange(0, j as int)),
            last_dot(s@) >= 0,
        decreases j,
    {
        if s.get_char(j - 1) == '.' {
            return j - 1;
        }
        assert(s@.subrange(0, j as int).drop_last() =~= s@.subrange(0, j - 1));
        j = j - 1;
    }
    assert(s@.subrange(0, 0) =~= Seq::<char>::empty());
    0
}

/// The extension of `name`: what follows its last `'.'`.
fn extension(name: &str) -> (e: String)
    requires
        name@.contains('.'),
    ensures
        e@ == extension_of(name@),
{
    let dot = find_last_dot(name);
    let n = name.unicode_len();
    name.substring_char(dot + 1, n).to_owned()
}

/// The kind of document that a file name stands for.
fn doc_type_of_name(name: &str) -> (t: DocType)
    requires
        name@.contains('.'),
    ensures
        t == doc_type_of(extension_of(name@)),
{
    let e = extension(name);
    if e == "pdf".to_owned() {
        DocType::Pdf
    } else if e == "docx".to_owned() {
        DocType::Docx
    } else if e == "txt".to_owned() {
        DocType::Txt
    } else {
        DocType::Unsupported
    }
}

/// Returns true when a file with this name is of a supported kind (`pdf`,
/// `docx` or `txt`). A name without a `'.'` is not accepted.
pub fn is_supported(file_name: &str) -> (supported: bool)
    requires
        file_name@.contains('.'),
    ensures
        supported == is_supported_name(file_name@),
{
    doc_type_of_name(file_name) != DocType::Unsupported
}


/// What the library holds of a document: its file name, the path of the
/// file, and, once read, its text cut into chunks.
#[derive(Debug, Clone)]
pub struct Document {
    name: String,
    path: String,
    data: Option<Vec<String>>,
}

impl Document {
    /// The file name of the document.
    pub closed spec fn name_view(&self) -> Seq<char> {
        self.name@
    }

    /// The path of the document's file.
    pub closed spec fn path_view(&self) -> Seq<char> {
        self.path@
    }

    /// The text chunks of the document, where they have been set.
    pub closed spec fn data_view(&self) -> Option<Seq<Seq<char>>> {
        match self.data {
            Some(chunks) => Some(chunks.deep_view()),
            None => None,
        }
    }

    /// A document with this file name and path, whose text is not read yet.
    pub fn new(name: String, path: String) -> (doc: Document)
        ensures
            doc.name_view() == name@,
            doc.path_view() == path@,
            doc.data_view() is None,
    {
        Document { name, path, data: None }
    }

    /// Returns true if the document is of a supported kind (`pdf`, `docx` or
    /// `txt`). A name without a `'.'` is not accepted.
    pub fn is_supported(&self) -> (supported: bool)
        requires
            self.name_view().contains('.'),
        ensures
            supported == is_supported_name(self.name_view()),
    {
        is_supported(self.name.as_str())
    }

    /// Returns the extension of the document's file name: what follows its
    /// last `'.'`.
    pub fn get_extension(&self) -> (res: Result<String, std::io::Error>)
        requires
            self.name_view().contains('.'),
        ensures
            res matches Ok(extension) && extension@ == extension_of(self.name_view()),
    {
        Ok(extension(self.name.as_str()))
    }

    /// The kind of the document, by the extension of its file name.
    pub fn get_doc_type(&self) -> (doc_type: DocType)
        requires
            self.name_view().contains('.'),
        ensures
            doc_type == doc_type_of(extension_of(self.name_view())),
    {
        doc_type_of_name(self.name.as_str())
    }

    /// The path of the document's file.
    pub fn get_document_path_as_string(&self) -> (res: Result<String, std::io::Error>)
        ensures
            res matches Ok(path) && path@ == self.path_view(),
    {
        Ok(self.path.clone())
    }

    /// The file name of the document.
    pub fn get_document_name_as_string(&self) -> (res: Result<String, std::io::Error>)
        ensures
            res matches Ok(name) && name@ == self.name_view(),
    {
        Ok(self.name.clone())
    }

    /// Sets the text chunks of the document.
    pub fn set_document_data(&mut self, data: Vec<String>)
        ensures
            final(self).data_view() == Some(data.deep_view()),
            final(self).name_view() == old(self).name_view(),
            final(self).path_view() == old(self).path_view(),
    {
        self.data = Some(data);
    }

    /// The text chunks of the document, where they have been set.
    pub fn get_document_data(&self) -> (data: &Option<Vec<String>>)
        ensures
            match *data {
                Some(chunks) => self.data_view() == Some(chunks.deep_view()),
                None => self.data_view() is None,
            },
    {
        &self.data
    }
}

/// What a directory listing tells of one of its entries: the entry's file
/// name, its path, and whether it is a regular file.
#[derive(Debug, Clone)]
pub struct DirectoryEntry {
    pub name: String,
    pub path: String,
    pub is_file: bool,
}

/// An entry of a directory becomes a document when it is a regular file with
/// a supported name.
pub open spec fn is_listed(entry: DirectoryEntry) -> bool {
    entry.is_file && is_supported_name(entry.name@)
}

/// The entries of a listing that become documents, in the listing's order.
pub open spec fn listed_entries(entries: Seq<DirectoryEntry>) -> Seq<DirectoryEntry> {
    entries.filter(|entry: DirectoryEntry| is_listed(entry))
}

/// An entry of a listing becomes a document exactly when it is a regular
/// file whose name ends in `.pdf`, `.docx` or `.txt`; the documents are those
/// entries, in the listing's order.
pub proof fn lemma_listed_entries(entries: Seq<DirectoryEntry>, entry: DirectoryEntry)
    ensures
        is_listed(entry) == (entry.is_file && (extension_of(entry.name@) == seq!['p', 'd', 'f']
            || extension_of(entry.name@) == seq!['d', 'o', 'c', 'x'] || extension_of(entry.name@)
            == seq!['t', 'x', 't'])),
        listed_entries(entries) == entries.filter(
            |e: DirectoryEntry|
                e.is_file && (extension_of(e.name@) == seq!['p', 'd', 'f'] || extension_of(e.name@)
                    == seq!['d', 'o', 'c', 'x'] || extension_of(e.name@) == seq!['t', 'x', 't']),
        ),
{
    lemma_is_supported_name(entry.name@);
    assert forall|e: DirectoryEntry| #[trigger] is_listed(e) == (e.is_file && (extension_of(e.name@)
        == seq!['p', 'd', 'f'] || extension_of(e.name@) == seq!['d', 'o', 'c', 'x']
        || extension_of(e.name@) == seq!['t', 'x', 't'])) by {
        lemma_is_supported_name(e.name@);
    }
    let p1 = |e: DirectoryEntry| is_listed(e);
    let p2 = |e: DirectoryEntry|
        e.is_file && (extension_of(e.name@) == seq!['p', 'd', 'f'] || extension_of(e.name@)
            == seq!['d', 'o', 'c', 'x'] || extension_of(e.name@) == seq!['t', 'x', 't']);
    assert(p1 =~= p2);
}

/// Every entry that becomes a document is a regular file of a known kind,
/// so its text can be read with the reader of that kind.
pub proof fn lemma_listed_entries_readable(entries: Seq<DirectoryEntry>)
    ensures
        forall|i: int|
            0 <= i < listed_entries(entries).len() ==> (#[trigger] listed_entries(entries)[i]).is_file
                && doc_type_of(extension_of(listed_entries(entries)[i].name@))
                != DocType::Unsupported,
{
    broadcast use vstd::seq_lib::group_filter_ensures;

    assert(listed_entries(entries) == entries.filter(|entry: DirectoryEntry| is_listed(entry)));
}

/// Makes a document of each entry of a directory listing that is a regular
/// file of a supported kind, keeping the listing's order. The name of every
/// regular file must hold a `'.'`.
pub fn get_file_list(entries: &Vec<DirectoryEntry>) -> (res: Option<Vec<Document>>)
    requires
        forall|i: int|
            0 <= i < entries@.len() && (#[trigger] entries@[i]).is_file ==> entries@[i].name@.contains(
                '.',
            ),
    ensures
        res matches Some(docs) && docs@.len() == listed_entries(entries@).len() && forall|i: int|
            0 <= i < docs@.len() ==> {
                &&& (#[trigger] docs@[i]).name_view() == listed_entries(entries@)[i].name@
                &&& docs@[i].path_view() == listed_entries(entries@)[i].path@
                &&& docs@[i].data_view() is None
            },
{
    let mut file_list: Vec<Document> = Vec::new();
    let n = entries.len();
    for k in 0..n
        invariant
            n == entries@.len(),
            forall|i: int|
                0 <= i < entries@.len() && (#[trigger] entries@[i]).is_file
                    ==> entries@[i].name@.contains('.'),
            file_list@.len() == listed_entries(entries@.take(k as int)).len(),
            forall|i: int|
                0 <= i < file_list@.len() ==> {
                    &&& (#[trigger] file_list@[i]).name_view() == listed_entries(
                        entries@.take(k as int),
                    )[i].name@
                    &&& file_list@[i].path_view() == listed_entries(entries@.take(k as int))[i].path@
                    &&& file_list@[i].data_view() is None
                },
    {
        let entry = &entries[k];
        proof {
            reveal_with_fuel(Seq::<_>::filter, 1);
            assert(entries@.take(k + 1).drop_last() =~= entries@.take(k as int));
        }
        if entry.is_file && is_supported(entry.name.as_str()) {
            file_list.push(Document::new(entry.name.clone(), entry.path.clone()));
        }
    }
    assert(entries@.take(n as int) =~= entries@);
    Some(file_list)
}

/// The text chunks of a document, given the text that was read out of its
/// file (`None` where reading failed). A document of an unsupported kind has
/// none; a document whose text could not be read has the one chunk `"   "`.
pub fn get_file_text(doc: &Document, extracted: Option<String>, chunk_size: usize) -> (res: Option<
    Vec<String>,
>)
    requires
        doc.name_view().contains('.'),
        extracted is Some ==> chunk_size > 0,
    ensures
        doc_type_of(extension_of(doc.name_view())) == DocType::Unsupported ==> res is None,
        doc_type_of(extension_of(doc.name_view())) != DocType::Unsupported ==> (res matches Some(
            chunks,
        ) && chunks.deep_view() == match extracted {
            Some(text) => text_chunks(text@, chunk_size as nat),
            None => seq!["   "@],
        }),
{
    match doc.get_doc_type() {
        DocType::Unsupported => return None,
        _ => {},
    }
    match extracted {
        Some(text) => match split_text_into_chunks(text, chunk_size) {
            Ok(chunks) => Some(chunks),
            Err(_) => None,
        },
        None => {
            let mut chunks: Vec<String> = Vec::new();
            chunks.push("   ".to_owned());
            proof {
                assert(chunks.deep_view() =~= seq!["   "@]);
            }
            Some(chunks)
        },
    }
}


/// `zip::result::ZipError`, why an archive or one of its entries could not be read.
#[verifier::external_type_specification]
#[verifier::external_body]
pub struct ExZipError(zip::result::ZipError);

/// What `zip` reads of the entry `entry` of the archive `archive`: the text
/// that `Read::read_to_string` leaves of the entry (none of it where the
/// entry is not valid UTF-8), or `None` where `archive` is not a zip archive
/// or holds no such entry.
pub uninterp spec fn zip_entry_text(archive: Seq<u8>, entry: Seq<char>) -> Option<Seq<char>>;

/// Opens `archive` with `zip::ZipArchive::new`, finds `entry` with
/// `ZipArchive::by_name` and reads it with `Read::read_to_string`, whose
/// own error is ignored. The contract claims only that the result is a function of the two arguments, named
/// `zip_entry_text`.
#[verifier::external_body]
fn read_zip_entry(archive: &[u8], entry: &str) -> (res: Result<String, zip::result::ZipError>)
    ensures
        res is Ok <==> zip_entry_text(archive@, entry@) is Some,
        res matches Ok(text) ==> zip_entry_text(archive@, entry@) == Some(text@),
{
    let mut zip = zip::ZipArchive::new(std::io::Cursor::new(archive))?;
    let mut file = zip.by_name(entry)?;
    let mut text = String::new();
    let _ = std::io::Read::read_to_string(&mut file, &mut text);
    Ok(text)
}

/// The entry of a Word document's archive that holds its body.
pub open spec fn document_xml_entry() -> Seq<char> {
    "word/document.xml"@
}

/// Reads the text of a Word document out of the bytes of its file: the
/// entry `word/document.xml` of the zip archive is parsed as XML and the
/// text of its runs is gathered breadth first, each followed by a line
/// break (three spaces where there is none).
pub fn get_text_from_docx(archive: &[u8]) -> (res: Result<String, DocxError>)
    ensures
        zip_entry_text(archive@, document_xml_entry()) is None ==> res == Err::<String, DocxError>(
            DocxError::MissingDocumentXml,
        ),
        zip_entry_text(archive@, document_xml_entry()) matches Some(xml) ==> ({
            &&& parsed_xml(xml) is None ==> res == Err::<String, DocxError>(DocxError::MalformedXml)
            &&& parsed_xml(xml) matches Some(root) ==> (res matches Ok(text) && text@
                == docx_text_of(root))
        }),
{
    let xml = match read_zip_entry(archive, "word/document.xml") {
        Ok(xml) => xml,
        Err(_) => return Err(DocxError::MissingDocumentXml),
    };
    docx_text_from_xml(xml.as_str())
}

} // verus!

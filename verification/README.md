# cephalon

The verified core of a knowledge-base assistant: it turns a directory of
documents (PDF, Word, plain text) into text chunks, numbers them for a
vector index and a line database, and answers searches from them.

- `src/` is the library, proved with Verus: file kinds by extension, the
  choice of documents in a directory listing, cutting text into chunks of
  bytes, the breadth-first reading of a Word document's XML, the numbering
  of indexed lines, and the labels stored in the database. Zip archives and
  XML parsing are called through trusted wrappers.
- `app/` is the command-line tool around it: directory listing and file
  reading, PDF text extraction (whose panics it catches), the sentence-embedding model, the HNSW index and the SQLite
  database.
- `tests/` runs the library on concrete inputs.

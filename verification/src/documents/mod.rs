//! Documents: what the library knows of a file, how its text is cut into
//! chunks, and how the text of a Word document is read out of its XML.

pub mod chunking;
pub mod document;
pub mod docx;

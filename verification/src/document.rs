//! The document functions, also reachable under this shorter path.

pub use crate::documents::document::{
    get_file_list, get_file_text, get_text_from_docx, is_supported,
    split_text_into_chunks, DirectoryEntry, DocType, Document,
};

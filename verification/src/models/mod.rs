//! The language models the knowledge base works with.

pub mod summarize_model;

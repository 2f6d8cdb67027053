//! The commands of the knowledge-base tool: create a knowledge base, build
//! its index, or answer a query.

use vstd::prelude::*;

verus! {

/// Creates a knowledge base in the current directory.
#[derive(Debug, Clone)]
pub struct CreateKnowledgeBaseCommand {
    pub project_name: String,
}

/// Reads the documents of the current directory and builds the index.
#[derive(Debug, Clone)]
pub struct BuildKnowledgeBaseCommand {}

/// Answers a query from the knowledge base of the current directory.
#[derive(Debug, Clone)]
pub struct QueryKnowledgeBaseCommand {
    pub query: String,
}

/// The command given to the tool.
#[allow(non_camel_case_types)]
#[derive(Debug, Clone)]
pub enum EntityType {
    create(CreateKnowledgeBaseCommand),
    build(BuildKnowledgeBaseCommand),
    answer(QueryKnowledgeBaseCommand),
}

} // verus!

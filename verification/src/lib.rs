//! A document search library: a store of Markdown documents, an inverted
//! index over their tokens, query parsing, candidate selection, snippets,
//! validation and a search history, each with a verified contract.
use vstd::prelude::*;

pub mod doc_loader;
pub mod doc_store;
pub mod handlers;
pub mod ids;
pub mod index;
pub mod laws;
pub mod lex;
pub mod markdown;
pub mod models;
pub mod query_parser;
pub mod search_history;
pub mod search_service;
pub mod snippet;
pub mod sorted_map;
pub mod text;
pub mod time;
pub mod tokenizer;
pub mod validation;

verus! {

} // verus!

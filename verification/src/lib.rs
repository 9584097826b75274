//! Semantic document retrieval: chunking, a metadata-aware vector store,
//! ranking, retrieval options and evaluation tallies.
pub mod text;
pub mod api;
pub mod chunker;
pub mod config;
pub mod database;
pub mod diagnostics;
pub mod document;
pub mod embedding;
pub mod engine;
pub mod error;
pub mod evaluation;
pub mod filter;
pub mod ieee;
pub mod metadata;
pub mod pipeline;
pub mod ranking;
pub mod retrieval;
pub mod search_result;
pub mod tokenizer;
pub mod vector;

pub use metadata::{Metadata, MetadataValue};
pub use tokenizer::tokenize;
pub use config::EmbeddingConfig;
pub use database::Database;
pub use document::Document;
pub use engine::RecallEngine;
pub use error::RecallError;
pub use retrieval::SearchOptions;
pub use search_result::SearchResult;

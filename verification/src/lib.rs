//! A local, per-repository semantic code-search library.
//!
//! The crate covers the indexing and retrieval pipeline of the engine:
//! a syntax-aware chunker that turns a source file into a deterministic
//! set of line-bounded chunks with symbol names and doc-comment summaries,
//! the incremental-indexing decisions driven by content hashes, the
//! file-selection rules of the tree walker, and rank fusion of two search
//! result lists.  Parsing grammars, hashing and glob matching come from
//! outside crates through a small set of trusted declarations; everything
//! that decides, cleans, assembles or ranks is verified.

pub mod chunk;
pub mod clean;
pub mod cli;
pub mod config;
pub mod embedding;
pub mod indexer;
pub mod lang;
pub mod math;
pub mod parser;
pub mod retriever;
pub mod strutil;
pub mod tree;
pub mod walker;
pub mod watch;

//! A cross-reference engine for Markdown note collections.
//!
//! Documents are scanned by two character-level recognizers: one finds the
//! document's title line (`# Title`), the other finds every wiki-style link
//! (`[[Title]]`). A rebuild walks the parsed documents into two keyed tables,
//! and a resolver answers "what does the link under this cursor point to?".

pub mod codec;
pub mod errors;
pub mod file;
pub mod files_repository;
pub mod goto;
pub mod header_parser;
pub mod laws;
pub mod location;
pub mod logger;
pub mod project_root;
pub mod reference;
pub mod reference_parser;
pub mod references_repository;
pub mod reindex;
pub mod repository_builder;
pub mod store;
pub mod subcommands;
pub mod text;

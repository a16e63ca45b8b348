//! Checks skill documents against token budgets.
//!
//! A skill document is a markdown file with a front matter block. A run
//! resolves a budget for each file and model from a configuration, counts
//! tokens through a cache, and applies a fixed set of rules, each of which
//! gives findings of a severity. The findings are rolled up into a report.
//!
//! Reading files, finding them on disk and showing the report are left to
//! the caller: the library works on paths and contents that it is handed.

pub mod cache;
pub mod cache_document;
pub mod config;
pub mod discovery;
pub mod document;
pub mod errors;
pub mod init;
pub mod lint;
pub mod report;
pub mod rules;
pub mod table;
pub mod text;
pub mod tokenizer;
pub mod types;

//! Collects a project's source files into a single output stream: filtering,
//! deterministic ordering, and output assembly with a predicted table of
//! contents.
pub mod bytes;
pub mod collect;
pub mod criteria;
pub mod filter;
pub mod manifest;
pub mod metadata;
pub mod output;
pub mod path;
pub mod roots;
pub mod sort;
pub mod toc;

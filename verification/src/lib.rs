//! Incremental archive of a federated server's status timeline: a link-header
//! cursor parser, a pagination engine, an archive loader and a
//! merge-sort-dedup engine, with the archive invariants proved.
pub mod account;
pub mod archive;
pub mod error;
pub mod fetch;
pub mod json;
pub mod link;
pub mod merge;
pub mod status;
pub mod text;

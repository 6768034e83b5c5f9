//! History-rewrite logic for GitKat: mapping rules, case-preserving
//! replacement, commit and tag object encoding, tree-entry decisions,
//! the export stream format, and the command-line planning helpers.

pub mod bytes;
pub mod casing;
pub mod matcher;
pub mod text;
pub mod mapping;
pub mod options;
pub mod replace;
pub mod objects;

pub mod commit;
pub mod context;
pub mod tree;
pub mod transfer;
pub mod cli;
pub mod harness;
pub mod stream;
pub mod order;
pub mod repo;
pub mod github;

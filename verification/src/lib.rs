//! Core of a read-only filesystem view onto a remote file store: typed
//! identifiers, the handle and listing tables, path resolution, the rules of
//! the on-disk body store, and the decisions behind each filesystem call.
//!
//! Nothing here reads a disk or a network. Where a call needs the outside,
//! it returns what is to be asked, and goes on when it is given the answer.

pub mod cache;
pub mod client;
pub mod errno;
pub mod fid;
pub mod fid_table;
pub mod fidmap;
pub mod fs;
pub mod handles;
pub mod resolve;
pub mod text;
pub mod uuid_text;

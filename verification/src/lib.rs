//! Core engine of a legacy text-board server: boards hold topics, topics
//! derive byte-exact `subject.txt` and `.dat` artifacts, posts run through a
//! small middleware pipeline, and readers are answered through an HTTP
//! cache-validation layer.

pub mod bbs;
pub mod board;
pub mod bytes;
pub mod cacheable;
pub mod datetime;
pub mod decimal;
pub mod linked_hash_map;
pub mod middleware;
pub mod post;
pub mod settings;
pub mod topic;
pub mod topics;
pub mod validator;

pub use bbs::Bbs;

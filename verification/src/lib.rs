//! An in-memory, two-level document store: each document is a set of
//! sub-documents, each sub-document a string of contents.

pub mod laws;
pub mod model;
pub mod store;
mod table;

pub use model::{DocDeletion, SubdocDeletion};
pub use store::{catcore, Document, Lookup, Message};

//! Branch consolidation and the virtual-branch state store of a Git workspace
//! manager, with every operation specified and proved.
//!
//! The crate reconciles three kinds of branch (local references, remote
//! references and application-managed virtual branches) into one listing, and
//! keeps the document that records the virtual branches: lookups, updates,
//! dense ordering and garbage collection.
//!
//! Nothing here touches a repository or a file. What was read from either is
//! handed in as plain values, and what is to be written is handed back.
//!
//! Beside these stands the history of a text: the operations by which one
//! text differs from another, and a text that keeps the deltas made on it.

pub mod branch;
pub mod commit;
pub mod counting;
pub mod deltas;
pub mod details;
pub mod document;
pub mod garbage;
pub mod group;
pub mod identity;
pub mod listing;
pub mod oid;
pub mod ordering;
pub mod reference;
pub mod repository;
pub mod sequences;
pub mod stack;
pub mod state;
pub mod target;
pub mod text;

//! In-memory store of snippet groups and collections, with the rules that keep
//! references between groups, collections and snippets valid.

pub mod model;
pub mod groups;
pub mod collections;
pub mod laws;

pub use collections::CollectionStore;
pub use groups::{default_group, GroupStore};
pub use model::{CodeSnippet, Collection, EntityKind, Group, StoreError};

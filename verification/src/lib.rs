//! A per-project, index-addressed bookmark store: each working directory owns
//! a sparse table mapping small integer slots to file locations with a saved
//! selection, so a user can pin a spot in a file and jump back to it later.
//!
//! The store is a table of projects, each keyed by the working directory that
//! was current when a bookmark was made; a project maps user-chosen integer
//! indices to records, and a record holds a (preferably root-relative) path
//! together with the spans of the selection to restore.

pub mod selection;
pub mod record;
pub mod errors;
pub mod numeral;
pub mod paths;
pub mod table;
pub mod store;
pub mod ops;

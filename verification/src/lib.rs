//! A sandboxed key-value storage layer: named byte blobs organized into
//! named datastores, each datastore a flat namespace of keys.
//!
//! Datastore and key names are restricted to lowercase ASCII letters and
//! hyphens, which keeps every entry a direct child of its datastore
//! directory when the store is laid out on a filesystem. The semantics of
//! the operations (get/put/delete/exists, string variants, enumeration)
//! are defined and verified here over an in-memory state; a host shell
//! maps that state onto disk.

pub mod errors;
pub mod info;
pub mod laws;
pub mod names;
pub mod paths;
pub mod store;
pub mod text;

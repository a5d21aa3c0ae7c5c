//! Code-review annotations anchored to line ranges of files under version
//! control, with an adjustment engine that keeps them positionally accurate
//! as the code changes between snapshots.
//!
//! The library holds the verified core: the diff model, the per-annotation
//! adjustment and conflict classification, rename application, the record
//! codec and the in-memory store model, the session anchor, and the
//! undo/redo ledger. Reading the repository, the terminal interface and the
//! command-line surface live outside, handing the library plain values.

pub mod adjust;
pub mod annotation;
pub mod codec;
pub mod diff;
pub mod export;
pub mod file_list;
pub mod records;
pub mod rename;
pub mod selection;
pub mod session;
pub mod store;
pub mod uid;
pub mod undo;

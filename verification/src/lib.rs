//! An access-controlled record store.
//!
//! An administrator, fixed at construction, maintains an append-only
//! whitelist of caller identities. Each whitelisted identity is assigned a
//! positive slot equal to its position of insertion, and may submit (and
//! later overwrite) exactly one profile record stored under that slot. The
//! administrator alone may read back every submitted record.

pub mod laws;
pub mod registry;
pub mod types;

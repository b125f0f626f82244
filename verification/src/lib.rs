//! A local version and channel manager for a single node binary.
//!
//! The crate reconciles three identifier spaces — exact versions, open-ended
//! version requirements, and channel descriptors bound to genesis hashes —
//! against a local release inventory and a remote release feed, while keeping
//! on-disk state idempotent: every write re-checks existence before acting.

pub mod channel;
pub mod common;
pub mod date;
pub mod digits;
pub mod github;
pub mod jor;
pub mod node;
pub mod release;
pub mod text;
pub mod version;

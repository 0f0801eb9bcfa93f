//! News-edition enrichment pipeline and idempotent index maintenance.
//!
//! The library covers three concerns: a retry/backoff policy for an
//! unreliable request/response capability, a per-article enrichment
//! protocol with a single re-ask on truncated output, and an idempotent
//! merge engine for the persisted outline documents that navigate the
//! published editions.

pub mod api;
pub mod enrich;
pub mod indexes;
pub mod models;
pub mod schedule;
pub mod utils;

//! Correlation of in-flight typed requests with their decoded results.
//!
//! Units of work are entities carrying typed attributes. Issuing a request
//! attaches a pending marker for a result-type tag; a transport collaborator
//! later attaches a raw outcome carrier; a per-tag watcher, run once per tick,
//! finalizes the entity: it installs a typed result holder and removes the
//! pending marker, exactly once per completion.

pub mod decode;
pub mod response;
pub mod world;

//! A local mirror of GitHub issues: the entities and their row mapping, the
//! store's upsert and cascade rules, the filtered and paginated issue listing,
//! and the watermark that decides when a sync pass has fetched enough.

pub mod entity;
pub mod error;
pub mod laws;
pub mod pattern;
pub mod row;
pub mod sql;
pub mod store;
pub mod sync;

//! Transfer-articulation tooling: renders the nested equivalency logic of an
//! articulation as one readable line, decides when a remote resource is served
//! from the local cache or fetched, and gathers the rendered lines per
//! receiving course.

pub mod aggregate;
pub mod cache;
pub mod catalog;
pub mod compiler;
pub mod keys;
pub mod order;
pub mod outcome;
pub mod text;
pub mod types;

//! Feed aggregation engine: bounded fetch admission, episode extraction from
//! feed documents, cutoff filtering, newest-per-source selection and
//! chronological ordering.

pub mod episode;
pub mod ordering;
pub mod selection;
pub mod extract;
pub mod fetch;
pub mod engine;
pub mod render;
pub mod sources;
pub mod trusted;

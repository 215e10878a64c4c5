//! Deterministic transforms: activation, observer and reflection decisions,
//! scope keys and search-visible snapshots.

pub mod types;
pub mod helpers;
pub mod activation;
pub mod observer;
pub mod reflection;
pub mod snapshot;
pub mod scope;

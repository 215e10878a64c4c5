//! Observer-side transforms.

pub mod decision;
pub mod signals;
pub mod synthesis;
pub mod continuation;
pub mod candidates;
pub mod context;

//! Reflector-side transforms.

pub mod decision;
pub mod draft;
pub mod guidance;
pub mod apply;
pub mod slice;

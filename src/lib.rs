//! Rewrites the visibility of Rust declarations to `pub`, shallowly or through
//! nested modules, letting single declarations opt out with an exclusion marker.
pub mod error;
pub mod laws;
pub mod marker;
pub mod model;
pub mod rewrite;

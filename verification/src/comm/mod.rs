//! Communication surfaces: the errors their handlers report.
pub mod handlers;

//! Abstract, composable units of work that operate on state.
pub mod errors;
pub mod context;

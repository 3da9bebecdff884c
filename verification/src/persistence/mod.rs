//! Persistent storage of indirect values: errors, stores bound to a schema and a driver, and
//! the data logic of the in-memory driver.
pub mod errors;
pub mod store;
pub mod inmem;

//! A toy low-code engine: indirectly represented schemas, values, expressions and
//! mutations, a JSON serial format, in-memory stores and typed state containers.
pub mod text;
pub mod schema;
pub mod serial;
pub mod indirect;
pub mod state;
pub mod logic;
pub mod store;
pub mod errors;
pub mod init;
pub mod env_config;
pub mod effects;
pub mod comm;
pub mod indirect_serial;
pub mod persistence;
pub mod component;
pub mod registry;

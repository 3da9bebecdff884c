//! Typed state containers: string-keyed cells, each holding a value of some `'static`
//! type together with the identity of that type, read back only at that type.
pub mod payload;
pub mod errors;
pub mod cells;
pub mod lock;

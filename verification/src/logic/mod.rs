//! Logical flow: a typed state container whose keys keep the type they were first given.
pub mod state;

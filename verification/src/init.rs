//! Initialisation from configuration.
use vstd::prelude::*;

verus! {

/// A failed initialisation: of an archetype, of configuration, or of state.
#[derive(Debug, PartialEq)]
pub enum InitError {
    Archetype(String),
    Config(String),
    State(String),
}

/// A source of configuration values, by key.
pub trait InitConfig {
    /// The configuration value under `key`.
    fn read(&self, key: &str) -> Result<String, InitError>;
}

/// A value built from configuration.
pub trait ConfigInit: Sized {
    /// Builds the value from the configuration `config`.
    fn from_config(config: &Box<dyn InitConfig>) -> Result<Self, InitError>;
}

} // verus!

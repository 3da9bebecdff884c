//! Configuration from the process environment.
use vstd::prelude::*;
use crate::errors::InitError;

verus! {

/// Configuration read from the process environment (the reading itself is I/O and is done
/// by the application around the library).
#[derive(Clone)]
pub struct EnvConfig;

impl EnvConfig {
    /// The environment configuration.
    pub fn new() -> (r: Self) {
        EnvConfig
    }
}

/// A value built from the environment configuration.
pub trait FromEnvConfig: Sized {
    /// Builds the value from `env_config`.
    fn try_from_config(env_config: EnvConfig) -> Result<Self, InitError>;
}

} // verus!

//! Settings fixed at process start.

use vstd::prelude::*;

verus! {

/// The coordinator port used when none is configured.
pub const DEFAULT_PORT: u16 = 5500;

/// Process settings; an unset field takes its default.
#[derive(Clone, Copy, Debug, Default, PartialEq, Eq, Structural)]
pub struct Config {
    /// Reload on save only, instead of on every change (default: false).
    pub lazy: Option<bool>,
    /// Serve beyond localhost (default: false).
    pub public: Option<bool>,
    /// The coordinator port (default: `DEFAULT_PORT`).
    pub start_port: Option<u16>,
}

impl Config {
    /// Whether every change is mirrored and reloaded: unless `lazy` is set.
    pub fn eager(&self) -> (r: bool)
        ensures
            r == (self.lazy != Some(true)),
    {
        match self.lazy {
            Some(b) => !b,
            None => true,
        }
    }

    /// Whether requests from beyond localhost are served.
    pub fn is_public(&self) -> (r: bool)
        ensures
            r == (self.public == Some(true)),
    {
        match self.public {
            Some(b) => b,
            None => false,
        }
    }

    /// The coordinator port.
    pub fn port(&self) -> (r: u16)
        ensures
            r == match self.start_port {
                Some(p) => p,
                None => DEFAULT_PORT,
            },
    {
        match self.start_port {
            Some(p) => p,
            None => DEFAULT_PORT,
        }
    }
}

} // verus!

//! The program's own configuration file, as plain values. Reading and
//! deserializing the file happen outside the library.

use vstd::prelude::*;

verus! {

/// General behaviour switches.
#[derive(Debug, Clone, Copy, PartialEq, Eq, Structural)]
pub struct GeneralConfig {
    pub protect_essentials: bool,
}

/// Network tuning.
#[derive(Debug, Clone, Copy, PartialEq, Eq, Structural)]
pub struct NetworkConfig {
    pub network_threads: usize,
}

/// The whole configuration.
#[derive(Debug, Clone, Copy, PartialEq, Eq, Structural)]
pub struct Config {
    pub general: GeneralConfig,
    pub network: NetworkConfig,
}

impl Default for Config {
    /// The built-in defaults: essential packages protected, four
    /// download workers.
    fn default() -> (r: Config)
        ensures
            r.general.protect_essentials == true,
            r.network.network_threads == 4,
    {
        Config {
            general: GeneralConfig { protect_essentials: true },
            network: NetworkConfig { network_threads: 4 },
        }
    }
}

impl Config {
    /// The worker count a configuration asks for, never zero.
    pub fn effective_threads(&self) -> (r: usize)
        ensures
            self.network.network_threads >= 1 ==> r == self.network.network_threads,
            self.network.network_threads == 0 ==> r == 1,
    {
        if self.network.network_threads == 0 {
            1
        } else {
            self.network.network_threads
        }
    }
}

} // verus!

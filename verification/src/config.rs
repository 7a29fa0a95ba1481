//! Service configuration: cache lifetimes, cache capacity, and the toolchain
//! settings handed to the documentation generator.

use vstd::prelude::*;

verus! {

/// Configuration for the service: how long cached documentation and crate
/// information stay valid, how many entries each cache may hold, and which
/// toolchain and cargo executable the documentation generator should use.
pub struct Config {
    /// Lifetime, in seconds, of documentation cache entries.
    pub doc_cache_ttl: u64,
    /// Lifetime, in seconds, of crate-information cache entries.
    pub info_cache_ttl: u64,
    /// Maximum number of entries in each cache.
    pub max_cache_size: usize,
    /// Toolchain used for documentation generation, if overridden.
    pub nightly_toolchain: Option<String>,
    /// Path to the cargo executable, if overridden.
    pub cargo_path: Option<String>,
}

impl Config {
    /// True when every field holds its default value: documentation cached
    /// for an hour, crate information for five minutes, a hundred entries
    /// per cache, and no toolchain or cargo override.
    pub open spec fn is_default(self) -> bool {
        &&& self.doc_cache_ttl == 3600
        &&& self.info_cache_ttl == 300
        &&& self.max_cache_size == 100
        &&& self.nightly_toolchain is None
        &&& self.cargo_path is None
    }

    /// A configuration holding every default value.
    pub fn new() -> (r: Config)
        ensures
            r.is_default(),
    {
        Config {
            doc_cache_ttl: 3600,
            info_cache_ttl: 300,
            max_cache_size: 100,
            nightly_toolchain: None,
            cargo_path: None,
        }
    }

    /// The same configuration with the documentation-cache lifetime replaced.
    pub fn with_doc_cache_ttl(self, ttl: u64) -> (r: Config)
        ensures
            r == (Config { doc_cache_ttl: ttl, ..self }),
    {
        Config { doc_cache_ttl: ttl, ..self }
    }

    /// The same configuration with the information-cache lifetime replaced.
    pub fn with_info_cache_ttl(self, ttl: u64) -> (r: Config)
        ensures
            r == (Config { info_cache_ttl: ttl, ..self }),
    {
        Config { info_cache_ttl: ttl, ..self }
    }

    /// The same configuration with the cache capacity replaced.
    pub fn with_max_cache_size(self, size: usize) -> (r: Config)
        ensures
            r == (Config { max_cache_size: size, ..self }),
    {
        Config { max_cache_size: size, ..self }
    }

    /// The same configuration with the documentation toolchain replaced.
    pub fn with_nightly_toolchain(self, toolchain: String) -> (r: Config)
        ensures
            r == (Config { nightly_toolchain: Some(toolchain), ..self }),
    {
        Config { nightly_toolchain: Some(toolchain), ..self }
    }
}

impl core::default::Default for Config {
    /// A configuration holding every default value.
    fn default() -> (r: Config)
        ensures
            r.is_default(),
    {
        Config::new()
    }
}

} // verus!

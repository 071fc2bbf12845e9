//! The configuration of a run, and what holds of a valid one.

use std::path::PathBuf;
use vstd::prelude::*;

verus! {

/// The prefix of snapshot names where the configuration gives none.
pub const DEFAULT_PREFIX: &'static str = "zonecfg-backup";

/// The compression level where the configuration gives none.
pub const DEFAULT_COMPRESSION_LEVEL: i32 = 10;

/// The lowest compression level that a configuration may ask for.
pub const MIN_COMPRESSION_LEVEL: i32 = 1;

/// The highest compression level that a configuration may ask for.
pub const MAX_COMPRESSION_LEVEL: i32 = 21;

/// The configuration of a run.
#[derive(Debug)]
pub struct Config {
    /// The output directory.
    pub outdir: PathBuf,
    /// How many snapshots a prune pass keeps.
    pub number_of_backups: usize,
    /// The prefix of snapshot names.
    pub prefix: Option<String>,
    /// The compression level of snapshots.
    pub compression_level: Option<i32>,
}

/// What is wrong with a configuration.
#[derive(Clone, Copy, PartialEq, Eq, Structural, Debug)]
pub enum ConfigError {
    /// The compression level lies outside 1 to 21.
    CompressionLevel { level: i32 },
}

/// Whether a compression level may be asked for.
pub open spec fn level_in_range(level: i32) -> bool {
    MIN_COMPRESSION_LEVEL <= level <= MAX_COMPRESSION_LEVEL
}

impl Config {
    /// The prefix in effect: the configured one, else the default.
    pub open spec fn prefix_in_effect(&self) -> Seq<char> {
        match self.prefix {
            Some(prefix) => prefix@,
            None => DEFAULT_PREFIX@,
        }
    }

    /// The compression level in effect: the configured one, else the default.
    pub open spec fn level_in_effect(&self) -> i32 {
        match self.compression_level {
            Some(level) => level,
            None => DEFAULT_COMPRESSION_LEVEL,
        }
    }

    /// A configuration is valid where its compression level is in range.
    pub open spec fn valid(&self) -> bool {
        level_in_range(self.level_in_effect())
    }

    /// The prefix of snapshot names.
    pub fn effective_prefix(&self) -> (prefix: &str)
        ensures
            prefix@ == self.prefix_in_effect(),
    {
        match &self.prefix {
            Some(prefix) => prefix.as_str(),
            None => DEFAULT_PREFIX,
        }
    }

    /// The compression level of snapshots, once it is known to be in range.
    pub fn effective_compression_level(&self) -> (result: Result<i32, ConfigError>)
        ensures
            match result {
                Ok(level) => self.valid() && level == self.level_in_effect(),
                Err(ConfigError::CompressionLevel { level }) => !self.valid() && level
                    == self.level_in_effect(),
            },
    {
        let level: i32 = match self.compression_level {
            Some(level) => level,
            None => DEFAULT_COMPRESSION_LEVEL,
        };
        if MIN_COMPRESSION_LEVEL <= level && level <= MAX_COMPRESSION_LEVEL {
            Ok(level)
        } else {
            Err(ConfigError::CompressionLevel { level })
        }
    }

    /// Checks the configuration before any work begins.
    pub fn validate(&self) -> (result: Result<(), ConfigError>)
        ensures
            result is Ok <==> self.valid(),
            result matches Err(ConfigError::CompressionLevel { level }) ==> level
                == self.level_in_effect(),
    {
        match self.effective_compression_level() {
            Ok(_) => Ok(()),
            Err(error) => Err(error),
        }
    }
}

} // verus!

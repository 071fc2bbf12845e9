use std::path::PathBuf;
use zonecfg_backup::config::{
    Config, ConfigError, DEFAULT_COMPRESSION_LEVEL, DEFAULT_PREFIX, MAX_COMPRESSION_LEVEL,
    MIN_COMPRESSION_LEVEL,
};

fn config(prefix: Option<&str>, level: Option<i32>) -> Config {
    Config {
        outdir: PathBuf::from("/var/backups/zones"),
        number_of_backups: 3,
        prefix: prefix.map(|p| p.to_string()),
        compression_level: level,
    }
}

#[test]
fn defaults_are_the_documented_ones() {
    assert_eq!(DEFAULT_PREFIX, "zonecfg-backup");
    assert_eq!(DEFAULT_COMPRESSION_LEVEL, 10);
    assert_eq!(MIN_COMPRESSION_LEVEL, 1);
    assert_eq!(MAX_COMPRESSION_LEVEL, 21);
}

#[test]
fn prefix_defaults_where_none_is_configured() {
    assert_eq!(config(None, None).effective_prefix(), "zonecfg-backup");
}

#[test]
fn configured_prefix_is_in_effect() {
    assert_eq!(config(Some("nightly"), None).effective_prefix(), "nightly");
    assert_eq!(config(Some(""), None).effective_prefix(), "");
}

#[test]
fn level_defaults_where_none_is_configured() {
    assert_eq!(config(None, None).effective_compression_level(), Ok(10));
    assert_eq!(config(None, None).validate(), Ok(()));
}

#[test]
fn levels_within_range_are_valid() {
    for level in 1..=21 {
        let c = config(None, Some(level));
        assert_eq!(c.effective_compression_level(), Ok(level));
        assert_eq!(c.validate(), Ok(()));
    }
}

#[test]
fn levels_outside_the_range_are_a_configuration_error() {
    for level in [0, -1, 22, 100, i32::MIN, i32::MAX] {
        let c = config(None, Some(level));
        assert_eq!(
            c.effective_compression_level(),
            Err(ConfigError::CompressionLevel { level })
        );
        assert_eq!(c.validate(), Err(ConfigError::CompressionLevel { level }));
    }
}

#[test]
fn configuration_keeps_what_it_was_given() {
    let c = config(Some("p"), Some(4));
    assert_eq!(c.outdir, PathBuf::from("/var/backups/zones"));
    assert_eq!(c.number_of_backups, 3);
    assert_eq!(c.prefix.as_deref(), Some("p"));
    assert_eq!(c.compression_level, Some(4));
}

use draupnir::config::{default_compression_level, parse_recipient, Config, ConfigError};
use draupnir::archives::{archive_file_name, part_file_name};
use draupnir::pathname::{child, component_count, starts_with};
use draupnir::text::chars_of;

fn valid_key() -> String {
    age::x25519::Identity::generate().to_public().to_string()
}

fn base() -> Config {
    Config {
        uuid: "1234-abcd".to_string(),
        mountpoint: "/mnt/backup".to_string(),
        destination: "/mnt/backup/archives".to_string(),
        age_pubkey: valid_key(),
        keep: 3,
        sources: vec!["/home".to_string(), "/etc".to_string()],
        threshold_days: 7,
        exclude: vec![".cache".to_string()],
        compression_level: default_compression_level(),
    }
}

#[test]
fn valid_config_passes() {
    assert_eq!(base().validate(), Ok(()));
}

#[test]
fn default_level_is_three() {
    assert_eq!(default_compression_level(), 3);
}

#[test]
fn empty_sources_refused() {
    let mut c = base();
    c.sources.clear();
    let e = c.validate().unwrap_err();
    assert_eq!(e, ConfigError::EmptySources);
    assert_eq!(
        e.message(),
        "sources is empty \u{2014} the backup would archive nothing and rotation would delete existing archives"
    );
}

#[test]
fn first_relative_source_reported() {
    let mut c = base();
    c.sources = vec!["/ok".to_string(), "rel/a".to_string(), "also/rel".to_string()];
    let e = c.validate().unwrap_err();
    assert_eq!(e, ConfigError::RelativeSource("rel/a".to_string()));
    assert_eq!(e.message(), "source rel/a is not an absolute path");
}

#[test]
fn zero_keep_refused() {
    let mut c = base();
    c.keep = 0;
    let e = c.validate().unwrap_err();
    assert_eq!(e, ConfigError::ZeroKeep);
    assert_eq!(e.message(), "keep = 0 would delete every archive including the one just written");
}

#[test]
fn relative_mountpoint_refused() {
    let mut c = base();
    c.mountpoint = "mnt".to_string();
    let e = c.validate().unwrap_err();
    assert_eq!(e, ConfigError::RelativeMountpoint);
    assert_eq!(e.message(), "mountpoint must be an absolute path");
}

#[test]
fn relative_destination_refused() {
    let mut c = base();
    c.destination = "archives".to_string();
    let e = c.validate().unwrap_err();
    assert_eq!(e, ConfigError::RelativeDestination);
    assert_eq!(e.message(), "destination must be an absolute path");
}

#[test]
fn destination_outside_mountpoint_refused() {
    let mut c = base();
    c.destination = "/mnt/backupx/archives".to_string();
    let e = c.validate().unwrap_err();
    assert_eq!(
        e,
        ConfigError::DestinationOutsideMountpoint {
            destination: "/mnt/backupx/archives".to_string(),
            mountpoint: "/mnt/backup".to_string(),
        }
    );
    assert_eq!(
        e.message(),
        "destination /mnt/backupx/archives is not under mountpoint /mnt/backup \u{2014} backups would land on the root filesystem"
    );
}

#[test]
fn destination_compared_by_components() {
    let mut c = base();
    c.mountpoint = "/mnt//backup/".to_string();
    c.destination = "/mnt/backup/./archives".to_string();
    assert_eq!(c.validate(), Ok(()));
    c.destination = "/mnt/backup".to_string();
    assert_eq!(c.validate(), Ok(()));
}

#[test]
fn zero_threshold_refused() {
    let mut c = base();
    c.threshold_days = 0;
    let e = c.validate().unwrap_err();
    assert_eq!(e, ConfigError::ZeroThresholdDays);
    assert_eq!(e.message(), "threshold_days = 0 makes every backup permanently overdue");
}

#[test]
fn compression_level_bounds() {
    let mut c = base();
    c.compression_level = 1;
    assert_eq!(c.validate(), Ok(()));
    c.compression_level = 22;
    assert_eq!(c.validate(), Ok(()));
    c.compression_level = 23;
    let e = c.validate().unwrap_err();
    assert_eq!(e, ConfigError::CompressionLevelOutOfRange(23));
    assert_eq!(e.message(), "compression_level 23 is out of range (1-22)");
    c.compression_level = -5;
    assert_eq!(c.validate().unwrap_err().message(), "compression_level -5 is out of range (1-22)");
    c.compression_level = 0;
    assert_eq!(c.validate().unwrap_err(), ConfigError::CompressionLevelOutOfRange(0));
}

#[test]
fn exclude_must_be_one_component() {
    let mut c = base();
    c.exclude = vec!["node_modules".to_string(), "a/b".to_string()];
    let e = c.validate().unwrap_err();
    assert_eq!(e, ConfigError::ExcludeNotSingleComponent("a/b".to_string()));
    assert_eq!(
        e.message(),
        "exclude entry 'a/b' must be a single path component (e.g. '.cache'), not a path"
    );
    c.exclude = vec!["target/".to_string()];
    assert_eq!(c.validate(), Ok(()));
    c.exclude = vec![String::new()];
    assert_eq!(c.validate().unwrap_err(), ConfigError::ExcludeNotSingleComponent(String::new()));
}

#[test]
fn bad_age_key_reported_last() {
    let mut c = base();
    c.age_pubkey = "not a key".to_string();
    let e = c.validate().unwrap_err();
    assert_eq!(e, ConfigError::InvalidAgeKey("invalid Bech32 encoding".to_string()));
    assert_eq!(e.message(), "parsing age_pubkey: invalid Bech32 encoding");
    c.keep = 0;
    assert_eq!(c.validate().unwrap_err(), ConfigError::ZeroKeep);
}

#[test]
fn wrong_prefix_key_refused() {
    // A valid Bech32 string whose human-readable part is not `age`.
    let mut c = base();
    let key = valid_key();
    let other = key.replacen("age1", "agf1", 1);
    c.age_pubkey = other;
    assert!(matches!(c.validate().unwrap_err(), ConfigError::InvalidAgeKey(_)));
}

#[test]
fn check_takes_the_key_result() {
    let c = base();
    assert_eq!(c.check(None), Ok(()));
    assert_eq!(
        c.check(Some("incorrect HRP".to_string())),
        Err(ConfigError::InvalidAgeKey("incorrect HRP".to_string()))
    );
}

#[test]
fn recipient_parses_generated_key() {
    let key = valid_key();
    let parsed = parse_recipient(&key).unwrap();
    assert_eq!(parsed.text(), &key);
    assert_eq!(parsed.recipient().to_string(), key);
    assert_eq!(parse_recipient("").err(), Some("invalid Bech32 encoding".to_string()));
}

#[test]
fn archives_of_valid_config_stay_under_mountpoint() {
    let c = base();
    assert!(c.validate().is_ok());
    for ts in [0u64, 1_700_000_000, u64::MAX] {
        for name in [archive_file_name(ts), part_file_name(ts)] {
            let path = child(&c.destination, &name);
            assert!(starts_with(&chars_of(&path), &chars_of(&c.mountpoint)), "{path}");
            assert_eq!(component_count(&chars_of(&path)), component_count(&chars_of(&c.destination)) + 1);
        }
    }
}

use std::io;

use typo_compiler::provider::{ProviderError, PATH};

#[test]
fn read_errors_are_told_apart_by_kind() {
    let not_found = ProviderError::from_read_error(PATH, io::Error::new(io::ErrorKind::NotFound, "gone"));
    assert!(matches!(&not_found, ProviderError::ConfigNotFound { path, .. } if path == "./provider.toml"));
    assert_eq!(not_found.message(), "provider config not found: ./provider.toml");

    let denied = ProviderError::from_read_error(PATH, io::Error::new(io::ErrorKind::PermissionDenied, "no"));
    assert!(matches!(&denied, ProviderError::ConfigReadFailed { path, .. } if path == "./provider.toml"));
    assert_eq!(denied.message(), "failed to read provider config: ./provider.toml");
}

#[test]
fn read_outcome_follows_the_flag() {
    let e = ProviderError::from_read_outcome("x.toml", true, io::Error::other("a"));
    assert_eq!(e.message(), "provider config not found: x.toml");
    let e = ProviderError::from_read_outcome("x.toml", false, io::Error::other("a"));
    assert_eq!(e.message(), "failed to read provider config: x.toml");
}

#[test]
fn parse_failure_message() {
    let err = toml::from_str::<toml::Table>("= broken").unwrap_err();
    let e = ProviderError::ConfigParseFailed(err);
    assert_eq!(e.message(), "failed to parse provider config (TOML)");
}

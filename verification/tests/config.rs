//! Which services to aggregate.

use okibi::config::{Config, WrongVersion, CONFIG_VERSION};

/// An installation that wants nothing unusual should configure nothing.
#[test]
fn no_file_is_a_valid_configuration() {
    let config = Config::load_or_default(None).unwrap();
    assert_eq!(config.dataset, "tile_demand_1");
    assert!(config.services.is_empty(), "which reads every service in the dataset");
}

#[test]
fn refuses_a_version_it_does_not_read() {
    let found = Config { config: "okibi-digest-config/2".into(), ..Config::default() };
    let error = Config::load_or_default(Some(found)).unwrap_err();
    assert_eq!(error, WrongVersion { found: "okibi-digest-config/2".into() });
}

#[test]
fn a_file_it_reads_is_taken_as_it_is() {
    let found = Config {
        config: CONFIG_VERSION.into(),
        account_id: Some("abc".into()),
        services: vec!["papers".into()],
        ..Config::default()
    };
    let config = Config::load_or_default(Some(found.clone())).unwrap();
    assert_eq!(config, found);
    assert_eq!(Config::check_version(found.clone()), Ok(found));
}

#[test]
fn the_defaults_are_every_service_in_the_dataset() {
    let config = Config::default();
    assert_eq!(config.config, CONFIG_VERSION);
    assert_eq!(config.account_id, None);
    assert_eq!(config.top_n, 20);
    assert_eq!(config.top_rows, 10_000);
}

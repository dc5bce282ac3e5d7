//! Which services to aggregate, and where from.

use vstd::prelude::*;

use crate::text::str_eq;

verus! {

/// The version a digest configuration file carries.
pub const CONFIG_VERSION: &'static str = "okibi-digest-config/1";

/// The whole of what `okibi digest` needs to know beyond credentials.
///
/// One process aggregates every service, because under the Analytics Engine
/// binding there is one dataset and the index is the service.
#[derive(Debug, Clone, PartialEq)]
pub struct Config {
    pub config: String,
    /// The account the dataset belongs to. Optional, because the file is
    /// committed and the environment can supply it instead.
    pub account_id: Option<String>,
    /// The dataset name, whose trailing number is the schema version.
    pub dataset: String,
    /// The services to read. Empty means every service in the dataset.
    pub services: Vec<String>,
    /// How many top tiles to record per cell.
    pub top_n: usize,
    /// The most tile-level rows to ask for when finding those top tiles.
    pub top_rows: usize,
}

/// A configuration of a version this does not read.
#[derive(Debug, Clone, PartialEq, Eq)]
pub struct WrongVersion {
    /// The version the file says it is.
    pub found: String,
}

/// The configuration every field of which is the default: every service in
/// the dataset, which is what the dataset is.
pub open spec fn is_default_config(c: Config) -> bool {
    &&& c.config@ == CONFIG_VERSION@
    &&& c.account_id is None
    &&& c.dataset@ == "tile_demand_1"@
    &&& c.services@.len() == 0
    &&& c.top_n == 20
    &&& c.top_rows == 10_000
}

impl Default for Config {
    /// Every service in the dataset, which is what the dataset is.
    ///
    /// A roster of services would be a second list of who exists, kept beside
    /// the one that already exists, and the one that already exists is the
    /// dataset.
    fn default() -> (res: Self)
        ensures
            is_default_config(res),
    {
        Config {
            config: CONFIG_VERSION.to_string(),
            account_id: None,
            dataset: "tile_demand_1".to_string(),
            services: Vec::new(),
            top_n: 20,
            top_rows: 10_000,
        }
    }
}

impl Config {
    /// A configuration as read, refused unless it is of the version this reads.
    pub fn check_version(config: Config) -> (res: Result<Config, WrongVersion>)
        ensures
            config.config@ == CONFIG_VERSION@ ==> res == Ok::<Config, WrongVersion>(config),
            config.config@ != CONFIG_VERSION@ ==> (res matches Err(e) && e.found@
                == config.config@),
    {
        if str_eq(config.config.as_str(), CONFIG_VERSION) {
            Ok(config)
        } else {
            let found = config.config.clone();
            Err(WrongVersion { found })
        }
    }

    /// The configuration that was read, or the defaults if there was no file.
    ///
    /// Absent is a valid answer: the defaults aggregate the whole dataset, and
    /// the account comes from the environment, so an installation that wants
    /// nothing unusual configures nothing.
    pub fn load_or_default(found: Option<Config>) -> (res: Result<Config, WrongVersion>)
        ensures
            found is None ==> (res matches Ok(c) && is_default_config(c)),
            found matches Some(c) ==> (c.config@ == CONFIG_VERSION@ ==> res == Ok::<
                Config,
                WrongVersion,
            >(c)),
            found matches Some(c) ==> (c.config@ != CONFIG_VERSION@ ==> (res matches Err(e)
                && e.found@ == c.config@)),
    {
        match found {
            None => Ok(Config::default()),
            Some(config) => Config::check_version(config),
        }
    }
}

} // verus!

//! The configuration of the basic form.

use vstd::prelude::*;
use crate::config::ConfigSource;
use crate::expand::{expand_full, expansion_of, text_result};

verus! {

/// A rule: the messages that match `query` belong in `folder`.
#[derive(Clone, Debug)]
pub struct Rule {
    pub folder: String,
    pub query: String,
}

/// The configuration of the basic form.
#[derive(Clone, Debug)]
pub struct Config {
    /// The mail directory that holds all folders.
    pub database_path: String,
    /// The notmuch configuration file.
    pub config_path: String,
    /// Whether moved files get a fresh name.
    pub rename: bool,
    /// When given, only messages at most this many days old are considered.
    pub max_age_days: Option<u32>,
    pub rules: Vec<Rule>,
}

impl Default for Config {
    /// Mails under `~/mail`, notmuch configured in `~/.notmuchrc`, no renaming,
    /// no age limit and no rules.
    fn default() -> (c: Self)
        ensures
            c.database_path@ == "~/mail"@,
            c.config_path@ == "~/.notmuchrc"@,
            !c.rename,
            c.max_age_days.is_none(),
            c.rules@.len() == 0,
    {
        Config {
            database_path: String::from_str("~/mail"),
            config_path: String::from_str("~/.notmuchrc"),
            rename: false,
            max_age_days: None,
            rules: Vec::new(),
        }
    }
}

/// Decides where the basic configuration is read from: a given file wins; otherwise
/// the default YAML file, written with the default configuration first when it does
/// not exist.
pub fn config_source(given: bool, yaml_exists: bool) -> (r: ConfigSource)
    ensures
        given ==> r == ConfigSource::Given,
        !given && yaml_exists ==> r == ConfigSource::DefaultYaml,
        !given && !yaml_exists ==> r == ConfigSource::CreateDefaultYaml,
{
    if given {
        ConfigSource::Given
    } else if yaml_exists {
        ConfigSource::DefaultYaml
    } else {
        ConfigSource::CreateDefaultYaml
    }
}

/// The error for a configuration file that cannot be opened.
pub fn open_failure_message(path: &str, error: &str) -> (s: String)
    ensures
        s@ == "Failed to open "@ + path@ + ": "@ + error@,
{
    let mut s = String::from_str("Failed to open ");
    s.append(path);
    s.append(": ");
    s.append(error);
    s
}

/// The configuration that results from `cfg` and the expansions of its paths: the
/// database path's error if that failed, else the configuration path's error if that
/// failed; otherwise `cfg` with the expanded texts in place.
pub open spec fn expanded_config(
    cfg: Config,
    database_path: Result<String, String>,
    config_path: Result<String, String>,
) -> Result<Config, String> {
    match database_path {
        Err(e) => Err(e),
        Ok(d) => match config_path {
            Err(e) => Err(e),
            Ok(c) => Ok(Config { database_path: d, config_path: c, ..cfg }),
        },
    }
}

/// Puts the expansions of the paths of `cfg` in place: `database_path` is the
/// expansion of the database path, `config_path` that of the configuration path.
pub fn with_expanded_paths(
    cfg: Config,
    database_path: Result<String, String>,
    config_path: Result<String, String>,
) -> (r: Result<Config, String>)
    ensures
        r == expanded_config(cfg, database_path, config_path),
{
    match database_path {
        Err(e) => Err(e),
        Ok(d) => match config_path {
            Err(e) => Err(e),
            Ok(c) => Ok(Config { database_path: d, config_path: c, ..cfg }),
        },
    }
}

/// The configuration with `~` and environment variables expanded in the database
/// path and the notmuch configuration path, with `home` as the home directory and the
/// environment variables `vars`; every other field as it was. Fails with the
/// expansion's error when a variable is not set. Paths without `$` always expand. The
/// result is what `with_expanded_paths` makes of the expansions.
pub fn expand_paths(cfg: Config, home: &Option<String>, vars: &Vec<(String, String)>) -> (r: Result<Config, String>)
    ensures
        !cfg.database_path@.contains('$') && !cfg.config_path@.contains('$') ==> r is Ok,
        exists|database_path: Result<String, String>, config_path: Result<String, String>|
            #[trigger] expanded_config(cfg, database_path, config_path) == r
            && expansion_of(cfg.database_path@, home.deep_view(), vars.deep_view(), text_result(database_path))
            && expansion_of(cfg.config_path@, home.deep_view(), vars.deep_view(), text_result(config_path)),
{
    let database_path = expand_full(cfg.database_path.as_str(), home, vars);
    let config_path = expand_full(cfg.config_path.as_str(), home, vars);
    let ghost d = database_path;
    let ghost c = config_path;
    let r = with_expanded_paths(cfg, database_path, config_path);
    assert(expanded_config(cfg, d, c) == r);
    r
}

} // verus!

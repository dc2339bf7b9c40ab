//! The configuration: where the mails live, and the rules that assign them to folders.

use vstd::prelude::*;
use crate::expand::{expand_full, expansion_of, text_result};
use crate::paths::{extension, path_extension};

verus! {

/// How the rules are combined when a message matches more than one of them.
#[derive(Clone, Copy, Debug, PartialEq, Eq, Structural)]
pub enum MatchMode {
    /// The rules must not overlap; a message matched by two rules is an error.
    Unique,
    /// The first rule that matches a message decides its folder.
    First,
    /// Every rule is applied in turn; the last one that matches decides.
    All,
}

impl MatchMode {
    /// The name of the mode as it is written in a configuration file.
    pub open spec fn spec_name(self) -> Seq<char> {
        match self {
            MatchMode::Unique => "unique"@,
            MatchMode::First => "first"@,
            MatchMode::All => "all"@,
        }
    }

    /// The name of the mode as it is written in a configuration file.
    pub fn name(&self) -> (s: &'static str)
        ensures
            s@ == self.spec_name(),
    {
        match self {
            MatchMode::Unique => "unique",
            MatchMode::First => "first",
            MatchMode::All => "all",
        }
    }

    /// The mode that a configuration file names, if any.
    pub open spec fn spec_from_name(name: Seq<char>) -> Option<MatchMode> {
        if name == "unique"@ {
            Some(MatchMode::Unique)
        } else if name == "first"@ {
            Some(MatchMode::First)
        } else if name == "all"@ {
            Some(MatchMode::All)
        } else {
            None
        }
    }

    /// Reads a mode from its name; any other text names no mode.
    pub fn from_name(name: &str) -> (r: Option<MatchMode>)
        ensures
            r == Self::spec_from_name(name@),
    {
        let given = String::from_str(name);
        if given == String::from_str("unique") {
            Some(MatchMode::Unique)
        } else if given == String::from_str("first") {
            Some(MatchMode::First)
        } else if given == String::from_str("all") {
            Some(MatchMode::All)
        } else {
            None
        }
    }

    /// The text of the error for a name that names no mode.
    pub open spec fn spec_unknown_name_message(name: Seq<char>) -> Seq<char> {
        "unknown match mode: "@ + name
    }

    /// The text of the error for a name that names no mode.
    pub fn unknown_name_message(name: &str) -> (s: String)
        ensures
            s@ == Self::spec_unknown_name_message(name@),
    {
        let mut s = String::from_str("unknown match mode: ");
        s.append(name);
        s
    }
}

/// Reading a mode back from its name gives the mode.
pub proof fn lemma_match_mode_name_round_trip(mode: MatchMode)
    ensures
        MatchMode::spec_from_name(mode.spec_name()) == Some(mode),
{
    reveal_strlit("unique");
    reveal_strlit("first");
    reveal_strlit("all");
    assert("unique"@.len() == 6 && "first"@.len() == 5 && "all"@.len() == 3);
}

/// A rule: the messages that match `query` (and, if given, lie under `prefix`
/// inside the mail directory) belong in `folder`.
#[derive(Clone, Debug)]
pub struct Rule {
    pub folder: String,
    pub query: String,
    pub prefix: Option<String>,
}

impl Rule {
    /// How a rule is shown to the user.
    pub open spec fn spec_describe(self) -> Seq<char> {
        "Rule "@ + self.folder@ + match self.prefix {
            Some(p) => " with prefix '"@ + p@ + "'"@,
            None => Seq::<char>::empty(),
        } + ": "@ + self.query@
    }

    /// How a rule is shown to the user: `Rule <folder>[ with prefix '<prefix>']: <query>`.
    pub fn describe(&self) -> (s: String)
        ensures
            s@ == self.spec_describe(),
    {
        let mut s = String::from_str("Rule ");
        s.append(self.folder.as_str());
        match &self.prefix {
            Some(p) => {
                s.append(" with prefix '");
                s.append(p.as_str());
                s.append("'");
            },
            None => {},
        }
        s.append(": ");
        s.append(self.query.as_str());
        s
    }
}

/// The configuration of the mail mover.
#[derive(Clone, Debug)]
pub struct Config {
    /// The mail directory that holds all folders.
    pub maildir: String,
    /// The notmuch configuration file; if omitted, the one notmuch would use.
    pub notmuch_config: Option<String>,
    /// Whether moved files get a fresh name.
    pub rename: bool,
    /// When given, only messages at most this many days old are considered.
    pub max_age_days: Option<u32>,
    pub rules: Vec<Rule>,
    /// How rules are combined; unique when omitted.
    pub rule_match_mode: Option<MatchMode>,
}

impl Config {
    /// The mode in force: the configured one, or unique when none is configured.
    pub open spec fn spec_mode(self) -> MatchMode {
        match self.rule_match_mode {
            Some(m) => m,
            None => MatchMode::Unique,
        }
    }

    /// The mode in force: the configured one, or unique when none is configured.
    pub fn mode(&self) -> (m: MatchMode)
        ensures
            m == self.spec_mode(),
    {
        match self.rule_match_mode {
            Some(m) => m,
            None => MatchMode::Unique,
        }
    }
}

impl Default for Config {
    /// Mails under `~/mail`, notmuch's own configuration, no renaming, no age limit,
    /// no rules and the default (unique) match mode.
    fn default() -> (c: Self)
        ensures
            c.maildir@ == "~/mail"@,
            c.notmuch_config.is_none(),
            !c.rename,
            c.max_age_days.is_none(),
            c.rules@.len() == 0,
            c.rule_match_mode.is_none(),
    {
        Config {
            maildir: String::from_str("~/mail"),
            notmuch_config: None,
            rename: false,
            max_age_days: None,
            rules: Vec::new(),
            rule_match_mode: None,
        }
    }
}

// ---------------------------------------------------------------------------
// Loading the configuration.

/// Where the configuration is read from.
#[derive(Clone, Copy, Debug, PartialEq, Eq, Structural)]
pub enum ConfigSource {
    /// The file given on the command line.
    Given,
    /// `config.yaml` in the configuration directory.
    DefaultYaml,
    /// `config.lua` in the configuration directory.
    DefaultLua,
    /// `config.yaml` in the configuration directory, written with the default
    /// configuration first (the first run).
    CreateDefaultYaml,
}

/// Decides where the configuration is read from: a given file wins; otherwise the
/// default YAML or Lua file, whichever exists; none when both exist (which is refused);
/// and a newly written default YAML file when neither does.
pub fn config_source(given: bool, yaml_exists: bool, lua_exists: bool) -> (r: Option<ConfigSource>)
    ensures
        given ==> r == Some(ConfigSource::Given),
        !given && yaml_exists && lua_exists ==> r is None,
        !given && yaml_exists && !lua_exists ==> r == Some(ConfigSource::DefaultYaml),
        !given && !yaml_exists && lua_exists ==> r == Some(ConfigSource::DefaultLua),
        !given && !yaml_exists && !lua_exists ==> r == Some(ConfigSource::CreateDefaultYaml),
{
    if given {
        Some(ConfigSource::Given)
    } else if yaml_exists && lua_exists {
        None
    } else if yaml_exists {
        Some(ConfigSource::DefaultYaml)
    } else if lua_exists {
        Some(ConfigSource::DefaultLua)
    } else {
        Some(ConfigSource::CreateDefaultYaml)
    }
}

/// The error for a configuration directory that holds both default files.
pub fn both_defaults_message(yaml: &str, lua: &str) -> (s: String)
    ensures
        s@ == "Both "@ + yaml@ + " and "@ + lua@ + " exist, please remove one"@,
{
    let mut s = String::from_str("Both ");
    s.append(yaml);
    s.append(" and ");
    s.append(lua);
    s.append(" exist, please remove one");
    s
}

/// Whether the configuration file at `path` is a Lua script: its extension is `lua`.
pub fn is_lua_config(path: &str) -> (b: bool)
    ensures
        b == (path_extension(path@) == Some("lua"@)),
{
    match extension(path) {
        Some(ext) => ext == String::from_str("lua"),
        None => false,
    }
}

/// The Lua statement that lets a Lua configuration load modules from `basedir`.
pub fn lua_package_path(basedir: &str) -> (s: String)
    ensures
        s@ == "package.path = package.path .. ';"@ + basedir@ + "/?.lua;"@ + basedir@
            + "/?/init.lua;;'"@,
{
    let mut s = String::from_str("package.path = package.path .. ';");
    s.append(basedir);
    s.append("/?.lua;");
    s.append(basedir);
    s.append("/?/init.lua;;'");
    s
}

/// The configuration that results from `cfg` and the expansions of its paths: the
/// mail directory's error if that failed, else the notmuch configuration path's error
/// if that failed; otherwise `cfg` with the expanded texts in place.
pub open spec fn expanded_config(
    cfg: Config,
    maildir: Result<String, String>,
    notmuch_config: Option<Result<String, String>>,
) -> Result<Config, String> {
    match maildir {
        Err(e) => Err(e),
        Ok(m) => match notmuch_config {
            Some(Err(e)) => Err(e),
            Some(Ok(p)) => Ok(Config { maildir: m, notmuch_config: Some(p), ..cfg }),
            None => Ok(Config { maildir: m, notmuch_config: None, ..cfg }),
        },
    }
}

/// Puts the expansions of the paths of `cfg` in place: `maildir` is the expansion of
/// the mail directory, `notmuch_config` that of the notmuch configuration path (none
/// when there is no such path).
pub fn with_expanded_paths(
    cfg: Config,
    maildir: Result<String, String>,
    notmuch_config: Option<Result<String, String>>,
) -> (r: Result<Config, String>)
    ensures
        r == expanded_config(cfg, maildir, notmuch_config),
{
    match maildir {
        Err(e) => Err(e),
        Ok(m) => match notmuch_config {
            Some(Err(e)) => Err(e),
            Some(Ok(p)) => Ok(Config { maildir: m, notmuch_config: Some(p), ..cfg }),
            None => Ok(Config { maildir: m, notmuch_config: None, ..cfg }),
        },
    }
}

/// The configuration with `~` and environment variables expanded in the mail
/// directory and, when given, the notmuch configuration path, with `home` as the home
/// directory and the environment variables `vars`; every other field as it was. Fails
/// with the expansion's error when a variable is not set. Paths without `$` always
/// expand. The result is what `with_expanded_paths` makes of the expansions.
pub fn expand_paths(cfg: Config, home: &Option<String>, vars: &Vec<(String, String)>) -> (r: Result<Config, String>)
    ensures
        !cfg.maildir@.contains('$') && match cfg.notmuch_config {
            Some(p) => !p@.contains('$'),
            None => true,
        } ==> r is Ok,
        exists|maildir: Result<String, String>, notmuch_config: Option<Result<String, String>>|
            #[trigger] expanded_config(cfg, maildir, notmuch_config) == r
            && expansion_of(cfg.maildir@, home.deep_view(), vars.deep_view(), text_result(maildir))
            && match (cfg.notmuch_config, notmuch_config) {
                (Some(p), Some(q)) => expansion_of(p@, home.deep_view(), vars.deep_view(), text_result(q)),
                (None, None) => true,
                _ => false,
            },
{
    let maildir = expand_full(cfg.maildir.as_str(), home, vars);
    let notmuch_config = match &cfg.notmuch_config {
        Some(p) => Some(expand_full(p.as_str(), home, vars)),
        None => None,
    };
    let ghost m = maildir;
    let ghost n = notmuch_config;
    let r = with_expanded_paths(cfg, maildir, notmuch_config);
    assert(expanded_config(cfg, m, n) == r);
    r
}

} // verus!

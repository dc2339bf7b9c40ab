use nm_mailmover::actions::Actions;
use nm_mailmover::cli::{remove_leading_v, LogLevel};
use nm_mailmover::expand::lookup_variable;
use nm_mailmover::config::{
    both_defaults_message, config_source, expand_paths, is_lua_config, lua_package_path, with_expanded_paths, Config,
    ConfigSource, MatchMode, Rule,
};

#[test]
fn default_config() {
    let cfg: Config = Default::default();
    assert_eq!(cfg.maildir, "~/mail");
    assert_eq!(cfg.notmuch_config, None);
    assert!(!cfg.rename);
    assert_eq!(cfg.max_age_days, None);
    assert!(cfg.rules.is_empty());
    assert_eq!(cfg.rule_match_mode, None);
    assert_eq!(cfg.mode(), MatchMode::Unique);
}

#[test]
fn match_mode_names() {
    for mode in [MatchMode::Unique, MatchMode::First, MatchMode::All] {
        assert_eq!(MatchMode::from_name(mode.name()), Some(mode));
    }
    assert_eq!(MatchMode::Unique.name(), "unique");
    assert_eq!(MatchMode::First.name(), "first");
    assert_eq!(MatchMode::All.name(), "all");
    assert_eq!(MatchMode::from_name("Unique"), None);
    assert_eq!(MatchMode::from_name("last"), None);
    assert_eq!(MatchMode::unknown_name_message("last"), "unknown match mode: last");
}

#[test]
fn rule_description() {
    let plain = Rule { folder: "Trash".to_string(), query: "tag:trash".to_string(), prefix: None };
    assert_eq!(plain.describe(), "Rule Trash: tag:trash");
    let scoped = Rule {
        folder: "work/Trash".to_string(),
        query: "tag:trash".to_string(),
        prefix: Some("work".to_string()),
    };
    assert_eq!(scoped.describe(), "Rule work/Trash with prefix 'work': tag:trash");
}

#[test]
fn log_levels() {
    assert_eq!(LogLevel::default(), LogLevel::Info);
    let names: Vec<&str> = [LogLevel::Trace, LogLevel::Debug, LogLevel::Info, LogLevel::Warn, LogLevel::Error]
        .iter()
        .map(|l| l.name())
        .collect();
    assert_eq!(names, vec!["trace", "debug", "info", "warn", "error"]);
}

#[test]
fn version_without_leading_v() {
    assert_eq!(remove_leading_v(b"v0.6.0-3-gabc"), b"0.6.0-3-gabc");
    assert_eq!(remove_leading_v(b"0.6.0"), b"0.6.0");
    assert_eq!(remove_leading_v(b"v"), b"");
    assert_eq!(remove_leading_v(b""), b"");
}

#[test]
fn actions_assign_each_file_once() {
    let mut actions = Actions::new();
    assert!(actions.is_empty());
    assert_eq!(actions.insert("a".to_string(), "X".to_string()), None);
    assert_eq!(actions.insert("b".to_string(), "Y".to_string()), None);
    assert_eq!(actions.insert("a".to_string(), "Z".to_string()), Some("X".to_string()));
    assert_eq!(actions.len(), 2);
    assert_eq!(actions.get("a").unwrap(), "Z");
    assert_eq!(actions.get("c"), None);
    let mut entries = actions.into_entries();
    entries.sort();
    assert_eq!(entries, vec![("a".to_string(), "Z".to_string()), ("b".to_string(), "Y".to_string())]);
}

#[test]
fn config_sources() {
    for yaml in [false, true] {
        for lua in [false, true] {
            assert_eq!(config_source(true, yaml, lua), Some(ConfigSource::Given));
        }
    }
    assert_eq!(config_source(false, true, true), None);
    assert_eq!(config_source(false, true, false), Some(ConfigSource::DefaultYaml));
    assert_eq!(config_source(false, false, true), Some(ConfigSource::DefaultLua));
    assert_eq!(config_source(false, false, false), Some(ConfigSource::CreateDefaultYaml));
    assert_eq!(
        both_defaults_message("/c/config.yaml", "/c/config.lua"),
        "Both /c/config.yaml and /c/config.lua exist, please remove one"
    );
}

#[test]
fn lua_configuration() {
    assert!(is_lua_config("/c/config.lua"));
    assert!(!is_lua_config("/c/config.yaml"));
    assert!(!is_lua_config("/c/lua"));
    assert!(!is_lua_config("/c/config.lua.bak"));
    assert_eq!(
        lua_package_path("/c"),
        "package.path = package.path .. ';/c/?.lua;/c/?/init.lua;;'"
    );
}

fn no_home() -> Option<String> {
    None
}

fn home() -> Option<String> {
    Some("/home/u".to_string())
}

fn vars() -> Vec<(String, String)> {
    vec![("MAILROOT".to_string(), "/srv".to_string()), ("EMPTY".to_string(), String::new())]
}

#[test]
fn plain_paths_stay_and_unknown_variables_fail() {
    let cfg = Config {
        maildir: "/var/mail".to_string(),
        notmuch_config: Some("/etc/notmuch".to_string()),
        rename: true,
        max_age_days: Some(3),
        rule_match_mode: Some(MatchMode::All),
        ..Default::default()
    };
    let expanded = expand_paths(cfg, &home(), &vars()).ok().unwrap();
    assert_eq!(expanded.maildir, "/var/mail");
    assert_eq!(expanded.notmuch_config, Some("/etc/notmuch".to_string()));
    assert!(expanded.rename);
    assert_eq!(expanded.max_age_days, Some(3));
    assert_eq!(expanded.rule_match_mode, Some(MatchMode::All));

    let bad = Config {
        maildir: "/var/mail".to_string(),
        notmuch_config: Some("${NM_MAILMOVER_UNSET}/notmuch".to_string()),
        ..Default::default()
    };
    assert_eq!(
        expand_paths(bad, &home(), &vars()).err().unwrap(),
        "error looking key 'NM_MAILMOVER_UNSET' up: environment variable not found"
    );
}

#[test]
fn home_led_paths_expand_to_the_home_directory() {
    let expanded = expand_paths(Config::default(), &home(), &vars()).ok().unwrap();
    assert_eq!(expanded.maildir, "/home/u/mail");
    let cfg = Config { notmuch_config: Some("~".to_string()), ..Default::default() };
    let expanded = expand_paths(cfg, &home(), &vars()).ok().unwrap();
    assert_eq!(expanded.notmuch_config, Some("/home/u".to_string()));
    let other_user = Config { maildir: "~other/mail".to_string(), ..Default::default() };
    assert_eq!(expand_paths(other_user, &home(), &vars()).ok().unwrap().maildir, "~other/mail");
    let expanded = expand_paths(Config::default(), &no_home(), &vars()).ok().unwrap();
    assert_eq!(expanded.maildir, "~/mail");
}

#[test]
fn variables_expand_to_their_values() {
    let cfg = Config {
        maildir: "$MAILROOT/mail".to_string(),
        notmuch_config: Some("${NM_MAILMOVER_UNSET:-/etc/notmuch}$EMPTY".to_string()),
        ..Default::default()
    };
    let expanded = expand_paths(cfg, &home(), &vars()).ok().unwrap();
    assert_eq!(expanded.maildir, "/srv/mail");
    assert_eq!(expanded.notmuch_config, Some("/etc/notmuch".to_string()));
}

#[test]
fn expanded_paths_are_put_in_place() {
    let cfg = Config {
        notmuch_config: Some("~/.notmuchrc".to_string()),
        rename: true,
        rules: vec![Rule { folder: "A".to_string(), query: "tag:a".to_string(), prefix: None }],
        ..Default::default()
    };
    let c = with_expanded_paths(
        cfg,
        Ok("/home/u/mail".to_string()),
        Some(Ok("/home/u/.notmuchrc".to_string())),
    )
    .ok()
    .unwrap();
    assert_eq!(c.maildir, "/home/u/mail");
    assert_eq!(c.notmuch_config, Some("/home/u/.notmuchrc".to_string()));
    assert!(c.rename);
    assert_eq!(c.rules.len(), 1);

    let c = with_expanded_paths(Config::default(), Ok("/m".to_string()), None).ok().unwrap();
    assert_eq!(c.maildir, "/m");
    assert_eq!(c.notmuch_config, None);

    let e = with_expanded_paths(
        Config::default(),
        Err("first".to_string()),
        Some(Err("second".to_string())),
    );
    assert_eq!(e.err().unwrap(), "first");
    let e = with_expanded_paths(Config::default(), Ok("/m".to_string()), Some(Err("second".to_string())));
    assert_eq!(e.err().unwrap(), "second");
}

#[test]
fn variables_are_looked_up_by_their_first_entry() {
    let vars = vec![
        ("A".to_string(), "1".to_string()),
        ("B".to_string(), "2".to_string()),
        ("A".to_string(), "3".to_string()),
    ];
    assert_eq!(lookup_variable(&vars, "A"), Ok(Some("1".to_string())));
    assert_eq!(lookup_variable(&vars, "B"), Ok(Some("2".to_string())));
    assert_eq!(lookup_variable(&vars, "C"), Err("environment variable not found".to_string()));
}

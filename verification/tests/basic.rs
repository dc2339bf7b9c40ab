use std::collections::HashMap;

use nm_mailmover::basic::config::{
    config_source, expand_paths, open_failure_message, with_expanded_paths, Config, Rule,
};
use nm_mailmover::config::ConfigSource;
use nm_mailmover::basic::engine::{apply_rules, combined_query, EngineError};
use nm_mailmover::repo::{MailRepo, RepoError};

#[derive(Debug, Default)]
struct DummyRepo {
    tag2mail: HashMap<String, Vec<String>>,
}

impl DummyRepo {
    fn add_mail(&mut self, tag: String, fname: String) {
        self.tag2mail.entry(tag).or_default().push(fname);
    }
}

impl MailRepo for DummyRepo {
    fn search_message(&self, query: &str) -> Result<Vec<String>, RepoError> {
        if let Some(fnames) = self.tag2mail.get(query) {
            return Ok(fnames.to_vec());
        }
        Ok(Vec::new())
    }
}

fn home() -> Option<String> {
    Some("/home/u".to_string())
}

fn rule(folder: &str, query: &str) -> Rule {
    Rule { folder: folder.to_string(), query: query.to_string() }
}

#[test]
fn basic_default_config() {
    let cfg: Config = Default::default();
    assert_eq!(cfg.database_path, "~/mail");
    assert_eq!(cfg.config_path, "~/.notmuchrc");
    assert!(!cfg.rename);
    assert_eq!(cfg.max_age_days, None);
    assert!(cfg.rules.is_empty());
}

#[test]
fn basic_combined_query_joins_all_rules() {
    let cfg = Config {
        rules: vec![rule("A", "tag:a"), rule("B", "tag:b"), rule("C", "tag:c")],
        max_age_days: Some(12),
        ..Default::default()
    };
    assert_eq!(
        "(tag:a) AND (tag:b) AND (tag:c) AND date:\"12_days\"..",
        combined_query(&cfg)
    );
}

#[test]
fn basic_overlap_of_all_rules_is_refused() {
    let cfg = Config { rules: vec![rule("A", "tag:a"), rule("B", "tag:b")], ..Default::default() };
    let mut repo: DummyRepo = Default::default();
    repo.add_mail("(tag:a) AND (tag:b)".to_string(), "x.mail".to_string());
    let err = apply_rules(&cfg, &repo).err().unwrap();
    assert!(matches!(err, EngineError::Overlap { count: 1 }));
    assert_eq!("Rules overlap! overlap count: 1", err.message());
}

#[test]
fn basic_single_rule_is_not_checked_for_overlap() {
    let cfg = Config { rules: vec![rule("A", "tag:a")], ..Default::default() };
    let mut repo: DummyRepo = Default::default();
    repo.add_mail("(tag:a)".to_string(), "x.mail".to_string());
    repo.add_mail("NOT folder:\"A\" AND (tag:a)".to_string(), "x.mail".to_string());
    let actions = apply_rules(&cfg, &repo).ok().unwrap();
    assert_eq!(actions.len(), 1);
    assert_eq!(actions.get("x.mail").unwrap(), "A");
}

#[test]
fn basic_no_rules_no_actions() {
    let cfg: Config = Default::default();
    let repo: DummyRepo = Default::default();
    assert!(apply_rules(&cfg, &repo).ok().unwrap().is_empty());
}

#[test]
fn basic_config_sources() {
    assert_eq!(config_source(true, false), ConfigSource::Given);
    assert_eq!(config_source(true, true), ConfigSource::Given);
    assert_eq!(config_source(false, true), ConfigSource::DefaultYaml);
    assert_eq!(config_source(false, false), ConfigSource::CreateDefaultYaml);
    assert_eq!(open_failure_message("/x.yaml", "gone"), "Failed to open /x.yaml: gone");
}

#[test]
fn basic_plain_paths_stay() {
    let cfg = Config {
        database_path: "/var/mail".to_string(),
        config_path: "/etc/notmuch".to_string(),
        rules: vec![rule("A", "tag:a")],
        ..Default::default()
    };
    let expanded = expand_paths(cfg, &home(), &Vec::new()).ok().unwrap();
    assert_eq!(expanded.database_path, "/var/mail");
    assert_eq!(expanded.config_path, "/etc/notmuch");
    assert_eq!(expanded.rules.len(), 1);
    let bad = Config { database_path: "$NM_MAILMOVER_UNSET_VARIABLE/mail".to_string(), ..Default::default() };
    assert!(expand_paths(bad, &home(), &Vec::new()).is_err());
}

#[test]
fn basic_expanded_paths_are_put_in_place() {
    let cfg = Config { rename: true, rules: vec![rule("A", "tag:a")], ..Default::default() };
    let c = with_expanded_paths(cfg, Ok("/home/u/mail".to_string()), Ok("/home/u/.notmuchrc".to_string()))
        .ok()
        .unwrap();
    assert_eq!(c.database_path, "/home/u/mail");
    assert_eq!(c.config_path, "/home/u/.notmuchrc");
    assert!(c.rename);
    assert_eq!(c.rules.len(), 1);
    let e = with_expanded_paths(Config::default(), Err("first".to_string()), Err("second".to_string()));
    assert_eq!(e.err().unwrap(), "first");
    let e = with_expanded_paths(Config::default(), Ok("/m".to_string()), Err("second".to_string()));
    assert_eq!(e.err().unwrap(), "second");
    let expanded = expand_paths(Config::default(), &home(), &Vec::new()).ok().unwrap();
    assert_eq!(expanded.database_path, "/home/u/mail");
    assert_eq!(expanded.config_path, "/home/u/.notmuchrc");
}

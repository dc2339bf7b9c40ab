use std::collections::HashMap;

use nm_mailmover::basic::config::{Config as BasicConfig, Rule as BasicRule};
use nm_mailmover::basic::engine::apply_rules as apply_basic_rules;
use nm_mailmover::config::{Config, MatchMode, Rule};
use nm_mailmover::engine::{apply_rules, EngineError};
use nm_mailmover::repo::{MailRepo, RepoError};

#[derive(Debug, Default)]
struct DummyRepo {
    tag2mail: HashMap<String, Vec<String>>,
    failing: Option<String>,
}

impl DummyRepo {
    fn add_mail(&mut self, tag: String, fname: String) {
        self.tag2mail.entry(tag).or_default().push(fname);
    }
}

impl MailRepo for DummyRepo {
    fn search_message(&self, query: &str) -> Result<Vec<String>, RepoError> {
        if let Some(bad) = &self.failing {
            if bad == query {
                return Err(RepoError { message: format!("cannot search for {query}") });
            }
        }
        if let Some(fnames) = self.tag2mail.get(query) {
            return Ok(fnames.to_vec());
        }
        Ok(Vec::new())
    }
}

fn rule(folder: &str, query: &str, prefix: Option<&str>) -> Rule {
    Rule {
        folder: folder.to_string(),
        query: query.to_string(),
        prefix: prefix.map(|p| p.to_string()),
    }
}

#[test]
fn engine_simple_test() {
    let mut cfg: Config = Default::default();
    cfg.rules.push(rule("Trash", "tag:trash", None));

    let mut repo: DummyRepo = Default::default();
    repo.add_mail("NOT folder:\"Trash\" AND (tag:trash)".to_string(), "some.mail".to_string());

    let actions = apply_rules(&cfg, &repo).ok().unwrap();
    assert_eq!(1, actions.len(), "actions should have exactly one element");
    let folder = actions.get("some.mail").unwrap();
    assert_eq!("Trash", folder);

    // The basic form, on the same mails.
    let mut basic: BasicConfig = Default::default();
    basic.rules.push(BasicRule { folder: "Trash".to_string(), query: "tag:trash".to_string() });
    let actions = apply_basic_rules(&basic, &repo).ok().unwrap();
    assert_eq!(1, actions.len(), "actions should have exactly one element");
    assert_eq!("Trash", actions.get("some.mail").unwrap());
}

#[test]
fn engine_ambiguous_rule_test() {
    let mut repo: DummyRepo = Default::default();
    repo.add_mail("NOT folder:\"Trash\" AND (tag:trash)".to_string(), "some.mail".to_string());
    repo.add_mail("NOT folder:\"Deleted\" AND (tag:trash)".to_string(), "some.mail".to_string());

    let mut cfg1: Config = Default::default();
    cfg1.rules.push(rule("Trash", "tag:trash", None));
    cfg1.rules.push(rule("Deleted", "tag:trash", None));

    let mut cfg2 = cfg1.clone();
    cfg2.rule_match_mode = Some(MatchMode::Unique);

    for cfg in &[cfg1, cfg2] {
        let actions = apply_rules(cfg, &repo);
        assert!(actions.is_err());
        let err = actions.err().unwrap();
        assert_eq!(
            "Ambiguous rule! Message already assigned to folder Trash, cannot assign to folder Deleted",
            err.message()
        );
    }

    // The basic form, on the same mails.
    let mut basic: BasicConfig = Default::default();
    basic.rules.push(BasicRule { folder: "Trash".to_string(), query: "tag:trash".to_string() });
    basic.rules.push(BasicRule { folder: "Deleted".to_string(), query: "tag:trash".to_string() });
    let actions = apply_basic_rules(&basic, &repo);
    assert!(actions.is_err());
    assert_eq!("Ambiguous result: Trash and Deleted", actions.err().unwrap().message());
}

#[test]
fn rule_match_mode_first_test() {
    let cfg = Config {
        rule_match_mode: Some(MatchMode::First),
        rules: vec![rule("Trash", "tag:trash", None), rule("Deleted", "tag:trash", None)],
        ..Default::default()
    };

    let mut repo: DummyRepo = Default::default();
    repo.add_mail("(NOT folder:Trash) AND (tag:trash)".to_string(), "some.mail".to_string());
    let actions = apply_rules(&cfg, &repo).ok().unwrap();
    assert_eq!(actions.len(), 1);
    let folder = actions.get("some.mail").unwrap();
    assert_eq!("Trash", folder);
}

#[test]
fn rule_match_mode_all() {
    let cfg = Config {
        rule_match_mode: Some(MatchMode::All),
        rules: vec![rule("Trash", "tag:trash", None), rule("Deleted", "tag:trash", None)],
        ..Default::default()
    };

    let mut repo: DummyRepo = Default::default();
    repo.add_mail("(tag:trash)".to_string(), "some.mail".to_string());
    let actions = apply_rules(&cfg, &repo).ok().unwrap();
    assert_eq!(actions.len(), 1);
    let folder = actions.get("some.mail").unwrap();
    assert_eq!("Deleted", folder);
}

#[test]
fn rules_with_prefixes() {
    let cfg = Config {
        rule_match_mode: Some(MatchMode::Unique),
        rules: vec![
            rule("mailbox1/Trash", "tag:trash", Some("mailbox1")),
            rule("mailbox2/Trash", "tag:trash", Some("mailbox2")),
        ],
        ..Default::default()
    };

    let mut repo: DummyRepo = Default::default();
    repo.add_mail(
        "NOT folder:\"mailbox1/Trash\" AND (tag:trash)".to_string(),
        format!("{}/mailbox1/some.mail", cfg.maildir),
    );
    repo.add_mail(
        "NOT folder:\"mailbox2/Trash\" AND (tag:trash)".to_string(),
        format!("{}/mailbox2/some.mail", cfg.maildir),
    );

    let actions = apply_rules(&cfg, &repo).ok().unwrap();
    assert_eq!(actions.len(), 2);

    let folder1 = actions.get("~/mail/mailbox1/some.mail").unwrap();
    let folder2 = actions.get("~/mail/mailbox2/some.mail").unwrap();

    assert_eq!("mailbox1/Trash", folder1);
    assert_eq!("mailbox2/Trash", folder2);
}

#[test]
fn no_rules_give_no_actions() {
    for mode in [None, Some(MatchMode::Unique), Some(MatchMode::First), Some(MatchMode::All)] {
        let cfg = Config { rule_match_mode: mode, ..Default::default() };
        let repo = DummyRepo { failing: Some(String::new()), ..Default::default() };
        let actions = apply_rules(&cfg, &repo).ok().unwrap();
        assert!(actions.is_empty());
    }
}

#[test]
fn overlapping_rules_are_refused() {
    let cfg = Config {
        rules: vec![rule("Trash", "tag:trash", None), rule("Deleted", "tag:deleted", None)],
        max_age_days: Some(30),
        ..Default::default()
    };
    let mut repo: DummyRepo = Default::default();
    repo.add_mail(
        "(tag:trash) AND (tag:deleted) AND date:\"30_days\"..".to_string(),
        "a.mail".to_string(),
    );
    repo.add_mail(
        "(tag:trash) AND (tag:deleted) AND date:\"30_days\"..".to_string(),
        "b.mail".to_string(),
    );
    let err = apply_rules(&cfg, &repo).err().unwrap();
    assert!(matches!(err, EngineError::Overlap { count: 2 }));
    assert_eq!("Rules overlap (2 messages)", err.message());
}

#[test]
fn overlap_counts_only_messages_under_the_longer_prefix() {
    let cfg = Config {
        rules: vec![
            rule("a/Trash", "tag:trash", Some("a")),
            rule("a/b/Trash", "tag:trash", Some("a/b")),
        ],
        ..Default::default()
    };
    let mut repo: DummyRepo = Default::default();
    let both = "(tag:trash) AND (tag:trash)".to_string();
    repo.add_mail(both.clone(), "~/mail/a/x.mail".to_string());
    repo.add_mail(both.clone(), "~/mail/a/bc/y.mail".to_string());
    let actions = apply_rules(&cfg, &repo).ok().unwrap();
    assert!(actions.is_empty());

    repo.add_mail(both, "~/mail/a/b/z.mail".to_string());
    let err = apply_rules(&cfg, &repo).err().unwrap();
    assert!(matches!(err, EngineError::Overlap { count: 1 }));
}

#[test]
fn first_mode_excludes_earlier_rules() {
    let cfg = Config {
        rule_match_mode: Some(MatchMode::First),
        rules: vec![
            rule("Trash", "tag:trash", None),
            rule("Spam", "tag:spam", None),
            rule("Archive", "tag:archive", None),
        ],
        max_age_days: Some(7),
        ..Default::default()
    };
    let mut repo: DummyRepo = Default::default();
    repo.add_mail(
        "(NOT folder:Archive) AND (tag:archive) AND (NOT (tag:trash) AND NOT (tag:spam)) AND date:\"7_days\"..".to_string(),
        "old.mail".to_string(),
    );
    let actions = apply_rules(&cfg, &repo).ok().unwrap();
    assert_eq!(actions.len(), 1);
    assert_eq!("Archive", actions.get("old.mail").unwrap());
}

#[test]
fn repository_errors_are_passed_on() {
    let cfg = Config {
        rule_match_mode: Some(MatchMode::All),
        rules: vec![rule("Trash", "tag:trash", None)],
        ..Default::default()
    };
    let repo = DummyRepo { failing: Some("(tag:trash)".to_string()), ..Default::default() };
    let err = apply_rules(&cfg, &repo).err().unwrap();
    assert_eq!("cannot search for (tag:trash)", err.message());
}

#[test]
fn a_message_found_twice_by_one_rule_is_ambiguous() {
    let cfg = Config { rules: vec![rule("Trash", "tag:trash", None)], ..Default::default() };
    let mut repo: DummyRepo = Default::default();
    let q = "NOT folder:\"Trash\" AND (tag:trash)".to_string();
    repo.add_mail(q.clone(), "x.mail".to_string());
    repo.add_mail(q, "x.mail".to_string());
    let err = apply_rules(&cfg, &repo).err().unwrap();
    assert_eq!(
        "Ambiguous rule! Message already assigned to folder Trash, cannot assign to folder Trash",
        err.message()
    );
}

#[test]
fn two_spellings_of_one_path_are_ambiguous_in_unique_mode() {
    let cfg = Config {
        rules: vec![rule("Trash", "tag:trash", None), rule("Spam", "tag:spam", None)],
        ..Default::default()
    };
    let mut repo: DummyRepo = Default::default();
    repo.add_mail("NOT folder:\"Trash\" AND (tag:trash)".to_string(), "/m/a/x".to_string());
    repo.add_mail("NOT folder:\"Spam\" AND (tag:spam)".to_string(), "/m/a//x".to_string());
    let err = apply_rules(&cfg, &repo).err().unwrap();
    assert_eq!(
        "Ambiguous rule! Message already assigned to folder Trash, cannot assign to folder Spam",
        err.message()
    );
}

#[test]
fn two_spellings_of_one_path_are_one_file_when_rules_override() {
    for (mode, q1, q2) in [
        (MatchMode::All, "(tag:trash)", "(tag:spam)"),
        (MatchMode::First, "(NOT folder:Trash) AND (tag:trash)", "(NOT folder:Spam) AND (tag:spam) AND (NOT (tag:trash))"),
    ] {
        let cfg = Config {
            rule_match_mode: Some(mode),
            rules: vec![rule("Trash", "tag:trash", None), rule("Spam", "tag:spam", None)],
            ..Default::default()
        };
        let mut repo: DummyRepo = Default::default();
        repo.add_mail(q1.to_string(), "/m/a/x".to_string());
        repo.add_mail(q2.to_string(), "/m/a//x/".to_string());
        let actions = apply_rules(&cfg, &repo).ok().unwrap();
        assert_eq!(actions.len(), 1);
        assert_eq!("Spam", actions.get("/m/a/x").unwrap());
        assert_eq!("Spam", actions.get("/m/./a/x").unwrap());
        let entries = actions.into_entries();
        assert_eq!(entries, vec![("/m/a/x".to_string(), "Spam".to_string())]);
    }
}

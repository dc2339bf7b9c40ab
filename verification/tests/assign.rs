use nm_mailmover::actions::Actions;
use nm_mailmover::assign::{assign_all, assign_unique, filter_messages_with_prefix};
use nm_mailmover::engine::scope_of_pair;
use nm_mailmover::query::{all_query, first_query, overlap_query, rule_query};
use nm_mailmover::text::{find_last, has_prefix};

fn strings(v: &[&str]) -> Vec<String> {
    v.iter().map(|s| s.to_string()).collect()
}

#[test]
fn filter_keeps_whole_components_only() {
    let messages = strings(&["/m/a/x", "/m/ab/y", "/m/a", "/m/b/a/z"]);
    assert_eq!(filter_messages_with_prefix(&messages, "/m/a"), strings(&["/m/a/x", "/m/a"]));
    assert!(filter_messages_with_prefix(&messages, "/n").is_empty());
}

#[test]
fn assign_unique_refuses_a_second_folder() {
    let mut actions = Actions::new();
    assert!(assign_unique(&mut actions, strings(&["a", "b"]), &"X".to_string()).is_ok());
    assert_eq!(actions.len(), 2);
    let previous = assign_unique(&mut actions, strings(&["c", "b"]), &"Y".to_string()).err().unwrap();
    assert_eq!(previous, "X");
}

#[test]
fn assign_all_overrides() {
    let mut actions = Actions::new();
    assign_all(&mut actions, strings(&["a", "b"]), &"X".to_string());
    assign_all(&mut actions, strings(&["b", "c", "c"]), &"Y".to_string());
    assert_eq!(actions.len(), 3);
    assert_eq!(actions.get("a").unwrap(), "X");
    assert_eq!(actions.get("b").unwrap(), "Y");
    assert_eq!(actions.get("c").unwrap(), "Y");
}

#[test]
fn pair_scopes() {
    let p = |s: &str| Some(s.to_string());
    assert_eq!(scope_of_pair("/m", &None, &None), Some(None));
    assert_eq!(scope_of_pair("/m", &p("a"), &None), Some(Some("/m/a".to_string())));
    assert_eq!(scope_of_pair("/m", &None, &p("b")), Some(Some("/m/b".to_string())));
    assert_eq!(scope_of_pair("/m", &p("a/b"), &p("a")), Some(Some("/m/a/b".to_string())));
    assert_eq!(scope_of_pair("/m", &p("a"), &p("a/b")), Some(Some("/m/a/b".to_string())));
    assert_eq!(scope_of_pair("/m", &p("a"), &p("b")), None);
}

#[test]
fn query_texts() {
    assert_eq!(rule_query("Trash", "tag:trash", None), "NOT folder:\"Trash\" AND (tag:trash)");
    assert_eq!(
        rule_query("Trash", "tag:trash", Some(90)),
        "NOT folder:\"Trash\" AND (tag:trash) AND date:\"90_days\".."
    );
    assert_eq!(overlap_query("tag:a", "tag:b", None), "(tag:a) AND (tag:b)");
    assert_eq!(first_query("A", "tag:a", "", None), "(NOT folder:A) AND (tag:a)");
    assert_eq!(
        first_query("A", "tag:a", "NOT (tag:b)", Some(1)),
        "(NOT folder:A) AND (tag:a) AND (NOT (tag:b)) AND date:\"1_days\".."
    );
    assert_eq!(all_query("tag:a", Some(4294967295)), "(tag:a) AND date:\"4294967295_days\"..");
}

#[test]
fn text_helpers() {
    assert!(has_prefix("abc", "ab"));
    assert!(has_prefix("abc", ""));
    assert!(!has_prefix("ab", "abc"));
    assert!(!has_prefix("abc", "b"));
    assert_eq!(find_last("a:b:c", ':'), Some(3));
    assert_eq!(find_last("abc", ':'), None);
    assert_eq!(find_last("äö:ü", ':'), Some(2));
}

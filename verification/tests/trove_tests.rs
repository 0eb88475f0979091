use hoard::template::{parse_tags, tags_to_string, CommandTemplate, TemplateDraft};
use hoard::trove::{StoreError, Trove};

fn template(namespace: &str, name: &str, command: &str) -> CommandTemplate {
    CommandTemplate {
        identity: 1,
        name: name.to_string(),
        namespace: namespace.to_string(),
        command: command.to_string(),
        description: String::new(),
        tags: Vec::new(),
        usage_count: 0,
        created: 10,
        modified: 10,
        last_used: 10,
    }
}

fn sample() -> Trove {
    let mut trove = Trove::new();
    trove.add(template("ops", "deploy-staging", "deploy staging"), false).unwrap();
    trove.add(template("ops", "deploy-prod", "deploy prod"), false).unwrap();
    trove.add(template("default", "backup", "tar czf"), false).unwrap();
    trove
}

fn names(trove: &Trove) -> Vec<String> {
    trove.commands.iter().map(|c| c.name.clone()).collect()
}

#[test]
fn new_trove_is_empty() {
    let trove = Trove::new();
    assert!(trove.is_empty());
    assert_eq!(trove.len(), 0);
    assert!(trove.is_well_formed());
}

#[test]
fn add_appends_in_insertion_order() {
    let trove = sample();
    assert_eq!(trove.len(), 3);
    assert_eq!(names(&trove), vec!["deploy-staging", "deploy-prod", "backup"]);
}

#[test]
fn add_without_overwrite_refuses_duplicate() {
    let mut trove = sample();
    let before = trove.clone();
    let result = trove.add(template("ops", "deploy-prod", "other"), false);
    assert_eq!(result, Err(StoreError::DuplicateName));
    assert_eq!(trove, before);
}

#[test]
fn add_with_overwrite_replaces_in_place() {
    let mut trove = sample();
    let result = trove.add(template("ops", "deploy-staging", "new command"), true);
    assert_eq!(result, Ok(()));
    assert_eq!(trove.len(), 3);
    assert_eq!(trove.commands[0].command, "new command");
    assert_eq!(names(&trove), vec!["deploy-staging", "deploy-prod", "backup"]);
}

#[test]
fn same_name_in_other_namespace_is_no_duplicate() {
    let mut trove = sample();
    assert_eq!(trove.add(template("default", "deploy-prod", "x"), false), Ok(()));
    assert_eq!(trove.len(), 4);
    assert!(trove.is_well_formed());
}

#[test]
fn keys_stay_unique_over_many_adds() {
    let mut trove = Trove::new();
    let calls = [
        ("a", "x", true),
        ("a", "x", false),
        ("b", "x", false),
        ("a", "y", true),
        ("a", "x", true),
        ("b", "x", true),
        ("b", "x", false),
        ("a", "y", false),
    ];
    for (namespace, name, overwrite) in calls {
        let _ = trove.add(template(namespace, name, "c"), overwrite);
        assert!(trove.is_well_formed());
    }
    assert_eq!(trove.len(), 3);
}

#[test]
fn is_well_formed_sees_a_duplicate() {
    let trove = Trove {
        commands: vec![template("a", "x", "1"), template("b", "x", "2"), template("a", "x", "3")],
    };
    assert!(!trove.is_well_formed());
}

#[test]
fn position_finds_by_namespace_and_name() {
    let trove = sample();
    assert_eq!(trove.position(&"ops".to_string(), &"deploy-prod".to_string()), Some(1));
    assert_eq!(trove.position(&"default".to_string(), &"deploy-prod".to_string()), None);
}

#[test]
fn remove_takes_the_named_template_out() {
    let mut trove = sample();
    assert_eq!(trove.remove(&"deploy-prod".to_string()), Ok(()));
    assert_eq!(names(&trove), vec!["deploy-staging", "backup"]);
}

#[test]
fn remove_of_absent_name_is_not_found() {
    let mut trove = sample();
    let before = trove.clone();
    assert_eq!(trove.remove(&"nothing".to_string()), Err(StoreError::NotFound));
    assert_eq!(trove, before);
}

#[test]
fn remove_namespace_takes_all_of_it_out() {
    let mut trove = sample();
    assert_eq!(trove.remove_namespace(&"ops".to_string()), Ok(()));
    assert_eq!(names(&trove), vec!["backup"]);
    assert_eq!(trove.remove_namespace(&"ops".to_string()), Err(StoreError::NotFound));
    assert_eq!(names(&trove), vec!["backup"]);
}

#[test]
fn merge_with_itself_changes_nothing() {
    let trove = sample();
    assert_eq!(Trove::merge(&trove, &trove), trove);
    let empty = Trove::new();
    assert_eq!(Trove::merge(&empty, &empty), empty);
}

#[test]
fn merge_overwrites_and_appends() {
    let base = sample();
    let mut incoming = Trove::new();
    incoming.add(template("ops", "deploy-prod", "from incoming"), false).unwrap();
    incoming.add(template("new", "fresh", "echo"), false).unwrap();
    let merged = Trove::merge(&base, &incoming);
    assert_eq!(names(&merged), vec!["deploy-staging", "deploy-prod", "backup", "fresh"]);
    assert_eq!(merged.commands[1].command, "from incoming");
    assert_eq!(merged.commands[0].command, "deploy staging");
    // The arguments are untouched.
    assert_eq!(base, sample());
}

#[test]
fn merge_does_not_deduplicate_by_content() {
    let mut base = Trove::new();
    base.add(template("a", "one", "same"), false).unwrap();
    let mut incoming = Trove::new();
    incoming.add(template("a", "two", "same"), false).unwrap();
    assert_eq!(Trove::merge(&base, &incoming).len(), 2);
}

#[test]
fn from_commands_lets_the_later_one_win() {
    let trove = Trove::from_commands(&vec![
        template("a", "x", "first"),
        template("a", "y", "second"),
        template("a", "x", "third"),
    ]);
    assert_eq!(names(&trove), vec!["x", "y"]);
    assert_eq!(trove.commands[0].command, "third");
}

#[test]
fn namespaces_are_distinct_in_order_of_first_use() {
    let mut trove = sample();
    trove.add(template("default", "other", "x"), false).unwrap();
    assert_eq!(trove.namespaces(), vec!["ops".to_string(), "default".to_string()]);
    assert_eq!(Trove::new().namespaces(), Vec::<String>::new());
}

#[test]
fn pick_returns_the_first_of_the_name() {
    let mut trove = sample();
    trove.add(template("default", "deploy-prod", "second"), false).unwrap();
    let picked = trove.pick(&"deploy-prod".to_string()).unwrap();
    assert_eq!(picked.namespace, "ops");
    assert_eq!(trove.pick(&"absent".to_string()), Err(StoreError::NotFound));
}

#[test]
fn replace_at_checks_index_and_key() {
    let mut trove = sample();
    assert_eq!(trove.replace_at(7, template("z", "z", "z")), Err(StoreError::NotFound));
    assert_eq!(
        trove.replace_at(0, template("ops", "deploy-prod", "clash")),
        Err(StoreError::DuplicateName)
    );
    assert_eq!(trove, sample());
    assert_eq!(trove.replace_at(0, template("ops", "renamed", "deploy staging")), Ok(()));
    assert_eq!(names(&trove), vec!["renamed", "deploy-prod", "backup"]);
    // Replacing a template by one under its own key is no clash.
    assert_eq!(trove.replace_at(1, template("ops", "deploy-prod", "again")), Ok(()));
    assert_eq!(trove.commands[1].command, "again");
}

#[test]
fn record_use_counts_once_and_keeps_time_moving_forward() {
    let mut trove = sample();
    let ops = "ops".to_string();
    let name = "deploy-prod".to_string();
    assert_eq!(trove.record_use(&ops, &name, 50), Ok(()));
    assert_eq!(trove.commands[1].usage_count, 1);
    assert_eq!(trove.commands[1].last_used, 50);
    assert_eq!(trove.record_use(&ops, &name, 20), Ok(()));
    assert_eq!(trove.commands[1].usage_count, 2);
    assert_eq!(trove.commands[1].last_used, 50);
    assert_eq!(trove.commands[0].usage_count, 0);
    assert_eq!(trove.record_use(&ops, &"absent".to_string(), 60), Err(StoreError::NotFound));
}

#[test]
fn usage_count_stops_at_the_largest_value() {
    let mut t = template("a", "x", "c");
    t.usage_count = u64::MAX;
    t.record_use(11);
    assert_eq!(t.usage_count, u64::MAX);
    assert_eq!(t.last_used, 11);
}

#[test]
fn clone_is_equal() {
    let tags = vec!["a".to_string(), "b".to_string()];
    let t = CommandTemplate { tags, ..template("n", "x", "c") };
    assert_eq!(t.clone(), t);
    assert!(t.has_key_of(&template("n", "x", "other")));
    assert!(!t.has_key_of(&template("m", "x", "c")));
}

#[test]
fn tags_are_split_trimmed_and_deduplicated() {
    assert_eq!(parse_tags("net, ssh ,net,, ops"), vec!["net", "ssh", "ops"]);
    assert_eq!(parse_tags(""), Vec::<String>::new());
    assert_eq!(parse_tags(" , ,"), Vec::<String>::new());
    assert_eq!(parse_tags("one"), vec!["one"]);
    assert_eq!(parse_tags("a b,\tc"), vec!["ab", "c"]);
}

#[test]
fn tags_join_with_commas() {
    assert_eq!(tags_to_string(&vec!["a".to_string(), "b".to_string(), "c".to_string()]), "a,b,c");
    assert_eq!(tags_to_string(&vec!["solo".to_string()]), "solo");
    assert_eq!(tags_to_string(&Vec::new()), "");
}

#[test]
fn draft_with_defaults() {
    let draft = TemplateDraft {
        name: Some("list".to_string()),
        namespace: None,
        command: Some("ls -la".to_string()),
        description: None,
        tags: Some("fs, fs, files".to_string()),
    };
    let made = CommandTemplate::from_draft(&draft, 42, 1000).unwrap();
    assert_eq!(
        made,
        CommandTemplate {
            identity: 42,
            name: "list".to_string(),
            namespace: "default".to_string(),
            command: "ls -la".to_string(),
            description: String::new(),
            tags: vec!["fs".to_string(), "files".to_string()],
            usage_count: 0,
            created: 1000,
            modified: 1000,
            last_used: 1000,
        }
    );
}

#[test]
fn draft_without_name_or_command_makes_nothing() {
    let full = TemplateDraft {
        name: Some("n".to_string()),
        namespace: Some("ns".to_string()),
        command: Some("c".to_string()),
        description: Some("d".to_string()),
        tags: None,
    };
    let made = CommandTemplate::from_draft(&full, 1, 2).unwrap();
    assert_eq!(made.namespace, "ns");
    assert_eq!(made.description, "d");
    assert!(made.tags.is_empty());
    let no_name = TemplateDraft { name: None, ..clone_draft(&full) };
    assert_eq!(CommandTemplate::from_draft(&no_name, 1, 2), None);
    let empty_name = TemplateDraft { name: Some(String::new()), ..clone_draft(&full) };
    assert_eq!(CommandTemplate::from_draft(&empty_name, 1, 2), None);
    let no_command = TemplateDraft { command: None, ..clone_draft(&full) };
    assert_eq!(CommandTemplate::from_draft(&no_command, 1, 2), None);
}

fn clone_draft(draft: &TemplateDraft) -> TemplateDraft {
    TemplateDraft {
        name: draft.name.clone(),
        namespace: draft.namespace.clone(),
        command: draft.command.clone(),
        description: draft.description.clone(),
        tags: draft.tags.clone(),
    }
}

#[test]
fn same_as_compares_every_part() {
    let a = sample();
    assert!(a.same_as(&sample()));
    let mut b = sample();
    b.commands[2].tags.push("t".to_string());
    assert!(!a.same_as(&b));
    let mut c = sample();
    c.commands[0].usage_count = 1;
    assert!(!a.same_as(&c));
    assert!(!a.same_as(&Trove::new()));
    let t = template("n", "x", "c");
    assert!(t.same_as(&t.clone()));
    assert!(!t.same_as(&template("n", "x", "d")));
}

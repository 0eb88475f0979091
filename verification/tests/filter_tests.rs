use hoard::filter::{filter, next_selector, previous_selector, selectors};
use hoard::template::CommandTemplate;
use hoard::trove::Trove;

fn template(namespace: &str, name: &str) -> CommandTemplate {
    CommandTemplate {
        identity: 0,
        name: name.to_string(),
        namespace: namespace.to_string(),
        command: String::new(),
        description: String::new(),
        tags: Vec::new(),
        usage_count: 0,
        created: 0,
        modified: 0,
        last_used: 0,
    }
}

fn sample() -> Trove {
    Trove::from_commands(&vec![
        template("ops", "deploy-staging"),
        template("ops", "deploy-prod"),
        template("default", "backup"),
    ])
}

fn names(trove: &Trove) -> Vec<String> {
    trove.commands.iter().map(|c| c.name.clone()).collect()
}

#[test]
fn filter_by_query_keeps_order() {
    let shown = filter(&sample(), "deploy", "All");
    assert_eq!(names(&shown), vec!["deploy-staging", "deploy-prod"]);
}

#[test]
fn filter_by_namespace_alone() {
    let shown = filter(&sample(), "", "ops");
    assert_eq!(names(&shown), vec!["deploy-staging", "deploy-prod"]);
    let shown = filter(&sample(), "", "default");
    assert_eq!(names(&shown), vec!["backup"]);
}

#[test]
fn filter_without_match_is_empty() {
    let shown = filter(&sample(), "xyz", "All");
    assert!(shown.is_empty());
}

#[test]
fn filter_with_nothing_to_ask_shows_all() {
    assert_eq!(filter(&sample(), "", "All"), sample());
}

#[test]
fn filter_sets_letter_case_aside() {
    assert_eq!(names(&filter(&sample(), "DEPLOY", "All")), vec!["deploy-staging", "deploy-prod"]);
    assert_eq!(names(&filter(&sample(), "Prod", "OPS")), vec!["deploy-prod"]);
    let upper = Trove::from_commands(&vec![template("Ops", "Deploy-ÄB")]);
    assert_eq!(names(&filter(&upper, "deploy-äb", "ops")), vec!["Deploy-ÄB"]);
}

#[test]
fn filter_matches_within_the_name() {
    assert_eq!(names(&filter(&sample(), "ack", "All")), vec!["backup"]);
    assert_eq!(names(&filter(&sample(), "-", "All")), vec!["deploy-staging", "deploy-prod"]);
    assert_eq!(names(&filter(&sample(), "backup", "ops")), Vec::<String>::new());
    assert_eq!(names(&filter(&sample(), "backups", "All")), Vec::<String>::new());
}

#[test]
fn the_reserved_selector_is_spelled_exactly() {
    // "all" is the name of a namespace like any other.
    assert!(filter(&sample(), "", "all").is_empty());
}

#[test]
fn selectors_are_sorted_and_distinct() {
    assert_eq!(selectors(&sample()), vec!["All", "default", "ops"]);
    assert_eq!(selectors(&Trove::new()), vec!["All"]);
    let more = Trove::from_commands(&vec![
        template("zeta", "a"),
        template("All", "b"),
        template("Beta", "c"),
        template("alpha", "d"),
        template("zeta", "e"),
        template("alp", "f"),
    ]);
    assert_eq!(selectors(&more), vec!["All", "Beta", "alp", "alpha", "zeta"]);
}

#[test]
fn selector_cycling_wraps_around() {
    let trove = sample();
    let all = "All".to_string();
    let default = "default".to_string();
    let ops = "ops".to_string();
    assert_eq!(next_selector(&trove, &all), default);
    assert_eq!(next_selector(&trove, &default), ops);
    assert_eq!(next_selector(&trove, &ops), all);
    assert_eq!(previous_selector(&trove, &all), ops);
    assert_eq!(previous_selector(&trove, &ops), default);
    assert_eq!(previous_selector(&trove, &default), all);
}

#[test]
fn cycling_from_an_unknown_selector_starts_at_the_first() {
    let trove = sample();
    let gone = "gone".to_string();
    assert_eq!(next_selector(&trove, &gone), "default");
    assert_eq!(previous_selector(&trove, &gone), "ops");
    let empty = Trove::new();
    assert_eq!(next_selector(&empty, &"All".to_string()), "All");
    assert_eq!(previous_selector(&empty, &"All".to_string()), "All");
}

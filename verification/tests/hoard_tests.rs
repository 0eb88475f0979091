use hoard::hoard::{Hoard, HoardConfig};
use hoard::template::{CommandTemplate, TemplateDraft};
use hoard::trove::{StoreError, Trove};

fn config(path: Option<&str>) -> HoardConfig {
    HoardConfig {
        trove_path: path.map(|p| p.to_string()),
        parameter_token: Some("#".to_string()),
        parameter_ending_token: Some("!".to_string()),
    }
}

fn template(namespace: &str, name: &str) -> CommandTemplate {
    CommandTemplate {
        identity: 0,
        name: name.to_string(),
        namespace: namespace.to_string(),
        command: format!("run {name}"),
        description: String::new(),
        tags: Vec::new(),
        usage_count: 0,
        created: 0,
        modified: 0,
        last_used: 0,
    }
}

fn sample() -> Trove {
    Trove::from_commands(&vec![
        template("ops", "deploy-staging"),
        template("ops", "deploy-prod"),
        template("default", "backup"),
    ])
}

fn loaded() -> Hoard {
    let mut hoard = Hoard::new(config(Some("/home/u/trove.yml")));
    hoard.load_trove(sample());
    hoard
}

fn names(trove: &Trove) -> Vec<String> {
    trove.commands.iter().map(|c| c.name.clone()).collect()
}

#[test]
fn a_new_hoard_is_empty() {
    let hoard = Hoard::new(config(None));
    assert!(hoard.trove.is_empty());
    assert_eq!(hoard.config, config(None));
}

#[test]
fn load_takes_the_store_as_read() {
    assert_eq!(loaded().trove, sample());
}

#[test]
fn save_goes_to_the_configured_path() {
    let request = loaded().save_trove(None);
    assert_eq!(request.path, "/home/u/trove.yml");
    assert_eq!(request.trove, sample());
}

#[test]
fn save_goes_to_the_given_path() {
    let request = loaded().save_trove(Some("/tmp/other.yml".to_string()));
    assert_eq!(request.path, "/tmp/other.yml");
    assert_eq!(request.trove, sample());
    let mut unconfigured = Hoard::new(config(None));
    unconfigured.load_trove(sample());
    assert_eq!(unconfigured.save_trove(Some("x".to_string())).path, "x");
}

#[test]
fn backup_goes_beside_the_store() {
    let request = loaded().save_backup_trove(None);
    assert_eq!(request.path, "/home/u/trove.yml.bk");
    assert_eq!(request.trove, sample());
    assert_eq!(loaded().save_backup_trove(Some("/b".to_string())).path, "/b");
}

#[test]
fn new_command_overwrites() {
    let mut hoard = loaded();
    let draft = TemplateDraft {
        name: Some("backup".to_string()),
        namespace: None,
        command: Some("rsync".to_string()),
        description: None,
        tags: None,
    };
    assert!(hoard.new_command(&draft, 9, 77));
    assert_eq!(hoard.trove.len(), 3);
    assert_eq!(hoard.trove.commands[2].command, "rsync");
    assert_eq!(hoard.trove.commands[2].identity, 9);
    assert_eq!(hoard.trove.commands[2].created, 77);
    let nameless = TemplateDraft { name: None, ..draft };
    assert!(!hoard.new_command(&nameless, 9, 77));
    assert_eq!(hoard.trove.len(), 3);
}

#[test]
fn remove_command_and_namespace() {
    let mut hoard = loaded();
    assert_eq!(hoard.remove_command(&"backup".to_string()), Ok(()));
    assert_eq!(hoard.remove_command(&"backup".to_string()), Err(StoreError::NotFound));
    assert_eq!(hoard.remove_namespace(&"ops".to_string()), Ok(()));
    assert!(hoard.trove.is_empty());
    assert_eq!(hoard.remove_namespace(&"ops".to_string()), Err(StoreError::NotFound));
}

#[test]
fn pick_by_name() {
    let hoard = loaded();
    assert_eq!(hoard.pick_command(&"deploy-prod".to_string()).unwrap().command, "run deploy-prod");
    assert_eq!(hoard.pick_command(&"none".to_string()), Err(StoreError::NotFound));
}

#[test]
fn import_merges() {
    let mut hoard = loaded();
    let mut changed = template("ops", "deploy-prod");
    changed.command = "imported".to_string();
    let incoming = Trove::from_commands(&vec![changed, template("lab", "probe")]);
    hoard.import_trove(&incoming);
    assert_eq!(names(&hoard.trove), vec!["deploy-staging", "deploy-prod", "backup", "probe"]);
    assert_eq!(hoard.trove.commands[1].command, "imported");
    let before = hoard.trove.clone();
    hoard.import_trove(&before);
    assert_eq!(hoard.trove, before);
}

#[test]
fn export_offers_the_templates_of_the_chosen_namespaces() {
    let hoard = loaded();
    let candidates = hoard.export_candidates(&vec!["ops".to_string()]);
    let offered: Vec<String> = candidates.iter().map(|c| c.name.clone()).collect();
    assert_eq!(offered, vec!["deploy-staging", "deploy-prod"]);
    assert!(hoard.export_candidates(&Vec::new()).is_empty());
    let both = hoard.export_candidates(&vec!["default".to_string(), "ops".to_string()]);
    assert_eq!(both.len(), 3);
    let exported = Hoard::export_command(&vec![candidates[1].clone()]);
    assert_eq!(names(&exported), vec!["deploy-prod"]);
}

#[test]
fn list_filters_by_name() {
    let hoard = loaded();
    assert_eq!(names(&hoard.list_commands(Some("Deploy".to_string()))).len(), 2);
    assert_eq!(hoard.list_commands(None), sample());
    assert!(hoard.list_commands(Some("xyz".to_string())).is_empty());
}

#[test]
fn the_token_can_be_changed() {
    let mut hoard = loaded();
    hoard.set_parameter_token("$".to_string());
    assert_eq!(hoard.config.parameter_token, Some("$".to_string()));
    assert_eq!(hoard.config.parameter_ending_token, Some("!".to_string()));
    assert_eq!(hoard.config.trove_path, Some("/home/u/trove.yml".to_string()));
    assert_eq!(hoard.trove, sample());
}

#[test]
fn edit_replaces_the_named_command() {
    let mut hoard = loaded();
    let mut edited = template("ops", "deploy-production");
    edited.command = "deploy".to_string();
    assert_eq!(hoard.edit_command(&"deploy-prod".to_string(), edited), Ok(()));
    assert_eq!(names(&hoard.trove), vec!["deploy-staging", "backup", "deploy-production"]);
    // An edit that keeps the name puts the command at the end.
    assert_eq!(hoard.edit_command(&"backup".to_string(), template("default", "backup")), Ok(()));
    assert_eq!(names(&hoard.trove), vec!["deploy-staging", "deploy-production", "backup"]);
    // An edit onto a taken key takes that template's place.
    let onto = template("ops", "deploy-staging");
    assert_eq!(hoard.edit_command(&"backup".to_string(), onto), Ok(()));
    assert_eq!(names(&hoard.trove), vec!["deploy-staging", "deploy-production"]);
}

#[test]
fn edit_of_an_absent_command_is_not_found() {
    let mut hoard = loaded();
    let result = hoard.edit_command(&"absent".to_string(), template("x", "y"));
    assert_eq!(result, Err(StoreError::NotFound));
    assert_eq!(hoard.trove, sample());
}

use hoard::placeholder::{
    next_placeholder, parse, placeholders, resolve, resolve_command, Placeholder, Segment,
};

fn strings(items: &[&str]) -> Vec<String> {
    items.iter().map(|s| s.to_string()).collect()
}

#[test]
fn positional_placeholders_take_values_in_order() {
    let resolved = resolve_command("ssh _ -p _", "_", "!", &strings(&["host1", "22"]));
    assert_eq!(resolved, Some("ssh host1 -p 22".to_string()));
}

#[test]
fn named_placeholder_takes_one_value_for_all_occurrences() {
    let resolved =
        resolve_command("docker run --name #APP# #APP#:latest", "#", "#", &strings(&["web"]));
    assert_eq!(resolved, Some("docker run --name web web:latest".to_string()));
}

#[test]
fn parse_splits_literals_and_slots() {
    let segments = parse("ssh _ -p _", "_", "!");
    assert_eq!(
        segments,
        vec![
            Segment::Literal("ssh ".to_string()),
            Segment::Slot(Placeholder::Positional),
            Segment::Literal(" -p ".to_string()),
            Segment::Slot(Placeholder::Positional),
        ]
    );
}

#[test]
fn parse_named_with_distinct_delimiters() {
    let segments = parse("echo #a! and #b! and #a!", "#", "!");
    assert_eq!(
        segments,
        vec![
            Segment::Literal("echo ".to_string()),
            Segment::Slot(Placeholder::Named("a".to_string())),
            Segment::Literal(" and ".to_string()),
            Segment::Slot(Placeholder::Named("b".to_string())),
            Segment::Literal(" and ".to_string()),
            Segment::Slot(Placeholder::Named("a".to_string())),
        ]
    );
    assert_eq!(
        placeholders(&segments),
        vec![Placeholder::Named("a".to_string()), Placeholder::Named("b".to_string())]
    );
    assert_eq!(
        resolve(&segments, &strings(&["x", "y"])),
        Some("echo x and y and x".to_string())
    );
}

#[test]
fn unterminated_named_placeholder_falls_back_to_positional() {
    // The ending token occurs, but not behind the second token.
    let segments = parse("cp #src! #", "#", "!");
    assert_eq!(
        segments,
        vec![
            Segment::Literal("cp ".to_string()),
            Segment::Slot(Placeholder::Named("src".to_string())),
            Segment::Literal(" ".to_string()),
            Segment::Slot(Placeholder::Positional),
        ]
    );
    assert_eq!(resolve(&segments, &strings(&["a", "b"])), Some("cp a b".to_string()));
}

#[test]
fn command_without_token_is_one_literal() {
    assert_eq!(parse("ls -la", "#", "!"), vec![Segment::Literal("ls -la".to_string())]);
    assert_eq!(resolve_command("ls -la", "#", "!", &Vec::new()), Some("ls -la".to_string()));
}

#[test]
fn empty_command_has_no_segments() {
    assert_eq!(parse("", "#", "!"), Vec::<Segment>::new());
    assert_eq!(resolve_command("", "#", "!", &Vec::new()), Some(String::new()));
}

#[test]
fn empty_token_marks_nothing() {
    assert_eq!(parse("echo #", "", "!"), vec![Segment::Literal("echo #".to_string())]);
}

#[test]
fn multi_character_tokens() {
    let resolved = resolve_command("curl {{url}} -o {{out}}", "{{", "}}", &strings(&["u", "f"]));
    assert_eq!(resolved, Some("curl u -o f".to_string()));
}

#[test]
fn wrong_number_of_values_is_refused() {
    let segments = parse("ssh _ -p _", "_", "!");
    assert_eq!(resolve(&segments, &strings(&["host1"])), None);
    assert_eq!(resolve(&segments, &strings(&["a", "b", "c"])), None);
    assert_eq!(resolve(&segments, &strings(&["a", "b"])), Some("ssh a -p b".to_string()));
}

#[test]
fn values_are_put_in_as_they_are() {
    // A value that holds the token is not read again.
    let resolved = resolve_command("echo _ _", "_", "!", &strings(&["_", "$(x)"]));
    assert_eq!(resolved, Some("echo _ $(x)".to_string()));
}

#[test]
fn next_placeholder_reports_ordinal_and_kind() {
    let segments = parse("scp #file! _", "#", "!");
    // "_" is no token here: one named placeholder only.
    assert_eq!(
        next_placeholder(&segments, 0),
        Some((0, Placeholder::Named("file".to_string())))
    );
    assert_eq!(next_placeholder(&segments, 1), None);

    let segments = parse("a _ b _", "_", "!");
    assert_eq!(next_placeholder(&segments, 0), Some((0, Placeholder::Positional)));
    assert_eq!(next_placeholder(&segments, 1), Some((1, Placeholder::Positional)));
    assert_eq!(next_placeholder(&segments, 2), None);
}

#[test]
fn non_ascii_text_survives() {
    let resolved = resolve_command("echo «_» ünïcödé", "_", "!", &strings(&["häuser"]));
    assert_eq!(resolved, Some("echo «häuser» ünïcödé".to_string()));
}

use hoard::display::{partial_highlighted_line, usage_count_to_emoji, usage_count_to_ticks};

#[test]
fn ticks_grow_with_use_up_to_a_full_bar() {
    assert_eq!(usage_count_to_ticks(0), "");
    assert_eq!(usage_count_to_ticks(1), "▌");
    assert_eq!(usage_count_to_ticks(3), "▌▌▌");
    assert_eq!(usage_count_to_ticks(29), "▌".repeat(29));
    assert_eq!(usage_count_to_ticks(30), format!("{}...", "▌".repeat(30)));
    assert_eq!(usage_count_to_ticks(u64::MAX), format!("{}...", "▌".repeat(30)));
}

#[test]
fn signs_of_use() {
    assert_eq!(usage_count_to_emoji(0), "");
    assert_eq!(usage_count_to_emoji(1), "🌱");
    assert_eq!(usage_count_to_emoji(2), "🌱");
    assert_eq!(usage_count_to_emoji(3), "🌿");
    assert_eq!(usage_count_to_emoji(4), "🌿");
    assert_eq!(usage_count_to_emoji(5), "🔥");
    assert_eq!(usage_count_to_emoji(30), "🔥");
    assert_eq!(usage_count_to_emoji(31), "💀");
}

fn parts(before: &str, hit: &str, after: &str) -> Option<(String, String, String)> {
    Some((before.to_string(), hit.to_string(), after.to_string()))
}

#[test]
fn the_first_match_is_set_off() {
    assert_eq!(partial_highlighted_line("deploy-prod", "prod"), parts("deploy-", "prod", ""));
    assert_eq!(partial_highlighted_line("deploy-prod", "de"), parts("", "de", "ploy-prod"));
    assert_eq!(partial_highlighted_line("abcabc", "bc"), parts("a", "bc", "abc"));
    assert_eq!(partial_highlighted_line("name", ""), parts("", "", "name"));
    assert_eq!(partial_highlighted_line("", ""), parts("", "", ""));
    assert_eq!(partial_highlighted_line("grüße", "üß"), parts("gr", "üß", "e"));
}

#[test]
fn no_match_no_parts() {
    assert_eq!(partial_highlighted_line("deploy", "x"), None);
    assert_eq!(partial_highlighted_line("", "x"), None);
    assert_eq!(partial_highlighted_line("Deploy", "deploy"), None);
    assert_eq!(partial_highlighted_line("ab", "abc"), None);
}

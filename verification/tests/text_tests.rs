use hoard::text::{
    chars_of, contains_text, drop_last_word, find, find_text, insert_in_order, less, matches_at,
    push_distinct, same_texts, slice_string, sort_distinct, string_of,
};

fn chars(text: &str) -> Vec<char> {
    text.chars().collect()
}

fn strings(items: &[&str]) -> Vec<String> {
    items.iter().map(|s| s.to_string()).collect()
}

#[test]
fn strings_and_characters_convert_both_ways() {
    assert_eq!(chars_of("añb"), vec!['a', 'ñ', 'b']);
    assert_eq!(chars_of(""), Vec::<char>::new());
    assert_eq!(string_of(&vec!['x', '→', 'y']), "x→y");
    assert_eq!(string_of(&chars_of("round trip ✓")), "round trip ✓");
    assert_eq!(slice_string(&chars("abcdef"), 2, 4), "cd");
    assert_eq!(slice_string(&chars("abcdef"), 3, 3), "");
    assert_eq!(slice_string(&chars("abcdef"), 0, 6), "abcdef");
}

#[test]
fn find_gives_the_first_match_from_a_position() {
    let hay = chars("abcabcabc");
    assert_eq!(find(&hay, &chars("bc"), 0), Some(1));
    assert_eq!(find(&hay, &chars("bc"), 1), Some(1));
    assert_eq!(find(&hay, &chars("bc"), 2), Some(4));
    assert_eq!(find(&hay, &chars("bc"), 8), None);
    assert_eq!(find(&hay, &chars("bc"), 100), None);
    assert_eq!(find(&hay, &chars("x"), 0), None);
    assert_eq!(find(&hay, &chars(""), 0), Some(0));
    assert_eq!(find(&hay, &chars(""), 9), Some(9));
    assert_eq!(find(&hay, &chars(""), 10), None);
    assert_eq!(find(&chars("ab"), &chars("abc"), 0), None);
    assert_eq!(find(&hay, &chars("abcabcabc"), 0), Some(0));
}

#[test]
fn matches_at_checks_one_position() {
    let hay = chars("hello");
    assert!(matches_at(&hay, &chars("ell"), 1));
    assert!(!matches_at(&hay, &chars("ell"), 0));
    assert!(!matches_at(&hay, &chars("lo"), 4));
    assert!(matches_at(&hay, &chars(""), 5));
    assert!(!matches_at(&hay, &chars(""), 6));
    assert!(!matches_at(&hay, &chars("hello!"), 0));
}

#[test]
fn dictionary_order() {
    assert!(less(&chars("a"), &chars("b")));
    assert!(!less(&chars("b"), &chars("a")));
    assert!(less(&chars("ab"), &chars("abc")));
    assert!(!less(&chars("abc"), &chars("ab")));
    assert!(!less(&chars("abc"), &chars("abc")));
    assert!(less(&chars(""), &chars("a")));
    assert!(!less(&chars(""), &chars("")));
    assert!(less(&chars("Z"), &chars("a")));
    assert!(less(&chars("az"), &chars("b")));
    assert!(less(&chars("z"), &chars("é")));
}

#[test]
fn sorting_drops_repeats() {
    assert_eq!(
        sort_distinct(&strings(&["pear", "apple", "fig", "apple", "pear", "a"])),
        strings(&["a", "apple", "fig", "pear"])
    );
    assert_eq!(sort_distinct(&Vec::new()), Vec::<String>::new());
    let mut list = strings(&["b", "d"]);
    insert_in_order(&mut list, "c".to_string());
    insert_in_order(&mut list, "a".to_string());
    insert_in_order(&mut list, "e".to_string());
    insert_in_order(&mut list, "c".to_string());
    assert_eq!(list, strings(&["a", "b", "c", "d", "e"]));
}

#[test]
fn looking_texts_up() {
    let items = strings(&["x", "y", "x"]);
    assert!(contains_text(&items, &"y".to_string()));
    assert!(!contains_text(&items, &"z".to_string()));
    assert_eq!(find_text(&items, &"x".to_string()), Some(0));
    assert_eq!(find_text(&items, &"y".to_string()), Some(1));
    assert_eq!(find_text(&items, &"z".to_string()), None);
    let mut grown = strings(&["x"]);
    push_distinct(&mut grown, "y".to_string());
    push_distinct(&mut grown, "x".to_string());
    assert_eq!(grown, strings(&["x", "y"]));
    assert!(same_texts(&grown, &strings(&["x", "y"])));
    assert!(!same_texts(&grown, &strings(&["y", "x"])));
    assert!(!same_texts(&grown, &strings(&["x"])));
}

#[test]
fn the_last_word_goes() {
    assert_eq!(drop_last_word("This is a search"), "This is a");
    assert_eq!(drop_last_word("  spaced   out  words  "), "spaced out");
    assert_eq!(drop_last_word("one"), "");
    assert_eq!(drop_last_word("   "), "");
    assert_eq!(drop_last_word(""), "");
    assert_eq!(drop_last_word("tab\tseparated\nwords"), "tab separated");
}

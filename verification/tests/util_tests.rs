use tiny_console::util::{
    bbcode_escape, bbcode_strip, calculate_osa_distance, fuzzy_match_string,
    is_valid_ascii_identifier, is_valid_command_sequence, replace,
};

fn strings(items: &[&str]) -> Vec<String> {
    items.iter().map(|s| s.to_string()).collect()
}

#[test]
fn escape_turns_brackets_into_escapes() {
    assert_eq!(bbcode_escape("[b]bold[/b]"), "[lb]b[rb]bold[lb]/b[rb]");
    assert_eq!(bbcode_escape("plain"), "plain");
    assert_eq!(bbcode_escape(""), "");
}

#[test]
fn escape_also_turns_markers_already_present() {
    assert_eq!(bbcode_escape("~LB~x~RB~"), "[lb]x[rb]");
    assert_eq!(bbcode_escape("~RB~LB~"), "~RB[lb]");
}

#[test]
fn strip_removes_tags_and_keeps_text() {
    assert_eq!(bbcode_strip("[color=red]ERROR:[/color] text"), "ERROR: text");
    assert_eq!(bbcode_strip("a]b[c"), "ab");
    assert_eq!(bbcode_strip("[unterminated tag"), "");
    assert_eq!(bbcode_strip("é[i]ñ[/i]日"), "éñ日");
}

#[test]
fn replace_works_left_to_right_without_overlap() {
    assert_eq!(replace("aaaa", "aa", "b"), "bb");
    assert_eq!(replace("aaa", "aa", "b"), "ba");
    assert_eq!(replace("hello {name}!", "{name}", "world"), "hello world!");
    assert_eq!(replace("abc", "", "x"), "abc");
    assert_eq!(replace("abc", "abcd", "x"), "abc");
}

#[test]
fn osa_distance_exact_values() {
    assert_eq!(calculate_osa_distance("", ""), 0);
    assert_eq!(calculate_osa_distance("", "abc"), 3);
    assert_eq!(calculate_osa_distance("abc", ""), 3);
    assert_eq!(calculate_osa_distance("same", "same"), 0);
    assert_eq!(calculate_osa_distance("kitten", "sitting"), 3);
    assert_eq!(calculate_osa_distance("ab", "ba"), 1);
    assert_eq!(calculate_osa_distance("qiut", "quit"), 1);
    assert_eq!(calculate_osa_distance("flaw", "lawn"), 2);
}

#[test]
fn osa_distance_edits_no_character_twice() {
    // A swap followed by an insertion between the swapped letters is not allowed,
    // so this costs three edits and not two.
    assert_eq!(calculate_osa_distance("ca", "abc"), 3);
}

#[test]
fn osa_distance_counts_characters_not_bytes() {
    assert_eq!(calculate_osa_distance("é", "e"), 1);
    assert_eq!(calculate_osa_distance("日本", "日本語"), 1);
}

#[test]
fn fuzzy_match_finds_close_command() {
    let haystack = strings(&["quit", "help", "commands"]);
    assert_eq!(fuzzy_match_string("qiut", 2, &haystack), Some("quit".to_string()));
    assert_eq!(fuzzy_match_string("zzzz", 2, &haystack), None);
}

#[test]
fn fuzzy_match_first_of_equally_close_wins() {
    let haystack = strings(&["bat", "rat", "cat2"]);
    assert_eq!(fuzzy_match_string("cat", 2, &haystack), Some("bat".to_string()));
}

#[test]
fn fuzzy_match_respects_threshold() {
    let haystack = strings(&["abc"]);
    assert_eq!(fuzzy_match_string("abcdef", 2, &haystack), None);
    assert_eq!(fuzzy_match_string("abcdef", 3, &haystack), Some("abc".to_string()));
    assert_eq!(fuzzy_match_string("abc", 0, &haystack), Some("abc".to_string()));
}

#[test]
fn fuzzy_match_in_empty_haystack_is_none() {
    assert_eq!(fuzzy_match_string("anything", 100, &Vec::new()), None);
}

#[test]
fn identifiers() {
    assert!(is_valid_ascii_identifier("quit"));
    assert!(is_valid_ascii_identifier("_private"));
    assert!(is_valid_ascii_identifier("fps_max2"));
    assert!(!is_valid_ascii_identifier(""));
    assert!(!is_valid_ascii_identifier("9lives"));
    assert!(!is_valid_ascii_identifier("has space"));
    assert!(!is_valid_ascii_identifier("dash-ed"));
    assert!(!is_valid_ascii_identifier("é"));
}

#[test]
fn command_sequences() {
    assert!(is_valid_command_sequence("quit"));
    assert!(is_valid_command_sequence("cache clear"));
    assert!(is_valid_command_sequence("a b_c d1"));
    assert!(!is_valid_command_sequence(""));
    assert!(!is_valid_command_sequence("a  b"));
    assert!(!is_valid_command_sequence(" a"));
    assert!(!is_valid_command_sequence("a "));
    assert!(!is_valid_command_sequence("cache 1clear"));
}

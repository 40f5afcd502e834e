use tiny_console::commands::Handler;
use tiny_console::console_options::ConsoleOptions;
use tiny_console::tiny_console::{ConsoleColors, TinyConsole};

fn strings(items: &[&str]) -> Vec<String> {
    items.iter().map(|s| s.to_string()).collect()
}

fn colors() -> ConsoleColors {
    ConsoleColors {
        output_command: "CMD".to_string(),
        output_command_mention: "MEN".to_string(),
        output_error: "ERR".to_string(),
        output_warning: "WRN".to_string(),
        output_text: "TXT".to_string(),
        output_debug: "DBG".to_string(),
    }
}

fn console_with(options: ConsoleOptions) -> TinyConsole {
    let mut c = TinyConsole::new(options, colors());
    for (i, name) in ["help", "hello", "cache clear", "cache stats", "give"].iter().enumerate() {
        c.register_command(
            Handler { id: i as u64, method_name: String::new(), signature: None, bound_args: 0 },
            name,
            "",
            true,
        );
    }
    c.add_alias("hi", "hello");
    c.add_argument_autocomplete_source("give", 0, 77, true);
    c
}

fn console() -> TinyConsole {
    console_with(ConsoleOptions::new())
}

#[test]
fn first_word_is_completed_from_names() {
    let mut c = console();
    let hint = c.update_autocomplete("he", None);
    assert_eq!(c.autocomplete_matches, strings(&["hello", "help"]));
    assert_eq!(hint, "llo");
}

#[test]
fn first_words_are_offered_once() {
    let mut c = console();
    let hint = c.update_autocomplete("c", None);
    assert_eq!(c.autocomplete_matches, strings(&["cache"]));
    assert_eq!(hint, "ache");
    assert_eq!(c.first_input_autocompletes("h"), strings(&["hello", "help", "hi"]));
    assert_eq!(c.first_input_autocompletes("x"), Vec::<String>::new());
}

#[test]
fn candidates_are_kept_until_cleared() {
    let mut c = console();
    let _ = c.update_autocomplete("he", None);
    let hint = c.update_autocomplete("hel", None);
    assert_eq!(c.autocomplete_matches, strings(&["hello", "help"]));
    assert_eq!(hint, "lo");
    let hint = c.update_autocomplete("x", None);
    assert_eq!(c.autocomplete_matches, strings(&["hello", "help"]));
    assert_eq!(hint, "");
    c.clear_autocomplete();
    let hint = c.update_autocomplete("help", None);
    assert_eq!(c.autocomplete_matches, strings(&["help"]));
    assert_eq!(hint, "");
}

#[test]
fn empty_line_has_no_candidates() {
    let mut c = console();
    assert_eq!(c.update_autocomplete("", None), "");
    assert!(c.autocomplete_matches.is_empty());
}

#[test]
fn second_word_of_a_command_name_is_completed() {
    let mut c = console();
    let hint = c.update_autocomplete("cache ", None);
    assert_eq!(c.autocomplete_matches, strings(&["cache clear", "cache stats"]));
    assert_eq!(hint, "clear");
    c.clear_autocomplete();
    let hint = c.update_autocomplete("cache s", None);
    assert_eq!(c.autocomplete_matches, strings(&["cache stats"]));
    assert_eq!(hint, "tats");
    assert_eq!(c.subcommand_autocompletes("cache x"), Vec::<String>::new());
    assert_eq!(c.subcommand_autocompletes("other c"), Vec::<String>::new());
}

#[test]
fn argument_is_completed_from_its_source() {
    let mut c = console();
    assert_eq!(c.completion_source("give s"), Some(77));
    assert_eq!(c.completion_source("give "), Some(77));
    assert_eq!(c.completion_source("give"), None);
    assert_eq!(c.completion_source("give a b"), None);
    assert_eq!(c.completion_source("help s"), None);
    let values = strings(&["sword", "shield", "bow"]);
    let hint = c.update_autocomplete("give s", Some(&values));
    assert_eq!(c.autocomplete_matches, strings(&["give shield", "give sword"]));
    assert_eq!(hint, "hield");
}

#[test]
fn source_that_gave_nothing_offers_nothing() {
    let mut c = console();
    let hint = c.update_autocomplete("give s", None);
    assert!(c.autocomplete_matches.is_empty());
    assert_eq!(hint, "");
}

#[test]
fn history_is_offered_after_other_candidates() {
    let mut c = console();
    c.history.push_entry("give bow".to_string());
    c.history.push_entry("give sword 2".to_string());
    c.history.push_entry("give shield 1".to_string());
    let values = strings(&["sword", "shield", "bow"]);
    let _ = c.update_autocomplete("give s", Some(&values));
    assert_eq!(
        c.autocomplete_matches,
        strings(&["give shield", "give sword", "give shield 1", "give sword 2"])
    );
    assert_eq!(c.history_autocompletes("give"), strings(&["give shield 1", "give sword 2", "give bow"]));
}

#[test]
fn history_can_be_kept_for_when_nothing_else_matches() {
    let mut options = ConsoleOptions::new();
    options.autocomplete_use_history_with_matches = false;
    let mut c = console_with(options);
    c.history.push_entry("give sword 2".to_string());
    c.history.push_entry("help me".to_string());
    let values = strings(&["sword"]);
    let _ = c.update_autocomplete("give s", Some(&values));
    assert_eq!(c.autocomplete_matches, strings(&["give sword"]));
    c.clear_autocomplete();
    let _ = c.update_autocomplete("help m", None);
    assert_eq!(c.autocomplete_matches, strings(&["help me"]));
}

#[test]
fn alias_is_expanded_before_arguments_are_completed() {
    let mut c = console();
    c.add_alias("g", "give");
    assert_eq!(c.completion_arguments("g s"), strings(&["give", "s"]));
    assert_eq!(c.completion_source("g s"), Some(77));
    let values = strings(&["sword"]);
    let _ = c.update_autocomplete("g s", Some(&values));
    assert_eq!(c.autocomplete_matches, strings(&["g sword"]));
}

#[test]
fn argument_longer_than_the_line_offers_nothing() {
    let mut c = console();
    c.add_alias("g", "give something_long");
    let values = strings(&["something_long_and_more"]);
    assert_eq!(c.argument_autocompletes("g", &strings(&["give", "something_long"]), Some(&values)), Vec::<String>::new());
}

#[test]
fn completion_arguments_get_an_empty_last_one_after_a_space() {
    let c = console();
    assert_eq!(c.completion_arguments("help "), strings(&["help", ""]));
    assert_eq!(c.completion_arguments("help"), strings(&["help"]));
    assert_eq!(c.completion_arguments(""), strings(&[""]));
    assert_eq!(c.completion_arguments("hi there"), strings(&["hello", "there"]));
}

#[test]
fn cycling_rotates_the_candidates() {
    let mut c = console();
    c.autocomplete_matches = strings(&["a", "b", "c"]);
    assert_eq!(c.autocomplete(), Some("b".to_string()));
    assert_eq!(c.autocomplete_matches, strings(&["b", "c", "a"]));
    assert_eq!(c.autocomplete(), Some("c".to_string()));
    assert_eq!(c.autocomplete(), Some("a".to_string()));
    assert_eq!(c.autocomplete_matches, strings(&["a", "b", "c"]));
    assert_eq!(c.reverse_autocomplete(), Some("c".to_string()));
    assert_eq!(c.autocomplete_matches, strings(&["c", "a", "b"]));
    assert_eq!(c.autocomplete(), Some("a".to_string()));
    assert_eq!(c.autocomplete_matches, strings(&["a", "b", "c"]));
}

#[test]
fn cycling_without_candidates_does_nothing() {
    let mut c = console();
    assert_eq!(c.autocomplete(), None);
    assert_eq!(c.reverse_autocomplete(), None);
    assert!(c.autocomplete_matches.is_empty());
}

#[test]
fn hint_needs_a_longer_first_candidate_that_continues_the_line() {
    let mut c = console();
    c.autocomplete_matches = strings(&["hello", "help"]);
    assert_eq!(c.autocomplete_hint("he"), "llo");
    assert_eq!(c.autocomplete_hint("hello"), "");
    assert_eq!(c.autocomplete_hint("hex"), "");
    assert_eq!(c.autocomplete_hint(""), "hello");
    c.autocomplete_matches = strings(&["héllo"]);
    assert_eq!(c.autocomplete_hint("hé"), "llo");
}

#[test]
fn history_keys_walk_the_history_and_clear_candidates() {
    let mut c = console();
    let _ = c.prepare_command("help", false);
    let _ = c.prepare_command("hello", false);
    c.autocomplete_matches = strings(&["stale"]);
    assert_eq!(c.history_up(), "hello");
    assert!(c.autocomplete_matches.is_empty());
    assert_eq!(c.history_up(), "help");
    assert_eq!(c.history_down(), "hello");
    assert_eq!(c.history_down(), "");
}

#[test]
fn emptied_line_resets_the_history_cursor() {
    let mut c = console();
    let _ = c.prepare_command("help", false);
    let _ = c.prepare_command("hello", false);
    assert_eq!(c.history_up(), "hello");
    assert_eq!(c.entry_text_changed("", None), "");
    assert_eq!(c.history_up(), "hello");
    c.autocomplete_matches = strings(&["stale"]);
    assert_eq!(c.entry_text_changed("he", None), "llo");
    assert_eq!(c.autocomplete_matches, strings(&["hello", "help"]));
}

#[test]
fn no_arguments_offer_nothing() {
    let c = console();
    assert_eq!(c.argument_autocompletes("", &Vec::new(), None), Vec::<String>::new());
    assert_eq!(
        c.argument_autocompletes("give", &strings(&["give"]), Some(&strings(&["sword"]))),
        Vec::<String>::new()
    );
}

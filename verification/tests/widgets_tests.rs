use tiny_console::command_entry::{key_response, EntryAction, EntryKey, KeyPress, KeyResponse};
use tiny_console::command_entry_highlighter::{get_line_syntax_highlighting, Highlighting};
use tiny_console::history_gui::HistoryGui;
use tiny_console::registry::{Command, Registry};

fn strings(items: &[&str]) -> Vec<String> {
    items.iter().map(|s| s.to_string()).collect()
}

fn registry() -> Registry {
    let mut r = Registry::new();
    for (i, name) in ["quit", "cache clear", "cache"].iter().enumerate() {
        r.register(Command {
            name: name.to_string(),
            handler: i as u64,
            signature: None,
            bound_args: 0,
            description: String::new(),
        });
    }
    r.add_alias("exit", strings(&["quit"]));
    r
}

#[test]
fn known_command_and_its_arguments() {
    assert_eq!(
        get_line_syntax_highlighting(&registry(), "quit now"),
        Some(Highlighting { command_found: true, subcommand_start: None, text_start: 5 })
    );
    assert_eq!(
        get_line_syntax_highlighting(&registry(), "quit"),
        Some(Highlighting { command_found: true, subcommand_start: None, text_start: 4 })
    );
    assert_eq!(
        get_line_syntax_highlighting(&registry(), "exit "),
        Some(Highlighting { command_found: true, subcommand_start: None, text_start: 5 })
    );
    assert_eq!(
        get_line_syntax_highlighting(&registry(), "  quit   now"),
        Some(Highlighting { command_found: true, subcommand_start: Some(9), text_start: 7 })
    );
}

#[test]
fn later_words_of_a_command_name_are_set_off() {
    assert_eq!(
        get_line_syntax_highlighting(&registry(), "cache clear all"),
        Some(Highlighting { command_found: true, subcommand_start: Some(6), text_start: 12 })
    );
    assert_eq!(
        get_line_syntax_highlighting(&registry(), "cache stats"),
        Some(Highlighting { command_found: true, subcommand_start: None, text_start: 6 })
    );
}

#[test]
fn unknown_command() {
    assert_eq!(
        get_line_syntax_highlighting(&registry(), "nope x y"),
        Some(Highlighting { command_found: false, subcommand_start: None, text_start: 5 })
    );
    assert_eq!(
        get_line_syntax_highlighting(&registry(), "nope"),
        Some(Highlighting { command_found: false, subcommand_start: None, text_start: 4 })
    );
}

#[test]
fn line_without_words_is_not_highlighted() {
    assert_eq!(get_line_syntax_highlighting(&registry(), ""), None);
    assert_eq!(get_line_syntax_highlighting(&registry(), "   "), None);
}

#[test]
fn positions_count_characters() {
    assert_eq!(
        get_line_syntax_highlighting(&registry(), "né quit"),
        Some(Highlighting { command_found: false, subcommand_start: None, text_start: 3 })
    );
}

#[test]
fn browser_starts_with_a_placeholder() {
    let b = HistoryGui::new();
    assert_eq!(b.get_command(), "<placeholder>");
    assert_eq!(b.get_current_text(true), "<placeholder>");
    assert_eq!(b.get_current_index(), 0);
}

#[test]
fn browser_walks_rows_then_scrolls() {
    let mut b = HistoryGui::new();
    assert!(b.set_display_count(2));
    b.set_search_results(&strings(&["a", "b", "c", "d"]));
    assert_eq!(b.get_current_text(true), "a");
    assert_eq!(b.visible_rows(5), strings(&["a", "b"]));

    assert!(!b.increment_index());
    assert_eq!((b.offset, b.sub_index), (0, 1));
    assert_eq!(b.get_current_text(true), "b");

    assert!(b.increment_index());
    assert_eq!((b.offset, b.sub_index), (1, 1));
    assert_eq!(b.get_current_text(true), "c");
    assert_eq!(b.visible_rows(5), strings(&["b", "c"]));

    assert!(b.increment_index());
    assert_eq!(b.get_current_text(true), "d");
    assert!(!b.increment_index());
    assert_eq!(b.get_current_index(), 3);

    assert!(!b.decrement_index());
    assert_eq!((b.offset, b.sub_index), (2, 0));
    assert!(b.decrement_index());
    assert_eq!((b.offset, b.sub_index), (1, 0));
    assert!(b.decrement_index());
    assert!(!b.decrement_index());
    assert_eq!(b.get_current_index(), 0);
}

#[test]
fn browser_rows_beyond_the_found_lines_are_empty() {
    let mut b = HistoryGui::new();
    b.set_display_count(3);
    b.set_search_results(&strings(&["a"]));
    assert_eq!(b.visible_rows(3), strings(&["a", "", ""]));
    assert_eq!(b.visible_rows(2), strings(&["a", ""]));
    assert!(!b.increment_index());
    b.set_search_results(&Vec::new());
    assert_eq!(b.get_current_text(true), "<placeholder>");
    assert_eq!(b.visible_rows(3), strings(&["", "", ""]));
}

#[test]
fn browser_list_only_grows() {
    let mut b = HistoryGui::new();
    assert!(!b.set_display_count(0));
    assert!(b.set_display_count(3));
    b.set_search_results(&strings(&["a", "b", "c"]));
    b.increment_index();
    assert!(!b.set_display_count(2));
    assert!(!b.set_display_count(3));
    assert_eq!(b.get_current_index(), 1);
    assert!(b.set_display_count(4));
    assert_eq!(b.get_current_index(), 0);
    assert_eq!(b.display_count, 4);
}

#[test]
fn browser_text_searched_for() {
    let mut b = HistoryGui::new();
    b.search("gi");
    assert_eq!(b.get_command(), "gi");
    b.set_command("git");
    assert_eq!(b.get_current_text(false), "git");
    b.set_search_results(&strings(&["git status"]));
    assert_eq!(b.get_current_text(false), "git");
    assert_eq!(b.get_current_text(true), "git status");
    b.reset_indexes();
    assert_eq!(b.get_current_index(), 0);
}

fn press(key: EntryKey) -> KeyPress {
    KeyPress {
        key,
        pressed: true,
        ctrl: false,
        shift: false,
        selection_empty: true,
        caret_at_end: false,
        has_hint: false,
    }
}

#[test]
fn entry_line_keys() {
    let taken = |action| KeyResponse { action, handled: true };
    let passed = KeyResponse { action: None, handled: false };
    assert_eq!(key_response(press(EntryKey::Enter)), taken(Some(EntryAction::Submit)));
    assert_eq!(key_response(press(EntryKey::Tab)), taken(Some(EntryAction::Autocomplete)));
    assert_eq!(
        key_response(KeyPress { shift: true, ..press(EntryKey::Tab) }),
        taken(Some(EntryAction::ReverseAutocomplete))
    );
    assert_eq!(key_response(press(EntryKey::Up)), taken(Some(EntryAction::HistoryUp)));
    assert_eq!(key_response(press(EntryKey::Down)), taken(Some(EntryAction::HistoryDown)));
    assert_eq!(key_response(press(EntryKey::PageUp)), taken(Some(EntryAction::ScrollUp)));
    assert_eq!(key_response(press(EntryKey::PageDown)), taken(Some(EntryAction::ScrollDown)));
    assert_eq!(key_response(press(EntryKey::Other)), passed);
    assert_eq!(key_response(press(EntryKey::C)), passed);
    assert_eq!(
        key_response(KeyPress { ctrl: true, ..press(EntryKey::C) }),
        taken(Some(EntryAction::ClearInput))
    );
    assert_eq!(
        key_response(KeyPress { ctrl: true, selection_empty: false, ..press(EntryKey::C) }),
        passed
    );
    assert_eq!(key_response(press(EntryKey::Right)), passed);
    assert_eq!(
        key_response(KeyPress { caret_at_end: true, ..press(EntryKey::End) }),
        taken(None)
    );
    assert_eq!(
        key_response(KeyPress { caret_at_end: true, has_hint: true, ..press(EntryKey::Right) }),
        taken(Some(EntryAction::Autocomplete))
    );
    assert_eq!(
        key_response(KeyPress { pressed: false, ..press(EntryKey::Enter) }),
        taken(None)
    );
}

use tiny_console::ascii_art::{boxed_map, is_boxed_art_supported, str_to_boxed_art};

#[test]
fn draws_letters_side_by_side() {
    assert_eq!(
        str_to_boxed_art("hi"),
        vec!["░█▄█░█".to_string(), "▒█▒█░█".to_string()]
    );
}

#[test]
fn drawing_ignores_case() {
    assert_eq!(str_to_boxed_art("HI"), str_to_boxed_art("hi"));
    assert_eq!(
        str_to_boxed_art("A"),
        vec!["▒▄▀█".to_string(), "░█▀█".to_string()]
    );
}

#[test]
fn unsupported_character_is_drawn_as_placeholder() {
    assert_eq!(
        str_to_boxed_art("@"),
        vec!["░▒░".to_string(), "▒░▒".to_string()]
    );
}

#[test]
fn empty_text_draws_two_empty_lines() {
    assert_eq!(str_to_boxed_art(""), vec![String::new(), String::new()]);
}

#[test]
fn support_check() {
    assert!(is_boxed_art_supported("Tiny Console"));
    assert!(is_boxed_art_supported("v1.2-rc_3, ok?!"));
    assert!(is_boxed_art_supported(""));
    assert!(!is_boxed_art_supported("a@b"));
    assert!(!is_boxed_art_supported("日本"));
}

#[test]
fn glyph_lookup() {
    assert_eq!(boxed_map('z'), Some(("░▀█", "▒█▄")));
    assert_eq!(boxed_map(' '), Some(("░", "░")));
    assert_eq!(boxed_map('9'), Some(("░██", "░▄█")));
    assert_eq!(boxed_map('A'), None);
    assert_eq!(boxed_map('#'), None);
}

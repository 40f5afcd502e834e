use tiny_console::tokenizer::parse_command_line;

fn strings(items: &[&str]) -> Vec<String> {
    items.iter().map(|s| s.to_string()).collect()
}

#[test]
fn quotes_and_brackets_keep_spaces() {
    assert_eq!(
        parse_command_line("cmd \"a b\" (1, 2,3)"),
        strings(&["cmd", "\"a b\"", "(1, 2,3)"])
    );
}

#[test]
fn blank_line_has_no_arguments() {
    assert_eq!(parse_command_line(""), Vec::<String>::new());
    assert_eq!(parse_command_line("   \t  "), Vec::<String>::new());
}

#[test]
fn repeated_spaces_make_no_empty_arguments() {
    assert_eq!(parse_command_line("  a   b  "), strings(&["a", "b"]));
}

#[test]
fn unterminated_quote_runs_to_end_of_line() {
    assert_eq!(parse_command_line("say \"hello world"), strings(&["say", "\"hello world"]));
}

#[test]
fn multibyte_characters_are_kept_whole() {
    assert_eq!(parse_command_line("écho ñandú 日本語"), strings(&["écho", "ñandú", "日本語"]));
}

#[test]
fn any_white_space_separates_arguments() {
    assert_eq!(parse_command_line("a\tb"), strings(&["a", "b"]));
    assert_eq!(parse_command_line("a \t\u{a0} b\u{3000}c"), strings(&["a", "b", "c"]));
    assert_eq!(parse_command_line("say \"a\tb\" (1,\t2)"), strings(&["say", "\"a\tb\"", "(1,\t2)"]));
}

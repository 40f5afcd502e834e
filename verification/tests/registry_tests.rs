use tiny_console::registry::{
    command_name_from_method, AliasOutcome, Command, RegisterOutcome, Registry, SourceOutcome,
};
use tiny_console::resolver::AliasLoop;

fn strings(items: &[&str]) -> Vec<String> {
    items.iter().map(|s| s.to_string()).collect()
}

fn command(name: &str, handler: u64) -> Command {
    Command {
        name: name.to_string(),
        handler,
        signature: None,
        bound_args: 0,
        description: format!("about {}", name),
    }
}

fn registry_with(names: &[&str]) -> Registry {
    let mut r = Registry::new();
    for (i, name) in names.iter().enumerate() {
        assert_eq!(r.register(command(name, i as u64)), RegisterOutcome::Registered);
    }
    r
}

#[test]
fn alias_resolves_to_its_command() {
    let mut r = registry_with(&["quit"]);
    assert_eq!(r.add_alias("exit", strings(&["quit"])), AliasOutcome::Added);
    assert_eq!(r.resolve(strings(&["exit"])), Ok(strings(&["quit"])));
}

#[test]
fn words_that_name_a_command_are_joined() {
    let r = registry_with(&["cache clear"]);
    assert!(!r.has_command("cache"));
    assert_eq!(
        r.resolve(strings(&["cache", "clear", "now"])),
        Ok(strings(&["cache clear", "now"]))
    );
}

#[test]
fn alias_of_itself_is_a_loop() {
    let mut r = registry_with(&["quit"]);
    assert_eq!(r.add_alias("a", strings(&["a"])), AliasOutcome::Added);
    assert_eq!(r.resolve(strings(&["a"])), Err(AliasLoop { remaining: strings(&["a"]) }));
}

#[test]
fn aliases_of_each_other_are_a_loop() {
    let mut r = Registry::new();
    assert_eq!(r.add_alias("a", strings(&["b"])), AliasOutcome::Added);
    assert_eq!(r.add_alias("b", strings(&["c", "x"])), AliasOutcome::Added);
    assert_eq!(r.add_alias("c", strings(&["a"])), AliasOutcome::Added);
    assert!(r.resolve(strings(&["a"])).is_err());
    assert!(r.expand_alias(strings(&["b", "tail"])).is_err());
}

#[test]
fn alias_arguments_come_before_typed_ones() {
    let mut r = registry_with(&["cache clear"]);
    assert_eq!(r.add_alias("cc", strings(&["cache", "clear", "fast"])), AliasOutcome::Added);
    assert_eq!(
        r.resolve(strings(&["cc", "now"])),
        Ok(strings(&["cache clear", "fast", "now"]))
    );
}

#[test]
fn alias_chain_is_followed() {
    let mut r = registry_with(&["quit"]);
    assert_eq!(r.add_alias("exit", strings(&["quit"])), AliasOutcome::Added);
    assert_eq!(r.add_alias("bye", strings(&["exit"])), AliasOutcome::Added);
    assert_eq!(r.resolve(strings(&["bye"])), Ok(strings(&["quit"])));
}

#[test]
fn alias_name_of_several_words_is_joined_then_expanded() {
    let mut r = registry_with(&["quit"]);
    assert_eq!(r.add_alias("go away", strings(&["quit"])), AliasOutcome::Added);
    assert_eq!(r.resolve(strings(&["go", "away", "now"])), Ok(strings(&["quit", "now"])));
}

#[test]
fn longest_command_name_wins() {
    let r = registry_with(&["a b", "a b c"]);
    assert_eq!(
        r.join_subcommands(strings(&["a", "b", "c", "d"])),
        strings(&["a b c", "d"])
    );
    assert_eq!(r.join_subcommands(strings(&["a", "b", "x"])), strings(&["a b", "x"]));
    assert_eq!(r.join_subcommands(strings(&["a", "x"])), strings(&["a", "x"]));
    assert_eq!(r.join_subcommands(strings(&["a"])), strings(&["a"]));
    assert_eq!(r.join_subcommands(Vec::new()), Vec::<String>::new());
}

#[test]
fn names_of_up_to_four_words_are_joined() {
    let r = registry_with(&["a b c d", "a b c d e"]);
    assert_eq!(
        r.join_subcommands(strings(&["a", "b", "c", "d", "e"])),
        strings(&["a b c d", "e"])
    );
}

#[test]
fn aliases_among_the_arguments_are_expanded_too() {
    let mut r = registry_with(&["echo", "quit"]);
    assert_eq!(r.add_alias("exit", strings(&["quit"])), AliasOutcome::Added);
    assert_eq!(r.expand_alias(strings(&["echo", "exit"])), Ok(strings(&["echo", "quit"])));
}

#[test]
fn empty_line_resolves_to_nothing() {
    let r = registry_with(&["quit"]);
    assert_eq!(r.resolve(Vec::new()), Ok(Vec::new()));
}

#[test]
fn long_line_without_aliases_resolves() {
    let r = registry_with(&["echo"]);
    let mut long: Vec<String> = vec!["echo".to_string()];
    long.extend((1..1000).map(|i| format!("w{}", i)));
    assert_eq!(long.len(), 1000);
    assert_eq!(r.expand_alias(long.clone()), Ok(long.clone()));
    assert_eq!(r.resolve(long.clone()), Ok(long));
    let longer: Vec<String> = (0..5000).map(|i| format!("w{}", i)).collect();
    assert_eq!(r.expand_alias(longer.clone()), Ok(longer));
}

#[test]
fn a_thousand_aliases_are_replaced_and_no_more() {
    let mut r = registry_with(&["quit"]);
    // A chain of aliases: a0 stands for a1, a1 for a2, and so on, the last for quit.
    for i in 0..1001 {
        let target = if i == 1000 { "quit".to_string() } else { format!("a{}", i + 1) };
        assert_eq!(r.add_alias(&format!("a{}", i), vec![target]), AliasOutcome::Added);
    }
    // From a1 on there are a thousand aliases to replace.
    assert_eq!(r.resolve(strings(&["a1", "now"])), Ok(strings(&["quit", "now"])));
    // From a0 on there are a thousand and one.
    assert_eq!(
        r.resolve(strings(&["a0", "now"])),
        Err(AliasLoop { remaining: strings(&["a1000", "now"]) })
    );
}

#[test]
fn alias_loop_with_arguments_is_a_loop() {
    let mut r = Registry::new();
    assert_eq!(r.add_alias("a", strings(&["b", "x"])), AliasOutcome::Added);
    assert_eq!(r.add_alias("b", strings(&["a"])), AliasOutcome::Added);
    assert!(r.resolve(strings(&["a"])).is_err());
    assert!(r.resolve(strings(&["b", "tail"])).is_err());
}

#[test]
fn registration_outcomes() {
    let mut r = registry_with(&["quit"]);
    assert_eq!(r.register(command("quit", 9)), RegisterOutcome::AlreadyRegistered);
    assert_eq!(r.register(command("not valid!", 9)), RegisterOutcome::InvalidName);
    assert_eq!(r.register(command("", 9)), RegisterOutcome::InvalidName);
    assert_eq!(r.add_alias("exit", strings(&["quit"])), AliasOutcome::Added);
    assert_eq!(r.register(command("exit", 9)), RegisterOutcome::AlreadyRegistered);
    assert_eq!(r.commands.len(), 1);
}

#[test]
fn alias_outcomes() {
    let mut r = registry_with(&["quit"]);
    assert_eq!(r.add_alias("bad name!", strings(&["quit"])), AliasOutcome::InvalidName);
    assert_eq!(r.add_alias("quit", strings(&["quit"])), AliasOutcome::NameIsCommand);
    assert_eq!(r.add_alias("exit", Vec::new()), AliasOutcome::MissingTarget);
    assert!(!r.has_alias("exit"));
    assert_eq!(r.add_alias("exit", strings(&["quit"])), AliasOutcome::Added);
    assert!(r.has_alias("exit"));
}

#[test]
fn alias_set_again_gets_new_target_and_keeps_place() {
    let mut r = registry_with(&["quit", "help"]);
    r.add_alias("a", strings(&["quit"]));
    r.add_alias("b", strings(&["help"]));
    r.add_alias("a", strings(&["help", "me"]));
    assert_eq!(r.get_aliases(), strings(&["a", "b"]));
    assert_eq!(r.get_alias_argv("a"), strings(&["help", "me"]));
    assert_eq!(r.get_alias_argv("b"), strings(&["help"]));
    assert_eq!(r.get_alias_argv("none"), strings(&["none"]));
}

#[test]
fn removing_an_alias() {
    let mut r = registry_with(&["quit"]);
    r.add_alias("exit", strings(&["quit"]));
    assert!(r.remove_alias("exit"));
    assert!(!r.has_alias("exit"));
    assert!(!r.remove_alias("exit"));
    assert_eq!(r.resolve(strings(&["exit"])), Ok(strings(&["exit"])));
}

#[test]
fn names_are_listed_in_dictionary_order() {
    let mut r = registry_with(&["quit", "help", "Zed", "cache clear", "cache"]);
    r.add_alias("exit", strings(&["quit"]));
    assert_eq!(
        r.get_command_names(false),
        strings(&["Zed", "cache", "cache clear", "help", "quit"])
    );
    assert_eq!(
        r.get_command_names(true),
        strings(&["Zed", "cache", "cache clear", "exit", "help", "quit"])
    );
}

#[test]
fn descriptions() {
    let r = registry_with(&["quit"]);
    assert_eq!(r.get_command_description("quit"), "about quit");
    assert_eq!(r.get_command_description("none"), "");
}

#[test]
fn source_outcomes() {
    let mut r = registry_with(&["give"]);
    assert_eq!(r.add_source("give", 0, 7, false), SourceOutcome::InvalidSource);
    assert_eq!(r.add_source("take", 0, 7, true), SourceOutcome::UnknownCommand);
    assert_eq!(r.add_source("give", -1, 7, true), SourceOutcome::ArgumentOutOfBounds);
    assert_eq!(r.add_source("give", 5, 7, true), SourceOutcome::ArgumentOutOfBounds);
    assert_eq!(r.add_source("give", 4, 7, true), SourceOutcome::Added);
    assert_eq!(r.add_source("give", 0, 8, true), SourceOutcome::Added);
    assert_eq!(r.add_source("give", 4, 9, true), SourceOutcome::Added);
    assert_eq!(r.sources.len(), 2);
    assert_eq!(r.find_source("give", 4).map(|i| r.sources[i].source), Some(9));
    assert_eq!(r.find_source("give", 0).map(|i| r.sources[i].source), Some(8));
    assert_eq!(r.find_source("give", 1), None);
}

#[test]
fn unregistering_takes_the_sources_along() {
    let mut r = registry_with(&["give", "take"]);
    r.add_source("give", 0, 1, true);
    r.add_source("take", 0, 2, true);
    r.add_source("give", 1, 3, true);
    assert!(r.unregister("give"));
    assert!(!r.has_command("give"));
    assert!(r.has_command("take"));
    assert_eq!(r.sources.len(), 1);
    assert_eq!(r.sources[0].source, 2);
    assert!(!r.unregister("give"));
}

#[test]
fn command_names_from_method_names() {
    assert_eq!(command_name_from_method("cmd_quit"), "quit");
    assert_eq!(command_name_from_method("_cmd_quit"), "quit");
    assert_eq!(command_name_from_method("__cmd_cmd_x"), "x");
    assert_eq!(command_name_from_method("do_it"), "do_it");
    assert_eq!(command_name_from_method("cmd"), "cmd");
    assert_eq!(command_name_from_method("_"), "");
}

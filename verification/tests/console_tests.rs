use tiny_console::coercion::{ArgInfo, MethodInfo, Value};
use tiny_console::commands::Handler;
use tiny_console::console_options::ConsoleOptions;
use tiny_console::execution::{Invocation, Prepared};
use tiny_console::registry::{AliasOutcome, RegisterOutcome, SourceOutcome};
use tiny_console::tiny_console::{ConsoleColors, OutputLine, TinyConsole};

const TYPE_INT: i32 = 2;
const TYPE_STRING: i32 = 4;

fn strings(items: &[&str]) -> Vec<String> {
    items.iter().map(|s| s.to_string()).collect()
}

fn colors() -> ConsoleColors {
    ConsoleColors {
        output_command: "CMD".to_string(),
        output_command_mention: "MEN".to_string(),
        output_error: "ERR".to_string(),
        output_warning: "WRN".to_string(),
        output_text: "TXT".to_string(),
        output_debug: "DBG".to_string(),
    }
}

fn console() -> TinyConsole {
    TinyConsole::new(ConsoleOptions::new(), colors())
}

fn handler(id: u64, params: &[(&str, i32)], defaults: &[&str]) -> Handler {
    Handler {
        id,
        method_name: String::new(),
        signature: Some(MethodInfo {
            args: params
                .iter()
                .map(|(n, t)| ArgInfo { name: n.to_string(), type_id: *t })
                .collect(),
            default_count: defaults.len(),
            defaults: strings(defaults),
        }),
        bound_args: 0,
    }
}

fn plain_handler(id: u64) -> Handler {
    Handler { id, method_name: String::new(), signature: None, bound_args: 0 }
}

fn markup(c: &TinyConsole) -> Vec<String> {
    c.output.iter().map(|l| l.markup.clone()).collect()
}

fn no_values() -> Vec<Option<Vec<String>>> {
    Vec::new()
}

#[test]
fn prepared_command_is_echoed_and_entered_into_history() {
    let mut c = console();
    assert_eq!(c.register_command(plain_handler(7), "quit", "leave", true), RegisterOutcome::Registered);
    let prepared = c.prepare_command("  quit now  ", false);
    assert_eq!(
        prepared,
        Prepared::Invoke(Invocation {
            handler: 7,
            args: vec![Value::Str("now".to_string())],
            argv: strings(&["quit", "now"]),
        })
    );
    assert_eq!(markup(&c), strings(&["[color=CMD][b]>[/b] quit[/color] now"]));
    assert_eq!(c.history.entries(), &strings(&["quit now"]));
    assert!(!c.silent);
}

#[test]
fn echo_of_a_line_without_arguments_ends_in_a_space() {
    let mut c = console();
    c.register_command(plain_handler(7), "quit", "", true);
    let _ = c.prepare_command("quit", false);
    assert_eq!(markup(&c), strings(&["[color=CMD][b]>[/b] quit[/color] "]));
}

#[test]
fn history_holds_the_line_as_typed_before_aliases() {
    let mut c = console();
    c.register_command(plain_handler(7), "quit", "", true);
    assert_eq!(c.add_alias("exit", "quit"), AliasOutcome::Added);
    let prepared = c.prepare_command("exit   fast", false);
    assert_eq!(
        prepared,
        Prepared::Invoke(Invocation {
            handler: 7,
            args: vec![Value::Str("fast".to_string())],
            argv: strings(&["quit", "fast"]),
        })
    );
    assert_eq!(c.history.entries(), &strings(&["exit fast"]));
}

#[test]
fn blank_lines_and_comments_are_passed_over() {
    let mut c = console();
    c.register_command(plain_handler(7), "quit", "", true);
    for line in ["", "    ", "# quit", "   #quit"] {
        assert_eq!(c.prepare_command(line, false), Prepared::Nothing);
    }
    assert!(c.output.is_empty());
    assert_eq!(c.history.size(), 0);
}

#[test]
fn silent_line_prints_nothing_and_leaves_history_alone() {
    let mut c = console();
    c.register_command(plain_handler(7), "quit", "", true);
    let prepared = c.prepare_command("quit", true);
    assert!(matches!(prepared, Prepared::Invoke(_)));
    assert!(c.silent);
    c.print_line("from the handler");
    assert!(c.output.is_empty());
    assert_eq!(c.history.size(), 0);
    c.finish_command(None, &strings(&["quit"]), &no_values());
    assert!(!c.silent);
    c.print_line("later");
    assert_eq!(markup(&c), strings(&["later"]));
}

#[test]
fn silent_unknown_command_prints_nothing() {
    let mut c = console();
    c.register_command(plain_handler(7), "quit", "", true);
    assert_eq!(c.prepare_command("qiut", true), Prepared::Nothing);
    assert!(c.output.is_empty());
    assert!(c.autocomplete_matches.is_empty());
    assert!(!c.silent);
}

#[test]
fn unknown_command_is_reported_with_a_suggestion() {
    let mut c = console();
    for (i, name) in ["quit", "help", "commands"].iter().enumerate() {
        c.register_command(plain_handler(i as u64), name, "", true);
    }
    assert_eq!(c.prepare_command("qiut now", false), Prepared::Nothing);
    assert_eq!(
        markup(&c),
        strings(&[
            "[color=CMD][b]>[/b] qiut[/color] now",
            "[color=ERR]ERROR:[/color] Unknown command: qiut",
            "[i][color=DBG]Did you mean [color=MEN]quit[/color]? ([b]TAB[/b] to fill)[/color][/i]",
        ])
    );
    assert_eq!(c.autocomplete_matches, strings(&["quit now"]));
    assert_eq!(c.history.entries(), &strings(&["qiut now"]));
}

#[test]
fn unknown_command_far_from_any_name_gets_no_suggestion() {
    let mut c = console();
    c.register_command(plain_handler(1), "quit", "", true);
    assert_eq!(c.prepare_command("zzzzzz", false), Prepared::Nothing);
    assert_eq!(
        markup(&c),
        strings(&[
            "[color=CMD][b]>[/b] zzzzzz[/color] ",
            "[color=ERR]ERROR:[/color] Unknown command: zzzzzz",
        ])
    );
    assert!(c.autocomplete_matches.is_empty());
}

#[test]
fn alias_loop_is_reported() {
    let mut c = console();
    assert_eq!(c.add_alias("a", "b"), AliasOutcome::Added);
    assert_eq!(c.add_alias("b", "a"), AliasOutcome::Added);
    assert_eq!(c.prepare_command("a", false), Prepared::Nothing);
    assert_eq!(
        markup(&c),
        strings(&[
            "[color=CMD][b]>[/b] a[/color] ",
            "[color=ERR]ERROR:[/color] Max depth for alias reached. Loop in aliasing?",
        ])
    );
    assert!(!c.silent);
}

#[test]
fn rejected_arguments_lead_to_usage() {
    let mut c = console();
    c.register_command(
        handler(3, &[("a", TYPE_INT), ("b", TYPE_INT)], &[]),
        "add",
        "adds two numbers",
        true,
    );
    assert_eq!(c.prepare_command("add 1", false), Prepared::Usage("add".to_string()));
    assert_eq!(
        markup(&c),
        strings(&[
            "[color=CMD][b]>[/b] add[/color] 1",
            "[color=ERR]ERROR:[/color] Missing arguments.",
        ])
    );
    c.finish_rejected("add", &no_values());
    assert_eq!(
        markup(&c)[2..],
        strings(&["Usage: add a b", "Adds two numbers.", "Arguments:", "  a: int\n  b: int"])
    );
    assert!(!c.silent);
}

#[test]
fn malformed_vector_is_reported_by_its_message() {
    let mut c = console();
    c.register_command(handler(3, &[("v", 0), ("w", 0)], &[]), "move", "", true);
    assert_eq!(c.prepare_command("move (1,x) 2", false), Prepared::Usage("move".to_string()));
    assert_eq!(
        markup(&c)[1],
        "[color=ERR]ERROR:[/color] Failed to parse vector: Bad formatting: \"(1,x)\""
    );
}

#[test]
fn usage_shows_defaults_types_and_values() {
    let mut c = console();
    c.register_command(
        handler(3, &[("item", TYPE_STRING), ("count", TYPE_INT)], &["1"]),
        "give",
        "Gives items.",
        true,
    );
    assert_eq!(c.add_argument_autocomplete_source("give", 0, 50, true), SourceOutcome::Added);
    assert_eq!(c.usage_sources("give"), vec![Some(50), None, None, None, None]);
    let values = vec![Some(strings(&["sword", "shield"])), Some(strings(&["ignored"]))];
    assert_eq!(c.usage("give", &values), 0);
    assert_eq!(
        markup(&c),
        strings(&[
            "Usage: give item [lb]count[rb]",
            "Gives items.",
            "Arguments:",
            "  item: String\n  count: int = 1",
            "Values:",
            " item: sword, shield",
        ])
    );
}

#[test]
fn usage_without_signature() {
    let mut c = console();
    c.register_command(plain_handler(3), "mystery", "", true);
    assert_eq!(c.usage("mystery", &no_values()), 0);
    assert_eq!(markup(&c), strings(&["Usage: mystery ???"]));
}

#[test]
fn usage_of_an_alias_names_its_command() {
    let mut c = console();
    c.register_command(handler(3, &[], &[]), "quit", "exit the application", true);
    c.add_alias("exit", "quit now");
    assert_eq!(c.usage("exit", &no_values()), 0);
    assert_eq!(
        markup(&c),
        strings(&["Alias of: [color=MEN]quit[/color] now", "Usage: quit", "Exit the application."])
    );
}

#[test]
fn usage_of_an_unknown_command_is_an_error() {
    let mut c = console();
    assert_eq!(c.usage("nope", &no_values()), 1);
    assert_eq!(markup(&c), strings(&["[color=ERR]ERROR:[/color] Command not found: nope"]));
}

#[test]
fn description_becomes_a_sentence() {
    assert_eq!(tiny_console::usage::sentence_of("limit framerate"), "Limit framerate.");
    assert_eq!(tiny_console::usage::sentence_of("Done."), "Done.");
    assert_eq!(tiny_console::usage::sentence_of("ünder"), "Ünder.");
    assert_eq!(tiny_console::usage::sentence_of("ßig"), "SSig.");
}

#[test]
fn failure_status_suggests_corrected_arguments() {
    let mut c = console();
    c.register_command(plain_handler(3), "cmd", "", true);
    assert_eq!(c.add_argument_autocomplete_source("cmd", 0, 50, true), SourceOutcome::Added);
    let argv = strings(&["cmd", "alpah"]);
    assert_eq!(c.correction_sources(&argv), vec![Some(50)]);
    let values = vec![Some(strings(&["alpha", "beta"]))];
    c.finish_command(Some(1), &argv, &values);
    assert_eq!(
        markup(&c),
        strings(&[
            "[i][color=DBG]Did you mean \"[color=MEN]cmd[/color] alpha\"? ([b]TAB[/b] to fill)[/color][/i]"
        ])
    );
    assert_eq!(c.autocomplete_matches, strings(&["cmd alpha"]));
}

#[test]
fn each_argument_is_corrected_from_the_source_of_its_own_index() {
    let mut c = console();
    c.register_command(plain_handler(3), "give", "", true);
    c.add_argument_autocomplete_source("give", 0, 50, true);
    c.add_argument_autocomplete_source("give", 4, 54, true);
    let argv = strings(&["give", "swrod", "3", "x", "y", "fsat", "extra"]);
    assert_eq!(
        c.correction_sources(&argv),
        vec![Some(50), None, None, None, Some(54), None]
    );
    let values = vec![
        Some(strings(&["shield", "sword"])),
        Some(strings(&["3000"])),
        None,
        None,
        Some(strings(&["fast", "slow"])),
        Some(strings(&["extras"])),
    ];
    c.finish_command(Some(1), &argv, &values);
    assert_eq!(c.autocomplete_matches, strings(&["give sword 3 x y fast extra"]));
    assert_eq!(c.correction_sources(&Vec::new()), Vec::<Option<u64>>::new());
    assert_eq!(c.correction_sources(&strings(&["give"])), Vec::<Option<u64>>::new());
}

#[test]
fn correction_follows_an_alias_to_its_command() {
    let mut c = console();
    c.register_command(plain_handler(3), "give", "", true);
    c.add_argument_autocomplete_source("give", 0, 50, true);
    c.add_alias("g", "give");
    let argv = strings(&["g", "swrod"]);
    assert_eq!(c.correction_sources(&argv), vec![Some(50)]);
    c.finish_command(Some(2), &argv, &vec![Some(strings(&["sword"]))]);
    assert_eq!(c.autocomplete_matches, strings(&["give sword"]));
}

#[test]
fn success_status_suggests_nothing() {
    let mut c = console();
    c.register_command(plain_handler(3), "give", "", true);
    c.add_argument_autocomplete_source("give", 0, 50, true);
    let argv = strings(&["give", "swrod"]);
    let values = vec![Some(strings(&["sword"]))];
    c.finish_command(Some(0), &argv, &values);
    c.finish_command(Some(-4), &argv, &values);
    c.finish_command(None, &argv, &values);
    assert!(c.output.is_empty());
    assert!(c.autocomplete_matches.is_empty());
}

#[test]
fn values_without_a_source_are_not_used() {
    let mut c = console();
    c.register_command(plain_handler(3), "give", "", true);
    let argv = strings(&["give", "swrod"]);
    let values = vec![Some(strings(&["sword"]))];
    c.finish_command(Some(1), &argv, &values);
    assert!(c.output.is_empty());
}

#[test]
fn sparse_mode_prints_an_empty_line_after_each_command() {
    let mut options = ConsoleOptions::new();
    options.sparse_mode = true;
    let mut c = TinyConsole::new(options, colors());
    c.finish_command(None, &strings(&["x"]), &no_values());
    assert_eq!(c.output, vec![OutputLine { markup: String::new(), plain: None }]);
}

#[test]
fn nested_command_runs_to_its_end_before_the_outer_one_finishes() {
    let mut c = console();
    c.register_command(handler(1, &[("n", TYPE_INT)], &[]), "foo", "", true);
    c.register_command(handler(2, &[("m", TYPE_INT)], &[]), "bar", "", true);

    let outer = c.prepare_command("foo 1", false);
    let outer_call = match outer {
        Prepared::Invoke(call) => call,
        other => panic!("not prepared: {:?}", other),
    };
    let pending = outer_call.clone();

    // The handler of `foo` runs here, and runs `bar` through the console.
    let inner = c.prepare_command("bar 2", false);
    let inner_call = match inner {
        Prepared::Invoke(call) => call,
        other => panic!("not prepared: {:?}", other),
    };
    assert_eq!(inner_call.handler, 2);
    assert_eq!(inner_call.args, vec![Value::Int(2)]);
    c.print_line("bar ran");
    c.finish_command(Some(0), &inner_call.argv, &no_values());

    // Back in the handler of `foo`: its own call is as it was prepared.
    assert_eq!(outer_call, pending);
    assert_eq!(outer_call.handler, 1);
    assert_eq!(outer_call.args, vec![Value::Int(1)]);
    assert_eq!(outer_call.argv, strings(&["foo", "1"]));
    c.print_line("foo ran");
    c.finish_command(Some(0), &outer_call.argv, &no_values());

    assert_eq!(c.history.entries(), &strings(&["foo 1", "bar 2"]));
    assert_eq!(
        markup(&c),
        strings(&[
            "[color=CMD][b]>[/b] foo[/color] 1",
            "[color=CMD][b]>[/b] bar[/color] 2",
            "bar ran",
            "foo ran",
        ])
    );
    assert!(!c.silent);
}

#[test]
fn printing_mirrors_plain_text_when_asked() {
    let mut options = ConsoleOptions::new();
    options.print_to_stdout = true;
    let mut c = TinyConsole::new(options, colors());
    c.info("[b]hello[/b]");
    c.error("bad");
    c.warn("careful");
    c.debug_msg("detail");
    c.print_line_ex("quiet", false);
    assert_eq!(
        c.output,
        vec![
            OutputLine { markup: "[b]hello[/b]".to_string(), plain: Some("hello".to_string()) },
            OutputLine {
                markup: "[color=ERR]ERROR:[/color] bad".to_string(),
                plain: Some("ERROR: bad".to_string())
            },
            OutputLine {
                markup: "[color=WRN]WARNING:[/color] careful".to_string(),
                plain: Some("WARNING: careful".to_string())
            },
            OutputLine {
                markup: "[color=DBG]DEBUG: detail[/color]".to_string(),
                plain: Some("DEBUG: detail".to_string())
            },
            OutputLine { markup: "quiet".to_string(), plain: None },
        ]
    );
    let taken = c.take_output();
    assert_eq!(taken.len(), 5);
    assert!(c.output.is_empty());
}

#[test]
fn boxed_printing_and_formatting() {
    let mut c = console();
    c.print_boxed("Hi");
    assert_eq!(markup(&c), strings(&["░█▄█░█", "▒█▒█░█"]));
    assert_eq!(c.format_name("quit"), "[color=MEN]quit[/color]");
    assert_eq!(c.format_tip("psst"), "[i][color=DBG]psst[/color][/i]");
    c.clear_console();
    assert!(c.output.is_empty());
}

#[test]
fn registration_through_the_console() {
    let mut options = ConsoleOptions::new();
    options.commands_disabled_in_release = strings(&["eval", "cheat"]);
    let mut c = TinyConsole::new(options, colors());
    let method = |name: &str| Handler {
        id: 1,
        method_name: name.to_string(),
        signature: None,
        bound_args: 0,
    };
    assert_eq!(c.register_command(method("_cmd_spawn"), "", "", false), RegisterOutcome::Registered);
    assert!(c.has_command("spawn"));
    assert!(c.has_command_str("spawn"));
    assert_eq!(c.register_command(method(""), "", "", false), RegisterOutcome::MissingName);
    assert_eq!(c.register_command(method("x"), "bad name!", "", false), RegisterOutcome::InvalidName);
    assert_eq!(c.register_command(method("cmd_9"), "", "", false), RegisterOutcome::InvalidName);
    assert_eq!(c.register_command(method("x"), "cheat", "", false), RegisterOutcome::Disabled);
    assert_eq!(c.register_command(method("cmd_eval"), "", "", false), RegisterOutcome::Disabled);
    assert_eq!(c.register_command(method("x"), "cheat", "", true), RegisterOutcome::Registered);
    assert_eq!(c.register_command(method("x"), "spawn", "", true), RegisterOutcome::AlreadyRegistered);
    assert_eq!(c.get_command_names(false), strings(&["cheat", "spawn"]));
    assert!(c.unregister_command("cheat"));
    assert!(!c.unregister_command("cheat"));
    assert!(!c.has_command("cheat"));
}

#[test]
fn aliases_through_the_console() {
    let mut c = console();
    c.register_command(plain_handler(1), "quit", "leave", true);
    assert_eq!(c.add_alias("exit", "  quit  \"right now\" "), AliasOutcome::Added);
    assert!(c.has_alias("exit"));
    assert!(c.has_alias_str("exit"));
    assert_eq!(c.get_alias_argv("exit"), strings(&["quit", "\"right now\""]));
    assert_eq!(c.add_alias("exit2", "   "), AliasOutcome::MissingTarget);
    assert_eq!(c.add_alias("quit", "quit"), AliasOutcome::NameIsCommand);
    assert_eq!(c.get_aliases(), strings(&["exit"]));
    assert_eq!(c.get_command_names(true), strings(&["exit", "quit"]));
    assert_eq!(c.get_all_command_names_with_aliases(), strings(&["exit", "quit"]));
    assert_eq!(c.get_command_description("quit"), "leave");
    assert!(c.remove_alias("exit"));
    assert!(!c.has_alias("exit"));
}

#[test]
fn configured_aliases_need_their_target() {
    let mut c = console();
    c.register_command(plain_handler(1), "quit", "", true);
    c.register_command(plain_handler(2), "help", "", true);
    c.register_command(plain_handler(3), "usage", "", true);
    c.add_aliases_from_config();
    // `source` stands for `exec`, which is not registered; `usage` is a command.
    assert_eq!(c.get_aliases(), strings(&["exit"]));
    assert_eq!(c.get_alias_argv("exit"), strings(&["quit"]));
}

#[test]
fn sentence_gets_a_full_stop_where_it_has_none() {
    assert_eq!(tiny_console::usage::sentence_with("L", "imit framerate"), "Limit framerate.");
    assert_eq!(tiny_console::usage::sentence_with("D", "one."), "Done.");
    assert_eq!(tiny_console::usage::sentence_with("", ""), ".");
    assert_eq!(tiny_console::usage::sentence_with(".", ""), ".");
}

use tiny_console::builtin_commands::{register, script_file_name, user_script_path, BUILTIN_COUNT};
use tiny_console::coercion::Value;
use tiny_console::commands::Handler;
use tiny_console::console_options::{key, ConsoleOptions};
use tiny_console::execution::Prepared;
use tiny_console::registry::AliasOutcome;
use tiny_console::tiny_console::{ConsoleColors, TinyConsole};

fn strings(items: &[&str]) -> Vec<String> {
    items.iter().map(|s| s.to_string()).collect()
}

fn colors() -> ConsoleColors {
    ConsoleColors {
        output_command: "CMD".to_string(),
        output_command_mention: "MEN".to_string(),
        output_error: "ERR".to_string(),
        output_warning: "WRN".to_string(),
        output_text: "TXT".to_string(),
        output_debug: "DBG".to_string(),
    }
}

fn console() -> TinyConsole {
    TinyConsole::new(ConsoleOptions::new(), colors())
}

fn markup(c: &TinyConsole) -> Vec<String> {
    c.output.iter().map(|l| l.markup.clone()).collect()
}

fn invoked(prepared: Prepared) -> (u64, Vec<Value>) {
    match prepared {
        Prepared::Invoke(call) => (call.handler, call.args),
        other => panic!("not prepared: {:?}", other),
    }
}

#[test]
fn all_builtins_are_registered_in_a_development_build() {
    let mut c = console();
    register(&mut c, true);
    assert_eq!(c.registry.commands.len(), BUILTIN_COUNT);
    assert_eq!(
        c.get_command_names(false),
        strings(&[
            "alias", "aliases", "clear", "commands", "echo", "erase_history", "eval", "exec",
            "fps_max", "fullscreen", "help", "log", "quit", "unalias", "vsync",
        ])
    );
    assert_eq!(c.get_command_description("fps_max"), "limit framerate");
    for (i, command) in c.registry.commands.iter().enumerate() {
        assert_eq!(command.handler, i as u64);
    }
}

#[test]
fn eval_is_left_out_of_a_release_build() {
    let mut c = console();
    register(&mut c, false);
    assert_eq!(c.registry.commands.len(), BUILTIN_COUNT - 1);
    assert!(!c.has_command("eval"));
    assert!(c.has_command("exec"));
}

#[test]
fn builtin_whose_name_is_taken_is_left_out() {
    let mut c = console();
    c.register_command(
        Handler { id: 99, method_name: String::new(), signature: None, bound_args: 0 },
        "help",
        "mine",
        true,
    );
    register(&mut c, true);
    assert_eq!(c.registry.commands.len(), BUILTIN_COUNT);
    assert_eq!(c.get_command_description("help"), "mine");
}

#[test]
fn builtins_take_typed_arguments() {
    let mut c = console();
    register(&mut c, true);
    c.add_aliases_from_config();
    assert_eq!(
        invoked(c.prepare_command("echo hello   \"big world\"", false)),
        (13, vec![Value::Str("hello \"big world\"".to_string())])
    );
    assert_eq!(invoked(c.prepare_command("fps_max 60", false)), (5, vec![Value::Int(60)]));
    assert_eq!(
        invoked(c.prepare_command("alias e echo", false)),
        (0, vec![Value::Str("e".to_string()), Value::Str("echo".to_string())])
    );
    assert_eq!(invoked(c.prepare_command("help", false)), (7, vec![Value::Str(String::new())]));
    assert_eq!(
        invoked(c.prepare_command("usage quit", false)),
        (7, vec![Value::Str("quit".to_string())])
    );
    assert_eq!(invoked(c.prepare_command("exit", false)), (9, vec![]));
    assert_eq!(c.prepare_command("quit now", false), Prepared::Usage("quit".to_string()));
    assert_eq!(c.prepare_command("vsync", false), Prepared::Usage("vsync".to_string()));
}

#[test]
fn default_aliases_are_set_from_the_settings() {
    let mut c = console();
    register(&mut c, true);
    c.add_aliases_from_config();
    assert_eq!(c.get_aliases(), strings(&["exit", "source", "usage"]));
    assert_eq!(c.get_alias_argv("source"), strings(&["exec"]));
}

#[test]
fn alias_command() {
    let mut c = console();
    register(&mut c, true);
    assert_eq!(c.cmd_alias("q", "quit now"), AliasOutcome::Added);
    assert_eq!(markup(&c), strings(&["Adding [color=MEN]q[/color] => quit now"]));
    assert_eq!(c.get_alias_argv("q"), strings(&["quit", "now"]));
    assert_eq!(c.cmd_alias("quit", "help"), AliasOutcome::NameIsCommand);
    assert!(!c.has_alias("quit"));
}

#[test]
fn unalias_command() {
    let mut c = console();
    c.add_alias("q", "quit");
    c.cmd_unalias("q");
    c.cmd_unalias("q");
    assert_eq!(
        markup(&c),
        strings(&["Alias removed.", "[color=WRN]WARNING:[/color] Alias not found."])
    );
    assert!(!c.has_alias("q"));
}

fn named(id: u64) -> Handler {
    Handler { id, method_name: String::new(), signature: None, bound_args: 0 }
}

#[test]
fn commands_command_lists_names_in_order() {
    let mut c = console();
    c.register_command(named(1), "quit", "exit the application", true);
    c.register_command(named(2), "bare", "", true);
    c.cmd_commands();
    assert_eq!(
        markup(&c),
        strings(&[
            "Available commands:",
            "[color=MEN]bare[/color]",
            "[color=MEN]quit[/color] -- exit the application",
        ])
    );
}

#[test]
fn aliases_command_lists_aliases_in_order() {
    let mut c = console();
    c.register_command(named(1), "quit", "exit the application", true);
    c.register_command(named(2), "bare", "", true);
    c.add_alias("x", "quit now please");
    c.add_alias("b", "bare");
    c.add_alias("m", "missing");
    c.cmd_aliases();
    assert_eq!(
        markup(&c),
        strings(&[
            "[color=MEN]b[/color]",
            "[color=MEN]m[/color]",
            "[color=MEN]x[/color] is alias of: [color=MEN]quit[/color] now please [i][color=DBG] // exit the application[/color][/i]",
        ])
    );
}

#[test]
fn help_command() {
    let mut c = console();
    c.register_command(named(1), "quit", "exit the application", true);
    c.cmd_help("", &Vec::new());
    assert_eq!(
        markup(&c),
        strings(&[
            "[i][color=DBG]Type [color=MEN]commands[/color] to list all available commands.[/color][/i]",
            "[i][color=DBG]Type [color=MEN]help command[/color] to get more info about the command.[/color][/i]",
        ])
    );
    c.clear_console();
    c.cmd_help("quit", &Vec::new());
    assert_eq!(markup(&c), strings(&["Usage: quit ???", "Exit the application."]));
}

#[test]
fn fps_max_command() {
    let mut c = console();
    assert_eq!(c.cmd_fps_max(-1, 0), None);
    assert_eq!(c.cmd_fps_max(-1, 144), None);
    assert_eq!(c.cmd_fps_max(60, 144), Some(60));
    assert_eq!(c.cmd_fps_max(0, 60), Some(0));
    assert_eq!(
        markup(&c),
        strings(&[
            "Framerate is unlimited.",
            "Framerate is limited to 144 FPS.",
            "Limiting framerate to 60 FPS.",
            "Removing framerate limits.",
        ])
    );
}

#[test]
fn vsync_command() {
    let mut c = console();
    assert_eq!(c.cmd_vsync(-1, 1), None);
    assert_eq!(c.cmd_vsync(-1, 3), None);
    assert_eq!(c.cmd_vsync(0, 1), Some(0));
    assert_eq!(c.cmd_vsync(1, 0), Some(1));
    assert_eq!(c.cmd_vsync(2, 0), Some(2));
    assert_eq!(c.cmd_vsync(3, 0), None);
    assert_eq!(
        markup(&c),
        strings(&[
            "V-Sync: enabled.",
            "Adjust V-Sync mode with an argument: 0 - disabled, 1 - enabled, 2 - adaptive.",
            "Adjust V-Sync mode with an argument: 0 - disabled, 1 - enabled, 2 - adaptive.",
            "Changing to disabled.",
            "Changing to default V-Sync.",
            "Changing to adaptive V-Sync.",
            "[color=ERR]ERROR:[/color] Invalid mode.",
            "Acceptable modes: 0 - disabled, 1 - enabled, 2 - adaptive.",
        ])
    );
}

#[test]
fn fullscreen_command() {
    let mut c = console();
    assert!(c.cmd_fullscreen(true));
    assert!(!c.cmd_fullscreen(false));
    assert_eq!(
        markup(&c),
        strings(&["Window switched to fullscreen mode.", "Window switched to windowed mode."])
    );
}

#[test]
fn eval_command() {
    let mut c = console();
    c.cmd_eval(&Ok(Some("42".to_string())));
    c.cmd_eval(&Ok(None));
    c.cmd_eval(&Err("bad expression".to_string()));
    assert_eq!(markup(&c), strings(&["42", "[color=ERR]ERROR:[/color] bad expression"]));
}

#[test]
fn log_command_shows_last_lines_escaped() {
    let mut c = console();
    c.cmd_log(2, Some("one\ntwo [x]\nthree\n"), "user://log");
    assert_eq!(markup(&c), strings(&["two [lb]x[rb]", "three"]));
    c.clear_console();
    c.cmd_log(10, Some("one\ntwo"), "user://log");
    assert_eq!(markup(&c), strings(&["one", "two"]));
    c.clear_console();
    c.cmd_log(0, Some("one\ntwo"), "user://log");
    c.cmd_log(-3, Some("one\ntwo"), "user://log");
    c.cmd_log(5, Some(""), "user://log");
    assert!(c.output.is_empty());
    c.cmd_log(5, None, "user://log");
    assert_eq!(markup(&c), strings(&["[color=ERR]ERROR:[/color] Can't open file: user://log"]));
}

#[test]
fn script_names() {
    assert_eq!(script_file_name("autoexec"), "autoexec.lcs");
    assert_eq!(script_file_name("autoexec.lcs"), "autoexec.lcs");
    assert_eq!(user_script_path("autoexec.lcs"), "user://autoexec.lcs");
    assert_eq!(key("greet/greet_user"), "addons/tiny_console/greet/greet_user");
}

#[test]
fn script_start_is_announced_or_reported() {
    let mut c = console();
    assert!(c.execute_script("user://a.lcs", true, false));
    assert!(c.execute_script("user://a.lcs", true, true));
    assert!(!c.execute_script("user://a.lcs", false, true));
    assert!(!c.execute_script("res://b.lcs", false, false));
    assert_eq!(
        markup(&c),
        strings(&[
            "Executing user://a.lcs",
            "[color=ERR]ERROR:[/color] File not found: a.lcs",
            "[color=ERR]ERROR:[/color] File not found: res://b.lcs",
        ])
    );
}

#[test]
fn script_lines_run_in_order_and_comments_are_skipped() {
    let mut c = console();
    register(&mut c, true);
    let script = ["# set things up", "", "alias e echo", "  e hi there  ", "nonsense"];
    let mut calls = Vec::new();
    for line in script {
        match c.prepare_command(line, true) {
            Prepared::Invoke(call) => {
                if call.handler == 0 {
                    let (Value::Str(a), Value::Str(b)) = (&call.args[0], &call.args[1]) else {
                        panic!("alias takes two texts");
                    };
                    c.cmd_alias(a, b);
                }
                calls.push((call.handler, call.args.clone()));
                c.finish_command(None, &call.argv, &Vec::new());
            }
            Prepared::Usage(name) => c.finish_rejected(&name, &Vec::new()),
            Prepared::Nothing => {}
        }
    }
    assert_eq!(
        calls,
        vec![
            (0, vec![Value::Str("e".to_string()), Value::Str("echo".to_string())]),
            (13, vec![Value::Str("hi there".to_string())]),
        ]
    );
    assert!(c.output.is_empty());
    assert_eq!(c.history.size(), 0);
    assert!(!c.silent);
}

#[test]
fn greeting_in_block_letters() {
    let mut options = ConsoleOptions::new();
    options.greeting_message = "hi".to_string();
    let mut c = TinyConsole::new(options, colors());
    c.greet("Game", "1.0");
    assert_eq!(
        markup(&c),
        strings(&[
            "░█▄█░█",
            "▒█▒█░█",
            "",
            "[i][color=DBG]Type [color=MEN]commands[/color] to list all available commands.[/color][/i]",
            "[i][color=DBG]Type [color=MEN]help command[/color] to get more info about the command.[/color][/i]",
            "[i][color=DBG]-----[/color][/i]",
        ])
    );
}

#[test]
fn greeting_in_bold_with_project_name_and_version() {
    let mut options = ConsoleOptions::new();
    options.greeting_message = "{project_name} v{project_version} (console)".to_string();
    let mut c = TinyConsole::new(options, colors());
    c.greet("Game", "1.0");
    assert_eq!(markup(&c)[0], "[b]Game v1.0 (console)[/b]");
    assert_eq!(c.output.len(), 4);

    let mut options = ConsoleOptions::new();
    options.greeting_message = String::new();
    let mut c = TinyConsole::new(options, colors());
    c.greet("Game", "1.0");
    assert_eq!(c.output.len(), 3);

    let mut options = ConsoleOptions::new();
    options.greet_using_ascii_art = false;
    let mut c = TinyConsole::new(options, colors());
    c.greet("Game", "1.0");
    assert_eq!(markup(&c)[0], "[b]Tiny Console[/b]");
}

#[test]
fn default_settings() {
    let o = ConsoleOptions::new();
    assert_eq!(o, ConsoleOptions::default());
    assert_eq!(o.aliases.len(), 3);
    assert_eq!(o.aliases[0].alias, "exit");
    assert_eq!(o.aliases[0].target, "quit");
    assert_eq!(o.commands_disabled_in_release, strings(&["eval"]));
    assert_eq!(o.history_lines, 1000);
    assert_eq!(o.greeting_message, "Tiny Console");
    assert_eq!(o.autoexec_script, "user://autoexec.lcs");
    assert!(o.pause_when_open && o.persist_history && o.greet_user);
    assert!(!o.sparse_mode && !o.print_to_stdout && !o.disable_in_release_build);
}

#[test]
fn starting_once() {
    let mut c = console();
    assert!(!c.is_initialized());
    assert!(c.initialize(false, false));
    assert!(c.is_initialized());
    assert!(c.enabled);
    assert!(!c.initialize(true, true));
    assert!(c.enabled);

    let mut options = ConsoleOptions::new();
    options.disable_in_release_build = true;
    let mut c = TinyConsole::new(options, colors());
    assert!(c.initialize(false, false));
    assert!(!c.enabled);

    let mut c = console();
    assert!(c.initialize(true, true));
    assert!(!c.enabled);

    let mut options = ConsoleOptions::new();
    options.enable_in_editor = true;
    let mut c = TinyConsole::new(options, colors());
    assert!(c.initialize(true, true));
    assert!(c.enabled);
}

#[test]
fn opening_and_closing() {
    let mut c = console();
    assert!(!c.is_console_open());
    c.open_console();
    assert!(c.is_console_open());
    c.history.push_entry("a".to_string());
    assert_eq!(c.close_console(), Some(strings(&["a"])));
    assert!(!c.is_console_open());
    assert_eq!(c.toggle_console(), None);
    assert!(c.is_console_open());
    assert_eq!(c.toggle_console(), None);
    assert!(!c.is_console_open());

    c.enabled = false;
    c.open_console();
    assert!(!c.is_console_open());
}

#[test]
fn stopping_cuts_the_history_and_forgets_commands() {
    let mut options = ConsoleOptions::new();
    options.history_lines = 2;
    let mut c = TinyConsole::new(options, colors());
    register(&mut c, true);
    c.initialize(true, false);
    for line in ["a", "b", "c"] {
        c.history.push_entry(line.to_string());
    }
    assert_eq!(c.cleanup(), Some(strings(&["b", "c"])));
    assert!(!c.is_initialized());
    assert!(c.registry.commands.is_empty());
    assert_eq!(c.cleanup(), None);

    let mut options = ConsoleOptions::new();
    options.persist_history = false;
    let mut c = TinyConsole::new(options, colors());
    c.history.push_entry("a".to_string());
    assert_eq!(c.cleanup(), None);
    assert_eq!(c.history.size(), 1);
}

#[test]
fn erasing_the_history() {
    let mut c = console();
    c.history.push_entry("a".to_string());
    c.erase_history();
    assert_eq!(c.history.size(), 0);
}

#[test]
fn exec_command_picks_the_script_path() {
    assert_eq!(tiny_console::builtin_commands::cmd_exec("setup", true), "setup.lcs");
    assert_eq!(tiny_console::builtin_commands::cmd_exec("setup", false), "user://setup.lcs");
    assert_eq!(
        tiny_console::builtin_commands::cmd_exec("res://a.lcs", false),
        "user://res://a.lcs"
    );
}

#[test]
fn closing_stores_no_more_lines_than_the_settings_allow() {
    let mut options = ConsoleOptions::new();
    options.history_lines = 2;
    let mut c = TinyConsole::new(options, colors());
    c.open_console();
    for line in ["a", "b", "c"] {
        c.history.push_entry(line.to_string());
    }
    assert_eq!(c.close_console(), Some(strings(&["b", "c"])));
    assert_eq!(c.history.size(), 3);
    assert_eq!(c.close_console(), None);
    c.history.push_entry("d".to_string());
    c.open_console();
    assert_eq!(c.toggle_console(), Some(strings(&["c", "d"])));

    let mut options = ConsoleOptions::new();
    options.history_lines = -1;
    let mut c = TinyConsole::new(options, colors());
    for line in ["a", "b", "c"] {
        c.history.push_entry(line.to_string());
    }
    assert_eq!(c.close_console(), Some(strings(&["a", "b", "c"])));
}

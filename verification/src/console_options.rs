//! The settings of the console.

use vstd::prelude::*;

verus! {

/// The path under which the settings of the console are kept.
pub open spec fn settings_root() -> Seq<char> {
    "addons/tiny_console"@
}

/// The full key of the setting `suffix`.
pub fn key(suffix: &str) -> (r: String)
    ensures
        r@ == settings_root() + "/"@ + suffix@,
{
    let mut r = "addons/tiny_console".to_owned();
    r.append("/");
    r.append(suffix);
    r
}

/// An alias from the settings: its name and the command that it stands for.
#[derive(Debug, Clone, PartialEq, Eq)]
pub struct ConfiguredAlias {
    pub alias: String,
    pub target: String,
}

/// The settings of the console.
#[derive(Debug, Clone, PartialEq, Eq)]
pub struct ConsoleOptions {
    /// Aliases to set at start-up.
    pub aliases: Vec<ConfiguredAlias>,
    /// Whether the console is switched off outside development builds.
    pub disable_in_release_build: bool,
    /// Whether the console works inside the editor.
    pub enable_in_editor: bool,
    /// Whether printed lines are mirrored, as plain text, to standard output.
    pub print_to_stdout: bool,
    /// Whether the application pauses while the console is open.
    pub pause_when_open: bool,
    /// Commands that are not registered outside development builds.
    pub commands_disabled_in_release: Vec<String>,
    /// The path of the theme to use.
    pub custom_theme: String,
    /// Whether an empty line follows each command's output.
    pub sparse_mode: bool,
    /// Whether a greeting is printed at start-up.
    pub greet_user: bool,
    /// The greeting.
    pub greeting_message: String,
    /// Whether the greeting is drawn in block letters where it can be.
    pub greet_using_ascii_art: bool,
    /// Whether the history is kept between runs.
    pub persist_history: bool,
    /// The most lines of history that are stored.
    pub history_lines: i32,
    /// Whether lines of the history are offered as completions beside others.
    pub autocomplete_use_history_with_matches: bool,
    /// The script that is run at start-up.
    pub autoexec_script: String,
    /// Whether the start-up script is created where it is missing.
    pub autoexec_auto_create: bool,
}

/// The settings that the console starts with.
pub open spec fn is_default_options(o: ConsoleOptions) -> bool {
    &&& o.aliases@.len() == 3
    &&& o.aliases@[0].alias@ == "exit"@ && o.aliases@[0].target@ == "quit"@
    &&& o.aliases@[1].alias@ == "source"@ && o.aliases@[1].target@ == "exec"@
    &&& o.aliases@[2].alias@ == "usage"@ && o.aliases@[2].target@ == "help"@
    &&& !o.disable_in_release_build
    &&& !o.enable_in_editor
    &&& !o.print_to_stdout
    &&& o.pause_when_open
    &&& o.commands_disabled_in_release@.len() == 1
    &&& o.commands_disabled_in_release@[0]@ == "eval"@
    &&& o.custom_theme@ == "res://addons/tiny_console/res/default_theme.tres"@
    &&& !o.sparse_mode
    &&& o.greet_user
    &&& o.greeting_message@ == "Tiny Console"@
    &&& o.greet_using_ascii_art
    &&& o.persist_history
    &&& o.history_lines == 1000
    &&& o.autocomplete_use_history_with_matches
    &&& o.autoexec_script@ == "user://autoexec.lcs"@
    &&& o.autoexec_auto_create
}

impl Default for ConsoleOptions {
    fn default() -> (o: Self)
        ensures
            is_default_options(o),
    {
        let mut aliases: Vec<ConfiguredAlias> = Vec::new();
        aliases.push(ConfiguredAlias { alias: "exit".to_owned(), target: "quit".to_owned() });
        aliases.push(ConfiguredAlias { alias: "source".to_owned(), target: "exec".to_owned() });
        aliases.push(ConfiguredAlias { alias: "usage".to_owned(), target: "help".to_owned() });
        let mut disabled: Vec<String> = Vec::new();
        disabled.push("eval".to_owned());
        ConsoleOptions {
            aliases,
            disable_in_release_build: false,
            enable_in_editor: false,
            print_to_stdout: false,
            pause_when_open: true,
            commands_disabled_in_release: disabled,
            custom_theme: "res://addons/tiny_console/res/default_theme.tres".to_owned(),
            sparse_mode: false,
            greet_user: true,
            greeting_message: "Tiny Console".to_owned(),
            greet_using_ascii_art: true,
            persist_history: true,
            history_lines: 1000,
            autocomplete_use_history_with_matches: true,
            autoexec_script: "user://autoexec.lcs".to_owned(),
            autoexec_auto_create: true,
        }
    }
}

impl ConsoleOptions {
    /// The settings that the console starts with.
    pub fn new() -> (o: Self)
        ensures
            is_default_options(o),
    {
        let mut aliases: Vec<ConfiguredAlias> = Vec::new();
        aliases.push(ConfiguredAlias { alias: "exit".to_owned(), target: "quit".to_owned() });
        aliases.push(ConfiguredAlias { alias: "source".to_owned(), target: "exec".to_owned() });
        aliases.push(ConfiguredAlias { alias: "usage".to_owned(), target: "help".to_owned() });
        let mut disabled: Vec<String> = Vec::new();
        disabled.push("eval".to_owned());
        ConsoleOptions {
            aliases,
            disable_in_release_build: false,
            enable_in_editor: false,
            print_to_stdout: false,
            pause_when_open: true,
            commands_disabled_in_release: disabled,
            custom_theme: "res://addons/tiny_console/res/default_theme.tres".to_owned(),
            sparse_mode: false,
            greet_user: true,
            greeting_message: "Tiny Console".to_owned(),
            greet_using_ascii_art: true,
            persist_history: true,
            history_lines: 1000,
            autocomplete_use_history_with_matches: true,
            autoexec_script: "user://autoexec.lcs".to_owned(),
            autoexec_auto_create: true,
        }
    }
}

} // verus!

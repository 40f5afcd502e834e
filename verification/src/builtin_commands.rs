//! The commands that the console comes with, as far as they act on the console
//! itself or decide what to print.

use vstd::prelude::*;
use crate::coercion::{ArgInfo, MethodInfo, TYPE_STRING};
use crate::commands::Handler;
use crate::numbers::{decimal, int_to_string};
use crate::registry::{table_with, AliasOutcome, Command, RegisterOutcome};
use crate::text::{
    first_index_of, join_on, join_range, lemma_first_index_bounds, sort_of,
    sort_strings, split, split_on, trim, trimmed, views,
};
use crate::tiny_console::{
    colored, colored_text, error_line, say, show, tip, tip_text, warning_line, ConsoleView,
    TinyConsole,
};
use crate::tokenizer::tokenized;
use crate::usage::usage_shown;
use crate::util::{bbcode_escape, bbcode_escaped, is_command_sequence, replace_all};

verus! {

/// The type tag of an integer parameter.
pub const TYPE_INT: i32 = 2;

/// The first of the two hints that `help` gives without a command.
pub open spec fn help_hint_commands(v: ConsoleView) -> Seq<char> {
    tip(
        v.colors.output_debug@,
        "Type "@ + colored(v.colors.output_command_mention@, "commands"@)
            + " to list all available commands."@,
    )
}

/// The second of the two hints that `help` gives without a command.
pub open spec fn help_hint_help(v: ConsoleView) -> Seq<char> {
    tip(
        v.colors.output_debug@,
        "Type "@ + colored(v.colors.output_command_mention@, "help command"@)
            + " to get more info about the command."@,
    )
}

/// The state `v` after `help` is run for `name`: without a name two hints are
/// shown, else the usage of the command.
pub open spec fn help_shown(v: ConsoleView, name: Seq<char>, values: Seq<Option<Vec<String>>>) -> ConsoleView {
    if name.len() == 0 {
        show(show(v, help_hint_commands(v)), help_hint_help(v))
    } else {
        usage_shown(v, name, values)
    }
}

/// The line that lists the command `name` with description `desc`.
pub open spec fn command_listing(v: ConsoleView, name: Seq<char>, desc: Seq<char>) -> Seq<char> {
    if desc.len() == 0 {
        colored(v.colors.output_command_mention@, name)
    } else {
        colored(v.colors.output_command_mention@, name) + " -- "@ + desc
    }
}

/// The description of the command called `name`; empty where there is none.
pub open spec fn description_of(v: ConsoleView, name: Seq<char>) -> Seq<char> {
    if v.registry.knows_command(name) {
        v.registry.command_named(name).description@
    } else {
        Seq::empty()
    }
}

/// The state `v` after the first `n` of `names` are listed as commands.
pub open spec fn commands_listed(v: ConsoleView, names: Seq<Seq<char>>, n: int) -> ConsoleView
    decreases n,
{
    if n <= 0 {
        show(v, "Available commands:"@)
    } else {
        show(
            commands_listed(v, names, n - 1),
            command_listing(v, names[n - 1], description_of(v, names[n - 1])),
        )
    }
}

/// The line that lists the alias `name`: alone where the command that it stands
/// for has no description, else with what it stands for and that description.
pub open spec fn alias_listing(v: ConsoleView, name: Seq<char>) -> Seq<char> {
    let target = v.registry.target_of(name);
    let desc = description_of(v, target[0]);
    if desc.len() == 0 {
        colored(v.colors.output_command_mention@, name)
    } else {
        colored(v.colors.output_command_mention@, name) + " is alias of: "@ + colored(
            v.colors.output_command_mention@,
            target[0],
        ) + " "@ + join_on(target.skip(1), " "@) + " "@ + tip(
            v.colors.output_debug@,
            " // "@ + desc,
        )
    }
}

/// The state `v` after the first `n` of `names` are listed as aliases.
pub open spec fn aliases_listed(v: ConsoleView, names: Seq<Seq<char>>, n: int) -> ConsoleView
    decreases n,
{
    if n <= 0 {
        v
    } else {
        show(aliases_listed(v, names, n - 1), alias_listing(v, names[n - 1]))
    }
}

/// What `fps_max` prints for the limit `limit`, where `current` is the limit in
/// force: a negative limit asks for the limit in force, zero lifts it.
pub open spec fn fps_message(limit: i32, current: i32) -> Seq<char> {
    if limit < 0 {
        if current == 0 {
            "Framerate is unlimited."@
        } else {
            "Framerate is limited to "@ + decimal(current as int) + " FPS."@
        }
    } else if limit > 0 {
        "Limiting framerate to "@ + decimal(limit as int) + " FPS."@
    } else {
        "Removing framerate limits."@
    }
}

/// The state `v` after `vsync` is run for `mode`, where `current` is the mode in
/// force: 0 for off, 1 for on, 2 for adaptive. A negative mode asks for the mode in
/// force.
pub open spec fn vsync_shown(v: ConsoleView, mode: i32, current: i32) -> ConsoleView {
    if mode < 0 {
        let told = if current == 0 {
            show(v, "V-Sync: disabled."@)
        } else if current == 1 {
            show(v, "V-Sync: enabled."@)
        } else if current == 2 {
            show(v, "Current V-Sync mode: adaptive."@)
        } else {
            v
        };
        show(
            told,
            "Adjust V-Sync mode with an argument: 0 - disabled, 1 - enabled, 2 - adaptive."@,
        )
    } else if mode == 0 {
        show(v, "Changing to disabled."@)
    } else if mode == 1 {
        show(v, "Changing to default V-Sync."@)
    } else if mode == 2 {
        show(v, "Changing to adaptive V-Sync."@)
    } else {
        show(
            say(v, error_line(v.colors.output_error@, "Invalid mode."@)),
            "Acceptable modes: 0 - disabled, 1 - enabled, 2 - adaptive."@,
        )
    }
}

/// The name of the script file for `file`: with `.lcs` at its end.
pub open spec fn script_name(file: Seq<char>) -> Seq<char> {
    if ".lcs"@.is_suffix_of(file) {
        file
    } else {
        file + ".lcs"@
    }
}

/// The lines of a log that `log` shows: the last `num_lines` of the lines of
/// `contents`, where an empty last line does not count.
pub open spec fn log_lines(contents: Seq<char>, num_lines: i32) -> Seq<Seq<char>> {
    let all = split_on(contents, '\n');
    let lines = if trimmed(all.last()).len() == 0 {
        all.drop_last()
    } else {
        all
    };
    let wanted = if num_lines > 0 {
        num_lines as int
    } else {
        0
    };
    if lines.len() > wanted {
        lines.skip(lines.len() - wanted)
    } else {
        lines
    }
}

/// The state `v` after the first `n` of `lines` are shown, with their brackets
/// escaped.
pub open spec fn lines_shown(v: ConsoleView, lines: Seq<Seq<char>>, n: int) -> ConsoleView
    decreases n,
{
    if n <= 0 {
        v
    } else {
        show(lines_shown(v, lines, n - 1), bbcode_escaped(lines[n - 1]))
    }
}

/// The greeting with the name and the version of the project put in.
pub open spec fn greeting(message: Seq<char>, name: Seq<char>, version: Seq<char>) -> Seq<char> {
    replace_all(replace_all(message, "{project_name}"@, name), "{project_version}"@, version)
}

impl TinyConsole {
    /// The command `alias`: sets the alias `alias` to stand for the line `command`.
    pub fn cmd_alias(&mut self, alias: &str, command: &str) -> (r: AliasOutcome)
        requires
            old(self).well_formed(),
        ensures
            final(self).well_formed(),
            final(self)@ == (ConsoleView {
                registry: final(self).registry,
                ..show(
                    old(self)@,
                    "Adding "@ + colored(old(self)@.colors.output_command_mention@, alias@)
                        + " => "@ + command@,
                )
            }),
            final(self).registry.commands == old(self).registry.commands,
            final(self).registry.sources == old(self).registry.sources,
            r == (if !is_command_sequence(alias@) {
                AliasOutcome::InvalidName
            } else if old(self).registry.knows_command(alias@) {
                AliasOutcome::NameIsCommand
            } else if tokenized(command@).len() == 0 {
                AliasOutcome::MissingTarget
            } else {
                AliasOutcome::Added
            }),
            r != AliasOutcome::Added ==> final(self).registry.aliases == old(self).registry.aliases,
            r == AliasOutcome::Added ==> final(self).registry.alias_table() == table_with(
                old(self).registry.alias_table(),
                alias@,
                tokenized(command@),
            ),
    {
        let name = self.format_name(alias);
        let mut msg = "Adding ".to_owned();
        msg.append(name.as_str());
        msg.append(" => ");
        msg.append(command);
        self.print_line_internal(msg.as_str(), false);
        self.add_alias(alias, command)
    }

    /// The command `unalias`: takes out the alias `alias`.
    pub fn cmd_unalias(&mut self, alias: &str)
        requires
            old(self).well_formed(),
        ensures
            final(self).well_formed(),
            final(self)@ == (ConsoleView {
                registry: final(self).registry,
                ..show(
                    old(self)@,
                    if old(self).registry.knows_alias(alias@) {
                        "Alias removed."@
                    } else {
                        warning_line(old(self)@.colors.output_warning@, "Alias not found."@)
                    },
                )
            }),
            final(self).registry.commands == old(self).registry.commands,
            final(self).registry.sources == old(self).registry.sources,
            !final(self).registry.knows_alias(alias@),
            !old(self).registry.knows_alias(alias@) ==> final(self).registry.aliases == old(self).registry.aliases,
            old(self).registry.knows_alias(alias@) ==> final(self).registry.aliases@ == old(self).registry.aliases@.remove(first_index_of(old(self).registry.alias_names(), alias@)),
    {
        if self.remove_alias(alias) {
            self.print_line_internal("Alias removed.", false);
        } else {
            let mut msg = "[color=".to_owned();
            msg.append(self.colors.output_warning.as_str());
            msg.append("]WARNING:[/color] ");
            msg.append("Alias not found.");
            self.print_line_internal(msg.as_str(), false);
        }
    }

    /// The command `commands`: lists the commands, in dictionary order, each with
    /// its description.
    pub fn cmd_commands(&mut self)
        ensures
            final(self).well_formed() == old(self).well_formed(),
            final(self)@ == commands_listed(
                old(self)@,
                sort_of(old(self)@.registry.listed_names(false)),
                old(self)@.registry.listed_names(false).len() as int,
            ),
    {
        let names = self.registry.get_command_names(false);
        proof {
            crate::text::lemma_sort_of(self.registry.listed_names(false));
        }
        self.print_line_internal("Available commands:", false);
        let mut i: usize = 0;
        while i < names.len()
            invariant
                i <= names.len(),
                self.well_formed() == old(self).well_formed(),
                self.registry == old(self).registry,
                self.colors == old(self).colors,
                self@ == commands_listed(old(self)@, views(names@), i as int),
            decreases names.len() - i,
        {
            assert(views(names@)[i as int] == names@[i as int]@);
            let desc = self.registry.get_command_description(names[i].as_str());
            let mut line = colored_text(
                self.colors.output_command_mention.as_str(),
                names[i].as_str(),
            );
            if !desc.as_str().is_empty() {
                line.append(" -- ");
                line.append(desc.as_str());
            }
            self.print_line_internal(line.as_str(), false);
            i += 1;
        }
    }

    /// The command `aliases`: lists the aliases, in dictionary order, each with
    /// what it stands for.
    pub fn cmd_aliases(&mut self)
        requires
            old(self).well_formed(),
        ensures
            final(self).well_formed(),
            final(self)@ == aliases_listed(
                old(self)@,
                sort_of(old(self)@.registry.alias_names()),
                old(self)@.registry.alias_names().len() as int,
            ),
    {
        let names = sort_strings(&self.registry.get_aliases());
        proof {
            crate::text::lemma_sort_of(self.registry.alias_names());
        }
        let mut i: usize = 0;
        while i < names.len()
            invariant
                i <= names.len(),
                self.well_formed(),
                self.registry == old(self).registry,
                self.colors == old(self).colors,
                views(names@) == sort_of(old(self)@.registry.alias_names()),
                self@ == aliases_listed(old(self)@, views(names@), i as int),
            decreases names.len() - i,
        {
            let ghost name = names@[i as int]@;
            assert(views(names@)[i as int] == name);
            let mut line = colored_text(
                self.colors.output_command_mention.as_str(),
                names[i].as_str(),
            );
            let target = self.registry.get_alias_argv(names[i].as_str());
            if target.len() > 0 {
                assert(views(target@)[0] == target@[0]@);
                let desc = self.registry.get_command_description(target[0].as_str());
                if !desc.as_str().is_empty() {
                    let command = colored_text(
                        self.colors.output_command_mention.as_str(),
                        target[0].as_str(),
                    );
                    let rest = join_range(&target, 1, target.len(), " ");
                    assert(views(target@).subrange(1, target.len() as int) =~= views(
                        target@,
                    ).skip(1));
                    let mut note = " // ".to_owned();
                    note.append(desc.as_str());
                    let hint = tip_text(self.colors.output_debug.as_str(), note.as_str());
                    line.append(" is alias of: ");
                    line.append(command.as_str());
                    line.append(" ");
                    line.append(rest.as_str());
                    line.append(" ");
                    line.append(hint.as_str());
                }
            }
            proof {
                let sorted_names = sort_of(old(self)@.registry.alias_names());
                crate::text::lemma_sort_of(old(self)@.registry.alias_names());
                assert(sorted_names.to_multiset().count(name) > 0) by {
                    vstd::seq_lib::to_multiset_contains(sorted_names, name);
                    assert(sorted_names.contains(name));
                }
                vstd::seq_lib::to_multiset_contains(old(self)@.registry.alias_names(), name);
                assert(self.registry.knows_alias(name));
                lemma_first_index_bounds(self.registry.alias_names(), name);
                let k = first_index_of(self.registry.alias_names(), name);
                assert(self.registry.alias_names()[k] == name);
                assert(self.registry.aliases@[k].argv@.len() > 0);
            }
            self.print_line_internal(line.as_str(), false);
            i += 1;
        }
    }

    /// The command `help`: without a command it shows two hints, else the usage of
    /// `command_name`. `values[i]` holds what the source for the parameter at
    /// position `i` gave.
    pub fn cmd_help(&mut self, command_name: &str, values: &Vec<Option<Vec<String>>>)
        requires
            old(self).well_formed(),
        ensures
            final(self).well_formed(),
            final(self)@ == help_shown(old(self)@, command_name@, values@),
    {
        if command_name.is_empty() {
            let commands = colored_text(self.colors.output_command_mention.as_str(), "commands");
            let mut first = "Type ".to_owned();
            first.append(commands.as_str());
            first.append(" to list all available commands.");
            let line = tip_text(self.colors.output_debug.as_str(), first.as_str());
            self.print_line_internal(line.as_str(), false);
            let help = colored_text(
                self.colors.output_command_mention.as_str(),
                "help command",
            );
            let mut second = "Type ".to_owned();
            second.append(help.as_str());
            second.append(" to get more info about the command.");
            let line = tip_text(self.colors.output_debug.as_str(), second.as_str());
            self.print_line_internal(line.as_str(), false);
        } else {
            let _ = self.usage(command_name, values);
        }
    }

    /// The command `fps_max`: tells what it does for the limit `limit`, where
    /// `current` is the limit in force, and returns the limit to set, if any.
    pub fn cmd_fps_max(&mut self, limit: i32, current: i32) -> (r: Option<i32>)
        ensures
            final(self).well_formed() == old(self).well_formed(),
            final(self)@ == show(old(self)@, fps_message(limit, current)),
            r == (if limit < 0 {
                None
            } else {
                Some(limit)
            }),
    {
        if limit < 0 {
            if current == 0 {
                self.print_line_internal("Framerate is unlimited.", false);
            } else {
                let mut msg = "Framerate is limited to ".to_owned();
                msg.append(int_to_string(current as i64).as_str());
                msg.append(" FPS.");
                self.print_line_internal(msg.as_str(), false);
            }
            return None;
        }
        if limit > 0 {
            let mut msg = "Limiting framerate to ".to_owned();
            msg.append(int_to_string(limit as i64).as_str());
            msg.append(" FPS.");
            self.print_line_internal(msg.as_str(), false);
        } else {
            self.print_line_internal("Removing framerate limits.", false);
        }
        Some(limit)
    }

    /// The command `vsync`: tells what it does for the mode `mode`, where
    /// `current` is the mode in force, and returns the mode to set, if any.
    pub fn cmd_vsync(&mut self, mode: i32, current: i32) -> (r: Option<i32>)
        ensures
            final(self).well_formed() == old(self).well_formed(),
            final(self)@ == vsync_shown(old(self)@, mode, current),
            r == (if 0 <= mode <= 2 {
                Some(mode)
            } else {
                None
            }),
    {
        if mode < 0 {
            if current == 0 {
                self.print_line_internal("V-Sync: disabled.", false);
            } else if current == 1 {
                self.print_line_internal("V-Sync: enabled.", false);
            } else if current == 2 {
                self.print_line_internal("Current V-Sync mode: adaptive.", false);
            }
            self.print_line_internal(
                "Adjust V-Sync mode with an argument: 0 - disabled, 1 - enabled, 2 - adaptive.",
                false,
            );
            None
        } else if mode == 0 {
            self.print_line_internal("Changing to disabled.", false);
            Some(mode)
        } else if mode == 1 {
            self.print_line_internal("Changing to default V-Sync.", false);
            Some(mode)
        } else if mode == 2 {
            self.print_line_internal("Changing to adaptive V-Sync.", false);
            Some(mode)
        } else {
            self.error("Invalid mode.");
            self.print_line_internal(
                "Acceptable modes: 0 - disabled, 1 - enabled, 2 - adaptive.",
                false,
            );
            None
        }
    }

    /// The command `fullscreen`: tells which mode the window switches to, where
    /// `windowed` says whether it is windowed now, and returns whether it is to fill
    /// the screen.
    pub fn cmd_fullscreen(&mut self, windowed: bool) -> (r: bool)
        ensures
            final(self).well_formed() == old(self).well_formed(),
            r == windowed,
            final(self)@ == show(
                old(self)@,
                if windowed {
                    "Window switched to fullscreen mode."@
                } else {
                    "Window switched to windowed mode."@
                },
            ),
    {
        if windowed {
            self.print_line_internal("Window switched to fullscreen mode.", false);
        } else {
            self.print_line_internal("Window switched to windowed mode.", false);
        }
        windowed
    }

    /// The command `eval`: shows the result of an evaluation, `Ok` with its text
    /// where there is one, or reports its error.
    pub fn cmd_eval(&mut self, outcome: &Result<Option<String>, String>)
        ensures
            final(self).well_formed() == old(self).well_formed(),
            final(self)@ == (match *outcome {
                Ok(Some(text)) => show(old(self)@, text@),
                Ok(None) => old(self)@,
                Err(e) => say(old(self)@, error_line(old(self)@.colors.output_error@, e@)),
            }),
    {
        match outcome {
            Ok(Some(text)) => {
                self.print_line_internal(text.as_str(), false);
            },
            Ok(None) => {},
            Err(e) => {
                self.error(e.as_str());
            },
        }
    }

    /// The command `log`: shows the last `num_lines` lines of the log whose text
    /// is `contents`; reports that the file at `path` cannot be opened where there
    /// is no text.
    pub fn cmd_log(&mut self, num_lines: i32, contents: Option<&str>, path: &str)
        ensures
            final(self).well_formed() == old(self).well_formed(),
            final(self)@ == (match contents {
                Some(text) => lines_shown(
                    old(self)@,
                    log_lines(text@, num_lines),
                    log_lines(text@, num_lines).len() as int,
                ),
                None => say(
                    old(self)@,
                    error_line(old(self)@.colors.output_error@, "Can't open file: "@ + path@),
                ),
            }),
    {
        let text = match contents {
            Some(text) => text,
            None => {
                let mut msg = "Can't open file: ".to_owned();
                msg.append(path);
                self.error(msg.as_str());
                return;
            },
        };
        let all = split(text, '\n');
        proof {
            crate::autocomplete::lemma_split_has_piece(text@, '\n');
            assert(views(all@).last() == all@[all.len() - 1]@);
        }
        let last_is_empty = trim(all[all.len() - 1].as_str()).as_str().is_empty();
        let end: usize = if last_is_empty {
            all.len() - 1
        } else {
            all.len()
        };
        let wanted: usize = if num_lines > 0 {
            num_lines as usize
        } else {
            0
        };
        let start: usize = if end > wanted {
            end - wanted
        } else {
            0
        };
        let ghost lines = log_lines(text@, num_lines);
        proof {
            assert(lines =~= views(all@).subrange(start as int, end as int));
        }
        let mut i: usize = start;
        while i < end
            invariant
                start <= i <= end <= all.len(),
                self.well_formed() == old(self).well_formed(),
                lines == views(all@).subrange(start as int, end as int),
                self@ == lines_shown(old(self)@, lines, i - start),
            decreases end - i,
        {
            assert(lines[i - start] == all@[i as int]@);
            let escaped = bbcode_escape(all[i].as_str());
            self.print_line_internal(escaped.as_str(), false);
            i += 1;
        }
    }
}

/// The name of the script file for `file`: with `.lcs` at its end.
pub fn script_file_name(file: &str) -> (r: String)
    ensures
        r@ == script_name(file@),
{
    let mut r = file.to_owned();
    if !crate::text::ends_with(file, ".lcs") {
        r.append(".lcs");
    }
    r
}

/// The command `exec`: the path of the script to run for `file`, where `exists`
/// says whether a file of the script's name is there: that name, or else the file
/// of that name among the files of the user.
pub fn cmd_exec(file: &str, exists: bool) -> (r: String)
    ensures
        r@ == (if exists {
            script_name(file@)
        } else {
            "user://"@ + script_name(file@)
        }),
{
    let name = script_file_name(file);
    if exists {
        name
    } else {
        user_script_path(name.as_str())
    }
}

/// The path of the script `name` among the files of the user.
pub fn user_script_path(name: &str) -> (r: String)
    ensures
        r@ == "user://"@ + name@,
{
    let mut r = "user://".to_owned();
    r.append(name);
    r
}

/// The number of commands that the console comes with.
pub const BUILTIN_COUNT: usize = 15;

/// The name of the command, of those that the console comes with, whose handler has
/// the handle `id`.
pub open spec fn builtin_name(id: u64) -> Seq<char> {
    if id == 0 {
        "alias"@
    } else if id == 1 {
        "aliases"@
    } else if id == 2 {
        "commands"@
    } else if id == 3 {
        "eval"@
    } else if id == 4 {
        "exec"@
    } else if id == 5 {
        "fps_max"@
    } else if id == 6 {
        "fullscreen"@
    } else if id == 7 {
        "help"@
    } else if id == 8 {
        "log"@
    } else if id == 9 {
        "quit"@
    } else if id == 10 {
        "unalias"@
    } else if id == 11 {
        "vsync"@
    } else if id == 12 {
        "clear"@
    } else if id == 13 {
        "echo"@
    } else {
        "erase_history"@
    }
}

/// The description of the command, of those that the console comes with, whose
/// handler has the handle `id`.
pub open spec fn builtin_description(id: u64) -> Seq<char> {
    if id == 0 {
        "add command alias"@
    } else if id == 1 {
        "list all aliases"@
    } else if id == 2 {
        "list all commands"@
    } else if id == 3 {
        "evaluate an expression"@
    } else if id == 4 {
        "execute commands from file"@
    } else if id == 5 {
        "limit framerate"@
    } else if id == 6 {
        "toggle fullscreen mode"@
    } else if id == 7 {
        "show command info"@
    } else if id == 8 {
        "show recent log entries"@
    } else if id == 9 {
        "exit the application"@
    } else if id == 10 {
        "remove command alias"@
    } else if id == 11 {
        "adjust V-Sync"@
    } else if id == 12 {
        "clear console"@
    } else if id == 13 {
        "display a line of text"@
    } else {
        "erases current history and persisted history"@
    }
}

/// The parameters of the command, of those that the console comes with, whose
/// handler has the handle `id`: the name and the type tag of each.
pub open spec fn builtin_parameters(id: u64) -> Seq<(Seq<char>, i32)> {
    if id == 0 {
        seq![("alias"@, TYPE_STRING), ("command"@, TYPE_STRING)]
    } else if id == 3 {
        seq![("expression"@, TYPE_STRING)]
    } else if id == 4 {
        seq![("file"@, TYPE_STRING)]
    } else if id == 5 {
        seq![("limit"@, TYPE_INT)]
    } else if id == 7 {
        seq![("command_name"@, TYPE_STRING)]
    } else if id == 8 {
        seq![("num_lines"@, TYPE_INT)]
    } else if id == 10 {
        seq![("alias"@, TYPE_STRING)]
    } else if id == 11 {
        seq![("mode"@, TYPE_INT)]
    } else if id == 13 {
        seq![("line"@, TYPE_STRING)]
    } else {
        Seq::empty()
    }
}

/// The parameters given as `first` and `second`.
pub open spec fn parameters_given(first: Option<(&str, i32)>, second: Option<(&str, i32)>) -> Seq<
    (Seq<char>, i32),
> {
    match (first, second) {
        (Some(a), Some(b)) => seq![(a.0@, a.1), (b.0@, b.1)],
        (Some(a), None) => seq![(a.0@, a.1)],
        (None, Some(b)) => seq![(b.0@, b.1)],
        (None, None) => Seq::empty(),
    }
}

/// The name and the type tag of each parameter of a signature.
pub open spec fn parameters_of(info: MethodInfo) -> Seq<(Seq<char>, i32)> {
    Seq::new(info.args@.len(), |i: int| (info.args@[i].name@, info.args@[i].type_id))
}

/// Whether `command` is the command, of those that the console comes with, whose
/// handler has the handle that it holds: under its name, with its description and
/// its parameters, none of which has a default or is bound.
pub open spec fn is_builtin(command: Command) -> bool {
    &&& command.handler < BUILTIN_COUNT
    &&& command.name@ == builtin_name(command.handler)
    &&& command.description@ == builtin_description(command.handler)
    &&& command.bound_args == 0
    &&& command.signature is Some
    &&& command.signature->0.default_count == 0
    &&& command.signature->0.defaults@.len() == 0
    &&& parameters_of(command.signature->0) == builtin_parameters(command.handler)
}

/// A signature without defaults, of at most two parameters.
fn signature_of(first: Option<(&str, i32)>, second: Option<(&str, i32)>) -> (r: Option<
    MethodInfo,
>)
    ensures
        r is Some,
        r->0.default_count == 0,
        r->0.defaults@.len() == 0,
        parameters_of(r->0) == parameters_given(first, second),
{
    let mut args: Vec<ArgInfo> = Vec::new();
    match first {
        Some((name, type_id)) => {
            args.push(ArgInfo { name: name.to_owned(), type_id });
        },
        None => {},
    }
    match second {
        Some((name, type_id)) => {
            args.push(ArgInfo { name: name.to_owned(), type_id });
        },
        None => {},
    }
    let info = MethodInfo { args, default_count: 0, defaults: Vec::new() };
    assert(parameters_of(info) =~= parameters_given(first, second));
    Some(info)
}

/// Whether the commands of `after` beyond those of `before` are commands that the
/// console comes with, in the order of their handles.
pub open spec fn builtins_added(before: Seq<Command>, after: Seq<Command>) -> bool {
    &&& before.len() <= after.len()
    &&& after.take(before.len() as int) == before
    &&& forall|i: int| before.len() <= i < after.len() ==> is_builtin(#[trigger] after[i])
    &&& forall|i: int, j: int|
        before.len() <= i < j < after.len() ==> (#[trigger] after[i]).handler < (
        #[trigger] after[j]).handler
}

/// Whether the handles of the commands of `after` beyond those of `before` are all
/// less than `id`.
pub open spec fn handles_below(before: Seq<Command>, after: Seq<Command>, id: int) -> bool {
    forall|i: int| before.len() <= i < after.len() ==> (#[trigger] after[i]).handler < id
}

/// Whether the first `n` of the commands that the console comes with are known to
/// `registry`, each under its name, but for those that the settings switch off
/// outside development builds.
pub open spec fn builtins_present(
    registry: crate::registry::Registry,
    disabled: Seq<Seq<char>>,
    is_debug_build: bool,
    n: int,
) -> bool {
    forall|id: u64|
        id < n ==> registry.knows(#[trigger] builtin_name(id)) || (!is_debug_build
            && disabled.contains(builtin_name(id)))
}

/// Each of the commands that the console comes with has a valid command name.
proof fn lemma_builtin_names_are_valid()
    ensures
        forall|id: u64| is_command_sequence(#[trigger] builtin_name(id)),
{
    reveal_strlit("alias");
    reveal_strlit("aliases");
    reveal_strlit("commands");
    reveal_strlit("eval");
    reveal_strlit("exec");
    reveal_strlit("fps_max");
    reveal_strlit("fullscreen");
    reveal_strlit("help");
    reveal_strlit("log");
    reveal_strlit("quit");
    reveal_strlit("unalias");
    reveal_strlit("vsync");
    reveal_strlit("clear");
    reveal_strlit("echo");
    reveal_strlit("erase_history");
    assert forall|id: u64| is_command_sequence(#[trigger] builtin_name(id)) by {
        let s = builtin_name(id);
        assert(crate::util::is_identifier(s));
        crate::util::lemma_identifier_is_command_sequence(s);
    }
}

/// Registers the command of those that the console comes with whose handler has the
/// handle `id`.
fn register_builtin(
    console: &mut TinyConsole,
    Ghost(before): Ghost<Seq<Command>>,
    id: u64,
    name: &str,
    desc: &str,
    first: Option<(&str, i32)>,
    second: Option<(&str, i32)>,
    is_debug_build: bool,
)
    requires
        old(console).well_formed(),
        id < BUILTIN_COUNT,
        name@ == builtin_name(id),
        desc@ == builtin_description(id),
        parameters_given(first, second) == builtin_parameters(id),
        builtins_added(before, old(console).registry.commands@),
        handles_below(before, old(console).registry.commands@, id as int),
        builtins_present(
            old(console).registry,
            views(old(console).options.commands_disabled_in_release@),
            is_debug_build,
            id as int,
        ),
    ensures
        final(console).well_formed(),
        final(console)@ == (ConsoleView { registry: final(console).registry, ..old(console)@ }),
        final(console).registry.aliases == old(console).registry.aliases,
        final(console).registry.sources == old(console).registry.sources,
        builtins_added(before, final(console).registry.commands@),
        handles_below(before, final(console).registry.commands@, id + 1),
        builtins_present(
            final(console).registry,
            views(old(console).options.commands_disabled_in_release@),
            is_debug_build,
            id + 1,
        ),
{
    let handler = Handler {
        id,
        method_name: String::new(),
        signature: signature_of(first, second),
        bound_args: 0,
    };
    let ghost middle = console.registry.commands@;
    let r = console.register_command(handler, name, desc, is_debug_build);
    proof {
        let after = console.registry.commands@;
        let disabled = views(old(console).options.commands_disabled_in_release@);
        lemma_builtin_names_are_valid();
        let old_names = old(console).registry.command_names();
        let new_names = console.registry.command_names();
        assert forall|other: u64| other < id + 1 implies console.registry.knows(
            #[trigger] builtin_name(other),
        ) || (!is_debug_build && disabled.contains(builtin_name(other))) by {
            let n = builtin_name(other);
            if other < id {
                if old(console).registry.knows_command(n) {
                    let k = choose|k: int| 0 <= k < old_names.len() && old_names[k] == n;
                    if r == RegisterOutcome::Registered {
                        assert(after.drop_last()[k] == middle[k]);
                    }
                    assert(new_names[k] == n);
                }
            } else {
                if r == RegisterOutcome::Registered {
                    assert(new_names[after.len() - 1] == n);
                }
            }
        }
        if r == RegisterOutcome::Registered {
            assert(after.take(before.len() as int) =~= middle.take(before.len() as int)) by {
                assert forall|k: int| 0 <= k < before.len() implies after[k] == middle[k] by {
                    assert(after.drop_last()[k] == middle[k]);
                }
            }
            assert forall|i: int| before.len() <= i < after.len() implies is_builtin(
                #[trigger] after[i],
            ) && after[i].handler < id + 1 by {
                if i < middle.len() {
                    assert(after.drop_last()[i] == middle[i]);
                }
            }
            assert forall|i: int, j: int| before.len() <= i < j < after.len() implies (
            #[trigger] after[i]).handler < (#[trigger] after[j]).handler by {
                assert(after.drop_last()[i] == middle[i]);
                if j < middle.len() {
                    assert(after.drop_last()[j] == middle[j]);
                }
            }
        }
    }
}

/// Registers the first five of the commands that the console comes with.
fn register_first(console: &mut TinyConsole, Ghost(before): Ghost<Seq<Command>>, debug: bool)
    requires
        old(console).well_formed(),
        builtins_added(before, old(console).registry.commands@),
        handles_below(before, old(console).registry.commands@, 0),
        builtins_present(
            old(console).registry,
            views(old(console).options.commands_disabled_in_release@),
            debug,
            0,
        ),
    ensures
        final(console).well_formed(),
        final(console)@ == (ConsoleView { registry: final(console).registry, ..old(console)@ }),
        final(console).registry.aliases == old(console).registry.aliases,
        final(console).registry.sources == old(console).registry.sources,
        builtins_added(before, final(console).registry.commands@),
        handles_below(before, final(console).registry.commands@, 5),
        builtins_present(
            final(console).registry,
            views(old(console).options.commands_disabled_in_release@),
            debug,
            5,
        ),
{
    let text: i32 = TYPE_STRING;
    register_builtin(
        console,
        Ghost(before),
        0,
        "alias",
        "add command alias",
        Some(("alias", text)),
        Some(("command", text)),
        debug,
    );
    register_builtin(console, Ghost(before), 1, "aliases", "list all aliases", None, None, debug);
    register_builtin(console, Ghost(before), 2, "commands", "list all commands", None, None, debug);
    register_builtin(
        console,
        Ghost(before),
        3,
        "eval",
        "evaluate an expression",
        Some(("expression", text)),
        None,
        debug,
    );
    register_builtin(
        console,
        Ghost(before),
        4,
        "exec",
        "execute commands from file",
        Some(("file", text)),
        None,
        debug,
    );
}

/// Registers the second five of the commands that the console comes with.
fn register_second(console: &mut TinyConsole, Ghost(before): Ghost<Seq<Command>>, debug: bool)
    requires
        old(console).well_formed(),
        builtins_added(before, old(console).registry.commands@),
        handles_below(before, old(console).registry.commands@, 5),
        builtins_present(
            old(console).registry,
            views(old(console).options.commands_disabled_in_release@),
            debug,
            5,
        ),
    ensures
        final(console).well_formed(),
        final(console)@ == (ConsoleView { registry: final(console).registry, ..old(console)@ }),
        final(console).registry.aliases == old(console).registry.aliases,
        final(console).registry.sources == old(console).registry.sources,
        builtins_added(before, final(console).registry.commands@),
        handles_below(before, final(console).registry.commands@, 10),
        builtins_present(
            final(console).registry,
            views(old(console).options.commands_disabled_in_release@),
            debug,
            10,
        ),
{
    let text: i32 = TYPE_STRING;
    let number: i32 = TYPE_INT;
    register_builtin(
        console,
        Ghost(before),
        5,
        "fps_max",
        "limit framerate",
        Some(("limit", number)),
        None,
        debug,
    );
    register_builtin(
        console,
        Ghost(before),
        6,
        "fullscreen",
        "toggle fullscreen mode",
        None,
        None,
        debug,
    );
    register_builtin(
        console,
        Ghost(before),
        7,
        "help",
        "show command info",
        Some(("command_name", text)),
        None,
        debug,
    );
    register_builtin(
        console,
        Ghost(before),
        8,
        "log",
        "show recent log entries",
        Some(("num_lines", number)),
        None,
        debug,
    );
    register_builtin(console, Ghost(before), 9, "quit", "exit the application", None, None, debug);
}

/// Registers the last five of the commands that the console comes with.
fn register_third(console: &mut TinyConsole, Ghost(before): Ghost<Seq<Command>>, debug: bool)
    requires
        old(console).well_formed(),
        builtins_added(before, old(console).registry.commands@),
        handles_below(before, old(console).registry.commands@, 10),
        builtins_present(
            old(console).registry,
            views(old(console).options.commands_disabled_in_release@),
            debug,
            10,
        ),
    ensures
        final(console).well_formed(),
        final(console)@ == (ConsoleView { registry: final(console).registry, ..old(console)@ }),
        final(console).registry.aliases == old(console).registry.aliases,
        final(console).registry.sources == old(console).registry.sources,
        builtins_added(before, final(console).registry.commands@),
        handles_below(before, final(console).registry.commands@, 15),
        builtins_present(
            final(console).registry,
            views(old(console).options.commands_disabled_in_release@),
            debug,
            15,
        ),
{
    let text: i32 = TYPE_STRING;
    let number: i32 = TYPE_INT;
    register_builtin(
        console,
        Ghost(before),
        10,
        "unalias",
        "remove command alias",
        Some(("alias", text)),
        None,
        debug,
    );
    register_builtin(
        console,
        Ghost(before),
        11,
        "vsync",
        "adjust V-Sync",
        Some(("mode", number)),
        None,
        debug,
    );
    register_builtin(console, Ghost(before), 12, "clear", "clear console", None, None, debug);
    register_builtin(
        console,
        Ghost(before),
        13,
        "echo",
        "display a line of text",
        Some(("line", text)),
        None,
        debug,
    );
    register_builtin(
        console,
        Ghost(before),
        14,
        "erase_history",
        "erases current history and persisted history",
        None,
        None,
        debug,
    );
}

/// Registers the commands that the console comes with, each with its position
/// among them as the handle of its handler. One that is switched off outside
/// development builds is left out, and so is one whose name a command or an alias
/// has already.
pub fn register(console: &mut TinyConsole, is_debug_build: bool)
    requires
        old(console).well_formed(),
    ensures
        final(console).well_formed(),
        final(console)@ == (ConsoleView { registry: final(console).registry, ..old(console)@ }),
        final(console).registry.aliases == old(console).registry.aliases,
        final(console).registry.sources == old(console).registry.sources,
        builtins_added(old(console).registry.commands@, final(console).registry.commands@),
        builtins_present(
            final(console).registry,
            views(old(console).options.commands_disabled_in_release@),
            is_debug_build,
            BUILTIN_COUNT as int,
        ),
{
    let ghost before = console.registry.commands@;
    assert(before.take(before.len() as int) =~= before);
    register_first(console, Ghost(before), is_debug_build);
    register_second(console, Ghost(before), is_debug_build);
    register_third(console, Ghost(before), is_debug_build);
}

} // verus!

//! Starting and stopping the console, opening and closing it, greeting, and the
//! start of a script.

use vstd::prelude::*;
use crate::ascii_art::{all_supported, art_row, is_boxed_art_supported};
use crate::builtin_commands::{greeting, help_hint_commands, help_hint_help};
use crate::registry::{strip_leading, Registry};
use crate::text::lowercase;
use crate::tiny_console::{error_line, say, show, tip, tip_text, ConsoleView, TinyConsole};
use crate::util::replace;

verus! {

/// The state `v` after the greeting is printed, where `name` and `version` are
/// those of the project: the greeting, in block letters where the settings ask for
/// them and every character has a drawing, else in bold; then the hints of `help`;
/// then a rule.
pub open spec fn greeted(v: ConsoleView, name: Seq<char>, version: Seq<char>) -> ConsoleView {
    let message = greeting(v.options.greeting_message@, name, version);
    let welcomed = if message.len() == 0 {
        v
    } else if v.options.greet_using_ascii_art && all_supported(lowercase(message)) {
        show(
            say(say(v, art_row(lowercase(message), 0)), art_row(lowercase(message), 1)),
            Seq::empty(),
        )
    } else {
        show(v, "[b]"@ + message + "[/b]"@)
    };
    show(
        show(show(welcomed, help_hint_commands(v)), help_hint_help(v)),
        tip(v.colors.output_debug@, "-----"@),
    )
}

/// The name of a script as it is shown when the script is not found: without
/// `user://` before it.
pub open spec fn shown_script_name(file: Seq<char>) -> Seq<char> {
    strip_leading(file, "user://"@)
}

/// The history `h` cut down to its latest `limit` lines; as it is where `limit` is
/// negative.
pub open spec fn history_kept(h: Seq<Seq<char>>, limit: i32) -> Seq<Seq<char>> {
    if 0 <= limit < h.len() {
        h.skip(h.len() - limit)
    } else {
        h
    }
}

impl TinyConsole {
    /// Starts the console, once: it is switched off outside development builds or
    /// inside the editor where the settings say so. Returns whether it was started
    /// by this call.
    pub fn initialize(&mut self, is_debug_build: bool, is_editor: bool) -> (r: bool)
        ensures
            final(self).well_formed() == old(self).well_formed(),
            r == !old(self)@.initialized,
            !r ==> final(self)@ == old(self)@,
            r ==> final(self)@ == (ConsoleView {
                initialized: true,
                enabled: if is_editor && !old(self)@.options.enable_in_editor {
                    false
                } else if old(self)@.options.disable_in_release_build {
                    is_debug_build
                } else {
                    old(self)@.enabled
                },
                ..old(self)@
            }),
    {
        if self.initialized {
            return false;
        }
        self.initialized = true;
        if self.options.disable_in_release_build {
            self.enabled = is_debug_build;
        }
        if is_editor && !self.options.enable_in_editor {
            self.enabled = false;
        }
        true
    }

    /// Prints the greeting, where `project_name` and `project_version` are those
    /// of the project.
    pub fn greet(&mut self, project_name: &str, project_version: &str)
        ensures
            final(self).well_formed() == old(self).well_formed(),
            final(self)@ == greeted(old(self)@, project_name@, project_version@),
    {
        let named = replace(self.options.greeting_message.as_str(), "{project_name}", project_name);
        let message = replace(named.as_str(), "{project_version}", project_version);
        if !message.as_str().is_empty() {
            if self.options.greet_using_ascii_art && is_boxed_art_supported(message.as_str()) {
                self.print_boxed(message.as_str());
                self.print_line_internal("", false);
                proof {
                    reveal_strlit("");
                    assert(""@ =~= Seq::<char>::empty());
                }
            } else {
                let mut bold = "[b]".to_owned();
                bold.append(message.as_str());
                bold.append("[/b]");
                self.print_line_internal(bold.as_str(), false);
            }
        }
        let commands = crate::tiny_console::colored_text(
            self.colors.output_command_mention.as_str(),
            "commands",
        );
        let mut first = "Type ".to_owned();
        first.append(commands.as_str());
        first.append(" to list all available commands.");
        let line = tip_text(self.colors.output_debug.as_str(), first.as_str());
        self.print_line_internal(line.as_str(), false);
        let help = crate::tiny_console::colored_text(
            self.colors.output_command_mention.as_str(),
            "help command",
        );
        let mut second = "Type ".to_owned();
        second.append(help.as_str());
        second.append(" to get more info about the command.");
        let line = tip_text(self.colors.output_debug.as_str(), second.as_str());
        self.print_line_internal(line.as_str(), false);
        let rule = tip_text(self.colors.output_debug.as_str(), "-----");
        self.print_line_internal(rule.as_str(), false);
    }

    /// Announces the script `file` before its lines are run, where `exists` says
    /// whether the file is there: a script that is there is announced unless it runs
    /// silently; one that is not is reported. Returns whether the lines are to be
    /// run.
    pub fn execute_script(&mut self, file: &str, exists: bool, silent: bool) -> (r: bool)
        ensures
            final(self).well_formed() == old(self).well_formed(),
            r == exists,
            final(self)@ == (if !exists {
                say(
                    old(self)@,
                    error_line(
                        old(self)@.colors.output_error@,
                        "File not found: "@ + shown_script_name(file@),
                    ),
                )
            } else if silent {
                old(self)@
            } else {
                show(old(self)@, "Executing "@ + file@)
            }),
    {
        if exists {
            if !silent {
                let mut msg = "Executing ".to_owned();
                msg.append(file);
                self.print_line_internal(msg.as_str(), false);
            }
            true
        } else {
            let shown = crate::registry::strip_leading_of(file, "user://");
            let mut msg = "File not found: ".to_owned();
            msg.append(shown.as_str());
            self.error(msg.as_str());
            false
        }
    }

    /// Opens the console, where it is switched on.
    pub fn open_console(&mut self)
        ensures
            final(self).well_formed() == old(self).well_formed(),
            final(self)@ == (ConsoleView {
                is_open: old(self)@.enabled || old(self)@.is_open,
                ..old(self)@
            }),
    {
        if self.enabled {
            self.is_open = true;
        }
    }

    /// The lines of the history to store, where it has changed since it was last
    /// loaded or saved: its latest lines, no more than the settings allow. The
    /// history then counts as saved.
    fn lines_to_store(&mut self) -> (lines: Option<Vec<String>>)
        ensures
            final(self).well_formed() == old(self).well_formed(),
            final(self)@ == (ConsoleView { history_dirty: false, ..old(self)@ }),
            lines is Some == old(self)@.history_dirty,
            lines is Some ==> crate::text::views(lines->0@) == history_kept(
                old(self)@.history,
                old(self)@.options.history_lines,
            ),
    {
        let count = self.history.size();
        let cap: usize = if self.options.history_lines < 0 {
            count
        } else {
            self.options.history_lines as usize
        };
        self.history.save(cap)
    }

    /// Closes the console, where it is switched on, and returns the lines of the
    /// history to store: those of a history that is kept between runs and has
    /// changed, its latest lines, no more than the settings allow.
    pub fn close_console(&mut self) -> (lines: Option<Vec<String>>)
        ensures
            final(self).well_formed() == old(self).well_formed(),
            lines is Some == (old(self)@.enabled && old(self)@.options.persist_history && old(self)@.history_dirty),
            lines is Some ==> crate::text::views(lines->0@) == history_kept(
                old(self)@.history,
                old(self)@.options.history_lines,
            ),
            final(self)@ == (ConsoleView {
                is_open: old(self)@.is_open && !old(self)@.enabled,
                history_dirty: old(self)@.history_dirty && !(old(self)@.enabled && old(self)@.options.persist_history),
                ..old(self)@
            }),
    {
        if self.enabled {
            self.is_open = false;
            if self.options.persist_history {
                return self.lines_to_store();
            }
        }
        None
    }

    /// Opens the console where it is closed, and closes it where it is open.
    /// Returns the lines of the history to store, as `close_console` does.
    pub fn toggle_console(&mut self) -> (lines: Option<Vec<String>>)
        ensures
            final(self).well_formed() == old(self).well_formed(),
            !old(self)@.is_open ==> lines is None && final(self)@ == (ConsoleView {
                is_open: old(self)@.enabled,
                ..old(self)@
            }),
            old(self)@.is_open ==> {
                &&& lines is Some == (old(self)@.enabled && old(self)@.options.persist_history
                    && old(self)@.history_dirty)
                &&& lines is Some ==> crate::text::views(lines->0@) == history_kept(
                    old(self)@.history,
                    old(self)@.options.history_lines,
                )
                &&& final(self)@ == (ConsoleView {
                    is_open: !old(self)@.enabled,
                    history_dirty: old(self)@.history_dirty && !(old(self)@.enabled && old(self)@.options.persist_history),
                    ..old(self)@
                })
            },
    {
        if self.is_open {
            self.close_console()
        } else {
            self.open_console();
            None
        }
    }

    /// Forgets the history.
    pub fn erase_history(&mut self)
        requires
            old(self).well_formed(),
        ensures
            final(self).well_formed(),
            final(self)@ == (ConsoleView {
                history: Seq::empty(),
                history_dirty: true,
                ..old(self)@
            }),
    {
        self.history.clear();
    }

    /// Stops the console: it forgets its commands, aliases and sources. Where the
    /// history is kept between runs, it is cut down to the number of lines that the
    /// settings allow, and the lines to store are returned if it has changed.
    pub fn cleanup(&mut self) -> (lines: Option<Vec<String>>)
        requires
            old(self).well_formed(),
        ensures
            final(self).well_formed(),
            final(self).registry.commands@.len() == 0,
            final(self).registry.aliases@.len() == 0,
            final(self).registry.sources@.len() == 0,
            !final(self)@.initialized,
            final(self)@ == (ConsoleView {
                initialized: false,
                registry: final(self).registry,
                history: final(self)@.history,
                history_dirty: final(self)@.history_dirty,
                ..old(self)@
            }),
            final(self)@.history == (if old(self)@.options.persist_history {
                history_kept(old(self)@.history, old(self)@.options.history_lines)
            } else {
                old(self)@.history
            }),
            final(self)@.history_dirty == (old(self)@.history_dirty && !old(self)@.options.persist_history),
            lines is Some == (old(self)@.options.persist_history && old(self)@.history_dirty),
            lines is Some ==> crate::text::views(lines->0@) == final(self)@.history,
    {
        let mut lines: Option<Vec<String>> = None;
        if self.options.persist_history {
            if self.options.history_lines >= 0 {
                self.history.trim(self.options.history_lines as usize);
            }
            lines = self.lines_to_store();
        }
        self.initialized = false;
        self.registry = Registry::new();
        lines
    }
}

} // verus!

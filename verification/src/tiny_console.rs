//! The console engine: its state, and the lines that it prints.

use vstd::prelude::*;
use crate::ascii_art::{art_row, str_to_boxed_art};
use crate::command_history::{CommandHistory, WrappingIterator};
use crate::console_options::ConsoleOptions;
use crate::registry::Registry;
use crate::text::lowercase;
use crate::util::{bbcode_strip, strip_tags};

verus! {

/// The colours of the console's output, each as the hexadecimal text that markup
/// takes.
#[derive(Debug, Clone, PartialEq, Eq)]
pub struct ConsoleColors {
    pub output_command: String,
    pub output_command_mention: String,
    pub output_error: String,
    pub output_warning: String,
    pub output_text: String,
    pub output_debug: String,
}

/// A printed line: with its markup, for the console's own display, and as plain
/// text where it is mirrored to standard output.
#[derive(Debug, Clone, PartialEq, Eq)]
pub struct OutputLine {
    pub markup: String,
    pub plain: Option<String>,
}

/// What an `OutputLine` stands for.
pub struct LineView {
    pub markup: Seq<char>,
    pub plain: Option<Seq<char>>,
}

impl View for OutputLine {
    type V = LineView;

    open spec fn view(&self) -> LineView {
        LineView {
            markup: self.markup@,
            plain: match self.plain {
                Some(p) => Some(p@),
                None => None,
            },
        }
    }
}

/// What each of a list of printed lines stands for.
pub open spec fn line_views(lines: Seq<OutputLine>) -> Seq<LineView> {
    Seq::new(lines.len(), |i: int| lines[i]@)
}

/// The printed form of `line`, mirrored to standard output if `stdout` says so.
pub open spec fn printed(line: Seq<char>, stdout: bool) -> LineView {
    LineView {
        markup: line,
        plain: if stdout {
            Some(strip_tags(line, false))
        } else {
            None
        },
    }
}

/// `text` in the colour `color`.
pub open spec fn colored(color: Seq<char>, text: Seq<char>) -> Seq<char> {
    "[color="@ + color + "]"@ + text + "[/color]"@
}

/// `text` as a hint: in italics and in the colour `color`.
pub open spec fn tip(color: Seq<char>, text: Seq<char>) -> Seq<char> {
    "[i][color="@ + color + "]"@ + text + "[/color][/i]"@
}

/// The line that reports the error `text`.
pub open spec fn error_line(color: Seq<char>, text: Seq<char>) -> Seq<char> {
    "[color="@ + color + "]ERROR:[/color] "@ + text
}

/// The line that gives the warning `text`.
pub open spec fn warning_line(color: Seq<char>, text: Seq<char>) -> Seq<char> {
    "[color="@ + color + "]WARNING:[/color] "@ + text
}

/// The line that shows the debugging message `text`.
pub open spec fn debug_line(color: Seq<char>, text: Seq<char>) -> Seq<char> {
    "[color="@ + color + "]DEBUG: "@ + text + "[/color]"@
}

/// `text` in the colour `color`.
pub fn colored_text(color: &str, text: &str) -> (r: String)
    ensures
        r@ == colored(color@, text@),
{
    let mut r = "[color=".to_owned();
    r.append(color);
    r.append("]");
    r.append(text);
    r.append("[/color]");
    r
}

/// `text` as a hint: in italics and in the colour `color`.
pub fn tip_text(color: &str, text: &str) -> (r: String)
    ensures
        r@ == tip(color@, text@),
{
    let mut r = "[i][color=".to_owned();
    r.append(color);
    r.append("]");
    r.append(text);
    r.append("[/color][/i]");
    r
}

/// The console engine.
pub struct TinyConsole {
    pub options: ConsoleOptions,
    pub colors: ConsoleColors,
    pub registry: Registry,
    pub history: CommandHistory,
    pub history_iter: WrappingIterator,
    pub autocomplete_matches: Vec<String>,
    pub output: Vec<OutputLine>,
    pub silent: bool,
    pub enabled: bool,
    pub initialized: bool,
    pub is_open: bool,
}

/// What the console's state stands for.
pub struct ConsoleView {
    pub options: ConsoleOptions,
    pub colors: ConsoleColors,
    pub registry: Registry,
    /// The history, oldest line first.
    pub history: Seq<Seq<char>>,
    /// Whether the history has changed since it was loaded or saved.
    pub history_dirty: bool,
    /// The lines that the history cursor walks over.
    pub cursor_lines: Seq<Seq<char>>,
    /// The position of the history cursor.
    pub cursor: int,
    /// The candidate completions, the current one first.
    pub matches: Seq<Seq<char>>,
    /// The lines printed and not yet taken.
    pub output: Seq<LineView>,
    /// Whether printing is switched off.
    pub silent: bool,
    pub enabled: bool,
    pub initialized: bool,
    pub is_open: bool,
}

impl View for TinyConsole {
    type V = ConsoleView;

    open spec fn view(&self) -> ConsoleView {
        ConsoleView {
            options: self.options,
            colors: self.colors,
            registry: self.registry,
            history: self.history@,
            history_dirty: self.history.dirty(),
            cursor_lines: self.history_iter@,
            cursor: self.history_iter.position(),
            matches: crate::text::views(self.autocomplete_matches@),
            output: line_views(self.output@),
            silent: self.silent,
            enabled: self.enabled,
            initialized: self.initialized,
            is_open: self.is_open,
        }
    }
}

/// The state `v` after `line` is printed: nothing changes while printing is
/// switched off.
pub open spec fn print(v: ConsoleView, line: Seq<char>, stdout: bool) -> ConsoleView {
    if v.silent {
        v
    } else {
        ConsoleView { output: v.output.push(printed(line, stdout)), ..v }
    }
}

/// The state `v` after `line` is printed for the console's display alone.
pub open spec fn show(v: ConsoleView, line: Seq<char>) -> ConsoleView {
    print(v, line, false)
}

/// The state `v` after `line` is printed as the settings ask.
pub open spec fn say(v: ConsoleView, line: Seq<char>) -> ConsoleView {
    print(v, line, v.options.print_to_stdout)
}

impl TinyConsole {
    /// The registry and the history are well formed, and the history cursor stands
    /// within its lines.
    pub open spec fn well_formed(&self) -> bool {
        &&& self.registry.well_formed()
        &&& self.history.well_formed()
        &&& self.history_iter.well_formed()
    }

    /// A console with the given settings and colours, which knows no command and has
    /// printed nothing.
    pub fn new(options: ConsoleOptions, colors: ConsoleColors) -> (c: Self)
        ensures
            c.well_formed(),
            c.options == options,
            c.colors == colors,
            c@.registry.commands@.len() == 0,
            c@.registry.aliases@.len() == 0,
            c@.registry.sources@.len() == 0,
            c@.history.len() == 0,
            !c@.history_dirty,
            c@.cursor_lines.len() == 0,
            c@.cursor == -1,
            c@.matches.len() == 0,
            c@.output.len() == 0,
            !c@.silent,
            c@.enabled,
            !c@.initialized,
            !c@.is_open,
    {
        let history = CommandHistory::new();
        let history_iter = history.create_iterator();
        TinyConsole {
            options,
            colors,
            registry: Registry::new(),
            history,
            history_iter,
            autocomplete_matches: Vec::new(),
            output: Vec::new(),
            silent: false,
            enabled: true,
            initialized: false,
            is_open: false,
        }
    }

    /// Whether the console has been started.
    pub fn is_initialized(&self) -> (r: bool)
        ensures
            r == self@.initialized,
    {
        self.initialized
    }

    /// Whether the console is open.
    pub fn is_console_open(&self) -> (r: bool)
        ensures
            r == self@.is_open,
    {
        self.is_open
    }

    /// Prints `line`, mirrored to standard output if `stdout` says so. Nothing is
    /// printed while printing is switched off.
    pub fn print_line_internal(&mut self, line: &str, stdout: bool)
        ensures
            final(self)@ == print(old(self)@, line@, stdout),
    {
        if self.silent {
            return;
        }
        let plain = if stdout {
            Some(bbcode_strip(line))
        } else {
            None
        };
        let entry = OutputLine { markup: line.to_owned(), plain };
        assert(line_views(self.output@.push(entry)) =~= line_views(self.output@).push(
            printed(line@, stdout),
        ));
        self.output.push(entry);
    }

    /// Prints `line`, mirrored to standard output if `stdout` says so.
    pub fn print_line_ex(&mut self, line: &str, stdout: bool)
        ensures
            final(self)@ == print(old(self)@, line@, stdout),
    {
        self.print_line_internal(line, stdout);
    }

    /// Prints `line` as the settings ask.
    pub fn print_line(&mut self, line: &str)
        ensures
            final(self)@ == say(old(self)@, line@),
    {
        let stdout = self.options.print_to_stdout;
        self.print_line_internal(line, stdout);
    }

    /// Prints `line` as the settings ask.
    pub fn info(&mut self, line: &str)
        ensures
            final(self)@ == say(old(self)@, line@),
    {
        let stdout = self.options.print_to_stdout;
        self.print_line_internal(line, stdout);
    }

    /// Prints `line` as an error.
    pub fn error(&mut self, line: &str)
        ensures
            final(self)@ == say(old(self)@, error_line(old(self)@.colors.output_error@, line@)),
    {
        let mut msg = "[color=".to_owned();
        msg.append(self.colors.output_error.as_str());
        msg.append("]ERROR:[/color] ");
        msg.append(line);
        let stdout = self.options.print_to_stdout;
        self.print_line_internal(msg.as_str(), stdout);
    }

    /// Prints `line` as a warning.
    pub fn warn(&mut self, line: &str)
        ensures
            final(self)@ == say(
                old(self)@,
                warning_line(old(self)@.colors.output_warning@, line@),
            ),
    {
        let mut msg = "[color=".to_owned();
        msg.append(self.colors.output_warning.as_str());
        msg.append("]WARNING:[/color] ");
        msg.append(line);
        let stdout = self.options.print_to_stdout;
        self.print_line_internal(msg.as_str(), stdout);
    }

    /// Prints `line` as a debugging message.
    pub fn debug_msg(&mut self, line: &str)
        ensures
            final(self)@ == say(old(self)@, debug_line(old(self)@.colors.output_debug@, line@)),
    {
        let mut msg = "[color=".to_owned();
        msg.append(self.colors.output_debug.as_str());
        msg.append("]DEBUG: ");
        msg.append(line);
        msg.append("[/color]");
        let stdout = self.options.print_to_stdout;
        self.print_line_internal(msg.as_str(), stdout);
    }

    /// Prints `line` in block letters, two lines high.
    pub fn print_boxed(&mut self, line: &str)
        ensures
            final(self)@ == say(
                say(old(self)@, art_row(lowercase(line@), 0)),
                art_row(lowercase(line@), 1),
            ),
    {
        let lines = str_to_boxed_art(line);
        let stdout = self.options.print_to_stdout;
        self.print_line_internal(lines[0].as_str(), stdout);
        self.print_line_internal(lines[1].as_str(), stdout);
    }

    /// `text` as a hint, in the colour of debugging messages.
    pub fn format_tip(&self, text: &str) -> (r: String)
        ensures
            r@ == tip(self@.colors.output_debug@, text@),
    {
        tip_text(self.colors.output_debug.as_str(), text)
    }

    /// `name` in the colour in which commands are mentioned.
    pub fn format_name(&self, name: &str) -> (r: String)
        ensures
            r@ == colored(self@.colors.output_command_mention@, name@),
    {
        colored_text(self.colors.output_command_mention.as_str(), name)
    }

    /// Hands out the lines printed since the last call, oldest first.
    pub fn take_output(&mut self) -> (lines: Vec<OutputLine>)
        ensures
            line_views(lines@) == old(self)@.output,
            final(self)@ == (ConsoleView { output: Seq::empty(), ..old(self)@ }),
    {
        let mut lines: Vec<OutputLine> = Vec::new();
        core::mem::swap(&mut lines, &mut self.output);
        assert(line_views(self.output@) =~= Seq::<LineView>::empty());
        lines
    }

    /// Forgets the lines printed and not yet taken.
    pub fn clear_console(&mut self)
        ensures
            final(self)@ == (ConsoleView { output: Seq::empty(), ..old(self)@ }),
    {
        self.output = Vec::new();
        assert(line_views(self.output@) =~= Seq::<LineView>::empty());
    }
}

} // verus!

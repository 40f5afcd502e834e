//! Running a command in three steps: the console prepares the call, the application
//! makes it, and the console finishes. Between the steps the console is free, so that
//! a handler may use it.

use vstd::prelude::*;
use crate::coercion::{
    coerced_arguments, error_message, parse_argv, value_views, Value, ValueView,
};
use crate::command_history::pushed;
use crate::text::{
    clone_strings, join, join_on, join_range, lemma_views_push, sort_of, trim,
    trim_chars, trimmed, views,
};
use crate::tiny_console::{colored, colored_text, error_line, print, say, show, tip, tip_text,
    ConsoleView, TinyConsole};
use crate::tokenizer::{parse_command_line, tokenized};
use crate::util::{closest_match, fuzzy_match_string};

verus! {

/// The greatest edit distance at which a name or a value is suggested in place of
/// one that was typed.
pub const SUGGESTION_DISTANCE: usize = 2;

/// A call that is ready to be made: the handle of the handler, the typed
/// arguments, and the resolved line that they were taken from.
#[derive(Debug, Clone, PartialEq, Eq)]
pub struct Invocation {
    pub handler: u64,
    pub args: Vec<Value>,
    pub argv: Vec<String>,
}

/// What the application is to do after the console has prepared a line.
#[derive(Debug, Clone, PartialEq, Eq)]
pub enum Prepared {
    /// Nothing: the line was empty, a comment, or in error.
    Nothing,
    /// Call the handler, then finish the command.
    Invoke(Invocation),
    /// The arguments were rejected: show the usage of the command of this name,
    /// then end the command.
    Usage(String),
}

/// What a `Prepared` stands for.
pub enum PreparedView {
    Nothing,
    Invoke { handler: u64, args: Seq<ValueView>, argv: Seq<Seq<char>> },
    Usage(Seq<char>),
}

impl View for Prepared {
    type V = PreparedView;

    open spec fn view(&self) -> PreparedView {
        match self {
            Prepared::Nothing => PreparedView::Nothing,
            Prepared::Invoke(i) => PreparedView::Invoke {
                handler: i.handler,
                args: value_views(i.args@),
                argv: views(i.argv@),
            },
            Prepared::Usage(c) => PreparedView::Usage(c@),
        }
    }
}

/// The values that the source for the argument at position `i` gave, if it was
/// asked and gave a list.
pub open spec fn source_values(values: Seq<Option<Vec<String>>>, i: int) -> Option<
    Seq<Seq<char>>,
> {
    if 0 <= i < values.len() {
        match values[i] {
            Some(v) => Some(views(v@)),
            None => None,
        }
    } else {
        None
    }
}

/// The line that echoes the entered arguments `argv`.
pub open spec fn echo_line(color: Seq<char>, argv: Seq<Seq<char>>) -> Seq<char> {
    "[color="@ + color + "][b]>[/b] "@ + argv[0] + "[/color] "@ + join_on(argv.skip(1), " "@)
}

/// Whether `line` is passed over: a comment, which begins with `#`, or a line
/// without arguments.
pub open spec fn is_skipped(line: Seq<char>) -> bool {
    (trimmed(line).len() > 0 && trimmed(line)[0] == '#') || tokenized(line).len() == 0
}

/// The state `v` after the line with arguments `argv` is taken up. Printing is
/// switched off for a silent line. Any other line is entered into the history, the
/// history cursor starts afresh, and the line is echoed.
pub open spec fn entered(v: ConsoleView, argv: Seq<Seq<char>>, silent: bool) -> ConsoleView {
    if silent {
        ConsoleView { silent: true, ..v }
    } else {
        let history = pushed(v.history, join_on(argv, " "@));
        show(
            ConsoleView {
                silent: false,
                history: history,
                history_dirty: true,
                cursor_lines: history,
                cursor: -1,
                ..v
            },
            echo_line(v.colors.output_command@, argv),
        )
    }
}

/// The state `v` after a command like the unknown `argv[0]` is looked for: the
/// closest name of a command or an alias, if one is close enough, is suggested, and
/// the line with that name in place of the unknown one is added to the completions.
pub open spec fn similar_suggested(v: ConsoleView, argv: Seq<Seq<char>>) -> ConsoleView {
    if v.silent || argv.len() == 0 {
        v
    } else {
        match closest_match(
            argv[0],
            sort_of(v.registry.listed_names(true)),
            SUGGESTION_DISTANCE as int,
        ) {
            None => v,
            Some(hit) => {
                let shown = show(
                    v,
                    tip(
                        v.colors.output_debug@,
                        "Did you mean "@ + colored(v.colors.output_command_mention@, hit)
                            + "? ([b]TAB[/b] to fill)"@,
                    ),
                );
                ConsoleView {
                    matches: shown.matches.push(trimmed(join_on(argv.update(0, hit), " "@))),
                    ..shown
                }
            },
        }
    }
}

/// The correction for `arg`, the argument with index `i` of the command `actual`,
/// where the first argument after the command has index 0: the closest of the values
/// that the source for that argument gave, if there is a source and one value is
/// close enough.
pub open spec fn correction(
    v: ConsoleView,
    actual: Seq<char>,
    arg: Seq<char>,
    values: Seq<Option<Vec<String>>>,
    i: int,
) -> Option<Seq<char>> {
    if v.registry.has_source(actual, i) {
        match source_values(values, i) {
            Some(candidates) => closest_match(arg, candidates, SUGGESTION_DISTANCE as int),
            None => None,
        }
    } else {
        None
    }
}

/// The first `n` items of the line `argv` of the command `actual`, each argument
/// with its correction in its place where it has one, and whether any has. The
/// argument `argv[i]` has the index `i - 1`: it is corrected from the source for
/// that index, and `values[i - 1]` holds what that source gave.
pub open spec fn corrected(
    v: ConsoleView,
    actual: Seq<char>,
    argv: Seq<Seq<char>>,
    values: Seq<Option<Vec<String>>>,
    n: int,
) -> (Seq<Seq<char>>, bool)
    decreases n,
{
    if n <= 1 {
        (seq![actual], false)
    } else {
        let before = corrected(v, actual, argv, values, n - 1);
        match correction(v, actual, argv[n - 1], values, n - 2) {
            Some(hit) => (before.0.push(hit), true),
            None => (before.0.push(argv[n - 1]), before.1),
        }
    }
}

/// The command that the first argument `name` of a resolved line stands for: the
/// first argument of its target where it is an alias, else itself.
pub open spec fn actual_command(v: ConsoleView, name: Seq<char>) -> Seq<char> {
    if v.registry.knows_alias(name) {
        v.registry.target_of(name)[0]
    } else {
        name
    }
}

/// The state `v` after corrections are looked for, for the arguments of the line
/// `argv` whose handler reported a failure: where any argument has a correction, the
/// corrected line is suggested and added to the completions.
pub open spec fn corrections_suggested(
    v: ConsoleView,
    argv: Seq<Seq<char>>,
    values: Seq<Option<Vec<String>>>,
) -> ConsoleView {
    if v.silent || argv.len() == 0 {
        v
    } else {
        let actual = actual_command(v, argv[0]);
        let c = corrected(v, actual, argv, values, argv.len() as int);
        if c.1 {
            let shown = show(
                v,
                tip(
                    v.colors.output_debug@,
                    "Did you mean \""@ + colored(v.colors.output_command_mention@, actual) + " "@
                        + join_on(c.0.skip(1), " "@) + "\"? ([b]TAB[/b] to fill)"@,
                ),
            );
            ConsoleView { matches: shown.matches.push(trimmed(join_on(c.0, " "@))), ..shown }
        } else {
            v
        }
    }
}

/// The state `v` after the line `line` is prepared.
pub open spec fn prepare_view(v: ConsoleView, line: Seq<char>, silent: bool) -> ConsoleView {
    let argv = tokenized(line);
    if is_skipped(line) {
        v
    } else {
        match v.registry.resolved(argv) {
            Err(_) => ConsoleView {
                silent: false,
                ..say(
                    entered(v, argv, silent),
                    error_line(
                        v.colors.output_error@,
                        "Max depth for alias reached. Loop in aliasing?"@,
                    ),
                )
            },
            Ok(resolved) => if resolved.len() == 0 {
                v
            } else if !v.registry.knows_command(resolved[0]) {
                ConsoleView {
                    silent: false,
                    ..similar_suggested(
                        show(
                            entered(v, argv, silent),
                            error_line(v.colors.output_error@, "Unknown command: "@ + resolved[0]),
                        ),
                        resolved,
                    )
                }
            } else {
                let command = v.registry.command_named(resolved[0]);
                match coerced_arguments(resolved, command.signature, command.bound_args as int) {
                    Ok(_) => entered(v, argv, silent),
                    Err(e) => say(
                        entered(v, argv, silent),
                        error_line(v.colors.output_error@, error_message(e)),
                    ),
                }
            },
        }
    }
}

/// What the application is to do after the line `line` is prepared.
pub open spec fn prepare_outcome(v: ConsoleView, line: Seq<char>, silent: bool) -> PreparedView {
    let argv = tokenized(line);
    if is_skipped(line) {
        PreparedView::Nothing
    } else {
        match v.registry.resolved(argv) {
            Err(_) => PreparedView::Nothing,
            Ok(resolved) => if resolved.len() == 0 || !v.registry.knows_command(resolved[0]) {
                PreparedView::Nothing
            } else {
                let command = v.registry.command_named(resolved[0]);
                match coerced_arguments(resolved, command.signature, command.bound_args as int) {
                    Ok(args) => PreparedView::Invoke {
                        handler: command.handler,
                        args: args,
                        argv: resolved,
                    },
                    Err(_) => PreparedView::Usage(argv[0]),
                }
            },
        }
    }
}

/// The state `v` after the command of the line `argv` is finished, where `status`
/// is the number that the handler returned, if it returned one. A positive status
/// reports a failure: corrections for the arguments are then looked for. In sparse
/// mode an empty line is printed. Printing is switched on again.
pub open spec fn finished(
    v: ConsoleView,
    status: Option<i32>,
    argv: Seq<Seq<char>>,
    values: Seq<Option<Vec<String>>>,
) -> ConsoleView {
    let suggested = if status is Some && status->0 > 0 {
        corrections_suggested(v, argv, values)
    } else {
        v
    };
    let spaced = if v.options.sparse_mode {
        show(suggested, Seq::empty())
    } else {
        suggested
    };
    ConsoleView { silent: false, ..spaced }
}

/// A copy of `argv` with `head` as its first item.
fn with_head(argv: &Vec<String>, head: String) -> (r: Vec<String>)
    requires
        argv.len() > 0,
    ensures
        views(r@) == views(argv@).update(0, head@),
{
    let mut first: Vec<String> = Vec::new();
    proof {
        lemma_views_push(first@, head);
    }
    first.push(head);
    let r = crate::text::concat_strings(&first, argv, 1);
    assert(views(r@) =~= views(argv@).update(0, head@));
    r
}

impl TinyConsole {
    /// Takes up the line with arguments `argv`.
    fn enter(&mut self, argv: &Vec<String>, silent: bool)
        requires
            old(self).well_formed(),
            argv.len() > 0,
        ensures
            final(self).well_formed(),
            final(self)@ == entered(old(self)@, views(argv@), silent),
    {
        self.silent = silent;
        if !silent {
            let history_line = join(argv, " ");
            self.history.push_entry(history_line);
            self.history.reassign_iterator(&mut self.history_iter);
            let mut msg = "[color=".to_owned();
            msg.append(self.colors.output_command.as_str());
            msg.append("][b]>[/b] ");
            msg.append(argv[0].as_str());
            msg.append("[/color] ");
            let rest = join_range(argv, 1, argv.len(), " ");
            msg.append(rest.as_str());
            proof {
                assert(views(argv@).subrange(1, argv.len() as int) =~= views(argv@).skip(1));
                assert(views(argv@)[0] == argv@[0]@);
            }
            self.print_line_internal(msg.as_str(), false);
        }
    }

    /// Looks for a command like the unknown first argument of `argv`.
    pub fn suggest_similar_command(&mut self, argv: &Vec<String>)
        ensures
            final(self)@ == similar_suggested(old(self)@, views(argv@)),
            final(self).well_formed() == old(self).well_formed(),
    {
        if self.silent || argv.len() == 0 {
            return;
        }
        let all_names = self.registry.get_command_names(true);
        assert(views(argv@)[0] == argv@[0]@);
        match fuzzy_match_string(argv[0].as_str(), SUGGESTION_DISTANCE, &all_names) {
            None => {},
            Some(hit) => {
                let name = colored_text(self.colors.output_command_mention.as_str(), hit.as_str());
                let mut text = "Did you mean ".to_owned();
                text.append(name.as_str());
                text.append("? ([b]TAB[/b] to fill)");
                let line = tip_text(self.colors.output_debug.as_str(), text.as_str());
                self.print_line_internal(line.as_str(), false);
                let suggest = with_head(argv, hit);
                let suggestion = trim(join(&suggest, " ").as_str());
                proof {
                    lemma_views_push(self.autocomplete_matches@, suggestion);
                }
                self.autocomplete_matches.push(suggestion);
            },
        }
    }

    /// The handles of the sources to ask before corrections are looked for, for the
    /// arguments of the resolved line `argv`: at position `i` that of the source
    /// for the argument with index `i`, which is `argv[i + 1]`, if the command has
    /// one.
    pub fn correction_sources(&self, argv: &Vec<String>) -> (r: Vec<Option<u64>>)
        requires
            self.well_formed(),
        ensures
            r.len() == (if argv.len() > 0 {
                argv.len() - 1
            } else {
                0
            }),
            forall|i: int|
                0 <= i < r.len() ==> #[trigger] r@[i] == (if self@.registry.has_source(
                    actual_command(self@, views(argv@)[0]),
                    i,
                ) {
                    Some(self@.registry.source_of(actual_command(self@, views(argv@)[0]), i))
                } else {
                    None
                }),
    {
        let mut r: Vec<Option<u64>> = Vec::new();
        if argv.len() == 0 {
            return r;
        }
        assert(views(argv@)[0] == argv@[0]@);
        let actual = self.actual_name(argv[0].as_str());
        let mut i: usize = 0;
        while i < argv.len() - 1
            invariant
                i <= argv.len() - 1,
                argv.len() > 0,
                r.len() == i,
                self.well_formed(),
                actual@ == actual_command(self@, views(argv@)[0]),
                forall|k: int|
                    0 <= k < i ==> #[trigger] r@[k] == (if self@.registry.has_source(actual@, k) {
                        Some(self@.registry.source_of(actual@, k))
                    } else {
                        None
                    }),
            decreases argv.len() - 1 - i,
        {
            proof {
                if i > 4 && self.registry.has_source(actual@, i as int) {
                    let keys = crate::registry::keys_of_sources(self.registry.sources@);
                    let k = choose|k: int| 0 <= k < keys.len() && keys[k] == (actual@, i as int);
                    assert(self.registry.sources@[k].argument <= 4);
                }
            }
            let found = if i <= 4 {
                self.registry.find_source(actual.as_str(), i)
            } else {
                None
            };
            match found {
                Some(k) => {
                    r.push(Some(self.registry.sources[k].source));
                },
                None => {
                    r.push(None);
                },
            }
            i += 1;
        }
        r
    }

    /// Looks for corrections for the arguments of the line `argv`, among the values
    /// that the sources for its arguments gave: `values[i]` holds those for the
    /// argument with index `i`, which is `argv[i + 1]`.
    pub fn suggest_argument_corrections(
        &mut self,
        argv: &Vec<String>,
        values: &Vec<Option<Vec<String>>>,
    )
        requires
            old(self).well_formed(),
        ensures
            final(self)@ == corrections_suggested(old(self)@, views(argv@), values@),
            final(self).well_formed(),
    {
        if self.silent || argv.len() == 0 {
            return;
        }
        assert(views(argv@)[0] == argv@[0]@);
        let actual = match self.registry.find_alias(argv[0].as_str()) {
            Some(i) => {
                assert(self.registry.alias_names()[i as int] == argv@[0]@);
                assert(self.registry.aliases@[i as int].argv@.len() > 0);
                assert(views(self.registry.aliases@[i as int].argv@)[0]
                    == self.registry.aliases@[i as int].argv@[0]@);
                self.registry.aliases[i].argv[0].clone()
            },
            None => argv[0].clone(),
        };
        assert(actual@ == actual_command(self@, views(argv@)[0]));
        let mut fixed: Vec<String> = Vec::new();
        let mut any = false;
        proof {
            lemma_views_push(fixed@, actual);
            assert(views(fixed@).push(actual@) =~= seq![actual@]);
        }
        fixed.push(actual.clone());
        let mut i: usize = 1;
        while i < argv.len()
            invariant
                1 <= i <= argv.len(),
                self@ == old(self)@,
                self.well_formed(),
                fixed.len() == i,
                (views(fixed@), any) == corrected(
                    old(self)@,
                    actual@,
                    views(argv@),
                    values@,
                    i as int,
                ),
            decreases argv.len() - i,
        {
            let mut hit: Option<String> = None;
            let index: usize = i - 1;
            if index <= 4 && self.registry.find_source(actual.as_str(), index).is_some()
                && index < values.len() {
                match &values[index] {
                    Some(candidates) => {
                        hit = fuzzy_match_string(argv[i].as_str(), SUGGESTION_DISTANCE, candidates);
                    },
                    None => {},
                }
            }
            proof {
                assert(views(argv@)[i as int] == argv@[i as int]@);
                if index > 4 && self.registry.has_source(actual@, index as int) {
                    let keys = crate::registry::keys_of_sources(self.registry.sources@);
                    let k = choose|k: int|
                        0 <= k < keys.len() && keys[k] == (actual@, index as int);
                    assert(self.registry.sources@[k].argument <= 4);
                }
            }
            match hit {
                Some(h) => {
                    proof {
                        lemma_views_push(fixed@, h);
                    }
                    fixed.push(h);
                    any = true;
                },
                None => {
                    proof {
                        lemma_views_push(fixed@, argv@[i as int]);
                    }
                    fixed.push(argv[i].clone());
                },
            }
            i += 1;
        }
        if any {
            let name = colored_text(
                self.colors.output_command_mention.as_str(),
                actual.as_str(),
            );
            let rest = join_range(&fixed, 1, fixed.len(), " ");
            assert(views(fixed@).subrange(1, fixed.len() as int) =~= views(fixed@).skip(1));
            let mut text = "Did you mean \"".to_owned();
            text.append(name.as_str());
            text.append(" ");
            text.append(rest.as_str());
            text.append("\"? ([b]TAB[/b] to fill)");
            let line = tip_text(self.colors.output_debug.as_str(), text.as_str());
            self.print_line_internal(line.as_str(), false);
            let suggestion = trim(join(&fixed, " ").as_str());
            proof {
                lemma_views_push(self.autocomplete_matches@, suggestion);
            }
            self.autocomplete_matches.push(suggestion);
        }
    }

    /// Prepares the line `command_line` for execution: resolves it against the
    /// registry and converts its arguments for the handler. A silent line is neither
    /// echoed nor entered into the history, and nothing is printed for it.
    pub fn prepare_command(&mut self, command_line: &str, silent: bool) -> (r: Prepared)
        requires
            old(self).well_formed(),
        ensures
            final(self).well_formed(),
            final(self)@ == prepare_view(old(self)@, command_line@, silent),
            r@ == prepare_outcome(old(self)@, command_line@, silent),
    {
        let x = trim_chars(command_line);
        if x.len() > 0 && x[0] == '#' {
            return Prepared::Nothing;
        }
        let argv = parse_command_line(command_line);
        if argv.len() == 0 {
            return Prepared::Nothing;
        }
        let resolved = match self.registry.resolve(clone_strings(&argv)) {
            Ok(resolved) => resolved,
            Err(_) => {
                self.enter(&argv, silent);
                self.error("Max depth for alias reached. Loop in aliasing?");
                self.silent = false;
                return Prepared::Nothing;
            },
        };
        if resolved.len() == 0 {
            return Prepared::Nothing;
        }
        assert(views(resolved@)[0] == resolved@[0]@);
        assert(views(argv@)[0] == argv@[0]@);
        let found = self.registry.find_command(resolved[0].as_str());
        self.enter(&argv, silent);
        let i = match found {
            Some(i) => i,
            None => {
                let mut text = "Unknown command: ".to_owned();
                text.append(resolved[0].as_str());
                let mut msg = "[color=".to_owned();
                msg.append(self.colors.output_error.as_str());
                msg.append("]ERROR:[/color] ");
                msg.append(text.as_str());
                self.print_line_internal(msg.as_str(), false);
                self.suggest_similar_command(&resolved);
                self.silent = false;
                return Prepared::Nothing;
            },
        };
        let handler = self.registry.commands[i].handler;
        let coerced = parse_argv(
            &resolved,
            self.registry.commands[i].bound_args,
            &self.registry.commands[i].signature,
        );
        match coerced {
            Ok(args) => Prepared::Invoke(Invocation { handler, args, argv: resolved }),
            Err(e) => {
                let message = e.message();
                self.error(message.as_str());
                Prepared::Usage(argv[0].clone())
            },
        }
    }

    /// Finishes the command of the resolved line `argv` after its handler has
    /// returned. `status` is the number that the handler returned, if it returned
    /// one; `values[i]` holds what the source for the argument with index `i`,
    /// which is `argv[i + 1]`, gave.
    pub fn finish_command(
        &mut self,
        status: Option<i32>,
        argv: &Vec<String>,
        values: &Vec<Option<Vec<String>>>,
    )
        requires
            old(self).well_formed(),
        ensures
            final(self).well_formed(),
            final(self)@ == finished(old(self)@, status, views(argv@), values@),
    {
        match status {
            Some(code) => {
                if code > 0 {
                    self.suggest_argument_corrections(argv, values);
                }
            },
            None => {},
        }
        if self.options.sparse_mode {
            self.print_line_internal("", false);
            proof {
                reveal_strlit("");
                assert(""@ =~= Seq::<char>::empty());
            }
        }
        self.silent = false;
    }
}

/// Printing only adds lines: what was printed before stays, in its order.
pub proof fn lemma_print_extends_output(v: ConsoleView, line: Seq<char>, stdout: bool)
    ensures
        v.output.is_prefix_of(print(v, line, stdout).output),
        print(v, line, stdout) == (ConsoleView { output: print(v, line, stdout).output, ..v }),
{
    let w = print(v, line, stdout);
    assert(v.output =~= w.output.subrange(0, v.output.len() as int));
}

/// Taking up a line keeps the registry, the settings and the colours, and only adds
/// to what is printed.
pub proof fn lemma_entered_keeps(v: ConsoleView, argv: Seq<Seq<char>>, silent: bool)
    ensures
        entered(v, argv, silent).registry == v.registry,
        entered(v, argv, silent).options == v.options,
        entered(v, argv, silent).colors == v.colors,
        entered(v, argv, silent).matches == v.matches,
        entered(v, argv, silent).silent == silent,
        v.output.is_prefix_of(entered(v, argv, silent).output),
        silent ==> entered(v, argv, silent).history == v.history,
        !silent ==> entered(v, argv, silent).history == pushed(v.history, join_on(argv, " "@)),
{
    if !silent {
        let history = pushed(v.history, join_on(argv, " "@));
        let w = ConsoleView {
            silent: false,
            history: history,
            history_dirty: true,
            cursor_lines: history,
            cursor: -1,
            ..v
        };
        lemma_print_extends_output(w, echo_line(v.colors.output_command@, argv), false);
    } else {
        assert(v.output =~= v.output.subrange(0, v.output.len() as int));
    }
}

/// A suggestion keeps the registry and the history, and only adds to what is
/// printed.
pub proof fn lemma_similar_suggested_keeps(v: ConsoleView, argv: Seq<Seq<char>>)
    ensures
        similar_suggested(v, argv).registry == v.registry,
        similar_suggested(v, argv).history == v.history,
        similar_suggested(v, argv).silent == v.silent,
        v.output.is_prefix_of(similar_suggested(v, argv).output),
{
    assert(v.output =~= v.output.subrange(0, v.output.len() as int));
    if !(v.silent || argv.len() == 0) {
        match closest_match(
            argv[0],
            sort_of(v.registry.listed_names(true)),
            SUGGESTION_DISTANCE as int,
        ) {
            None => {},
            Some(hit) => {
                lemma_print_extends_output(
                    v,
                    tip(
                        v.colors.output_debug@,
                        "Did you mean "@ + colored(v.colors.output_command_mention@, hit)
                            + "? ([b]TAB[/b] to fill)"@,
                    ),
                    false,
                );
            },
        }
    }
}

/// The preparation of a line changes neither the commands, the aliases nor the
/// sources, and takes nothing back that was printed. A line that is not silent and
/// is taken up is the latest of the history afterwards; a silent line leaves the
/// history as it is.
pub proof fn lemma_prepare_keeps(v: ConsoleView, line: Seq<char>, silent: bool)
    ensures
        prepare_view(v, line, silent).registry == v.registry,
        v.output.is_prefix_of(prepare_view(v, line, silent).output),
        silent ==> prepare_view(v, line, silent).history == v.history,
        prepare_view(v, line, silent).history == v.history || prepare_view(
            v,
            line,
            silent,
        ).history == pushed(v.history, join_on(tokenized(line), " "@)),
{
    let argv = tokenized(line);
    assert(v.output =~= v.output.subrange(0, v.output.len() as int));
    if !is_skipped(line) {
        let e = entered(v, argv, silent);
        lemma_entered_keeps(v, argv, silent);
        match v.registry.resolved(argv) {
            Err(_) => {
                let msg = error_line(
                    v.colors.output_error@,
                    "Max depth for alias reached. Loop in aliasing?"@,
                );
                lemma_print_extends_output(e, msg, e.options.print_to_stdout);
                lemma_prefix_transitive(v.output, e.output, say(e, msg).output);
            },
            Ok(resolved) => {
                if resolved.len() == 0 {
                } else if !v.registry.knows_command(resolved[0]) {
                    let msg = error_line(v.colors.output_error@, "Unknown command: "@ + resolved[0]);
                    let shown = show(e, msg);
                    lemma_print_extends_output(e, msg, false);
                    lemma_similar_suggested_keeps(shown, resolved);
                    lemma_prefix_transitive(v.output, e.output, shown.output);
                    lemma_prefix_transitive(
                        v.output,
                        shown.output,
                        similar_suggested(shown, resolved).output,
                    );
                } else {
                    let command = v.registry.command_named(resolved[0]);
                    match coerced_arguments(
                        resolved,
                        command.signature,
                        command.bound_args as int,
                    ) {
                        Ok(_) => {},
                        Err(err) => {
                            let msg = error_line(v.colors.output_error@, error_message(err));
                            lemma_print_extends_output(e, msg, e.options.print_to_stdout);
                            lemma_prefix_transitive(v.output, e.output, say(e, msg).output);
                        },
                    }
                }
            },
        }
    }
}

/// A beginning of a beginning is a beginning.
pub proof fn lemma_prefix_transitive<A>(a: Seq<A>, b: Seq<A>, c: Seq<A>)
    requires
        a.is_prefix_of(b),
        b.is_prefix_of(c),
    ensures
        a.is_prefix_of(c),
{
    assert(a =~= c.subrange(0, a.len() as int)) by {
        assert forall|i: int| 0 <= i < a.len() implies a[i] == c[i] by {
            assert(a[i] == b.subrange(0, a.len() as int)[i]);
            assert(b[i] == c.subrange(0, b.len() as int)[i]);
        }
    }
}

/// The end of a command changes neither the registry nor the history, takes
/// nothing back that was printed, and leaves printing switched on. So whatever a
/// command that ran inside the handler of another has printed and entered stands
/// before anything that the end of the outer command adds.
pub proof fn lemma_finish_keeps(
    v: ConsoleView,
    status: Option<i32>,
    argv: Seq<Seq<char>>,
    values: Seq<Option<Vec<String>>>,
)
    ensures
        finished(v, status, argv, values).registry == v.registry,
        finished(v, status, argv, values).history == v.history,
        !finished(v, status, argv, values).silent,
        v.output.is_prefix_of(finished(v, status, argv, values).output),
{
    assert(v.output =~= v.output.subrange(0, v.output.len() as int));
    let suggested = if status is Some && status->0 > 0 {
        corrections_suggested(v, argv, values)
    } else {
        v
    };
    if status is Some && status->0 > 0 && !(v.silent || argv.len() == 0) {
        let actual = actual_command(v, argv[0]);
        let c = corrected(v, actual, argv, values, argv.len() as int);
        if c.1 {
            lemma_print_extends_output(
                v,
                tip(
                    v.colors.output_debug@,
                    "Did you mean \""@ + colored(v.colors.output_command_mention@, actual) + " "@
                        + join_on(c.0.skip(1), " "@) + "\"? ([b]TAB[/b] to fill)"@,
                ),
                false,
            );
        }
    }
    if v.options.sparse_mode {
        lemma_print_extends_output(suggested, Seq::empty(), false);
        lemma_prefix_transitive(v.output, suggested.output, show(suggested, Seq::empty()).output);
    }
}

/// A command that runs inside the handler of another goes through its own
/// preparation and end on the state that the outer preparation left. Whatever the
/// inner command prints stands after the echo of the outer command and before
/// anything that the end of the outer command adds; the commands, aliases and
/// sources stay as they are; and the outer command ends with printing switched on.
pub proof fn lemma_nested_command(
    v: ConsoleView,
    outer: Seq<char>,
    inner: Seq<char>,
    inner_status: Option<i32>,
    inner_argv: Seq<Seq<char>>,
    outer_status: Option<i32>,
    outer_argv: Seq<Seq<char>>,
    values: Seq<Option<Vec<String>>>,
)
    ensures
        ({
            let prepared = prepare_view(v, outer, false);
            let inside = finished(prepare_view(prepared, inner, false), inner_status, inner_argv, values);
            let done = finished(inside, outer_status, outer_argv, values);
            &&& prepared.output.is_prefix_of(inside.output)
            &&& inside.output.is_prefix_of(done.output)
            &&& done.registry == v.registry
            &&& done.history == inside.history
            &&& !done.silent
        }),
{
    let prepared = prepare_view(v, outer, false);
    let inner_prepared = prepare_view(prepared, inner, false);
    let inside = finished(inner_prepared, inner_status, inner_argv, values);
    lemma_prepare_keeps(v, outer, false);
    lemma_prepare_keeps(prepared, inner, false);
    lemma_finish_keeps(inner_prepared, inner_status, inner_argv, values);
    lemma_finish_keeps(inside, outer_status, outer_argv, values);
    lemma_prefix_transitive(prepared.output, inner_prepared.output, inside.output);
}

} // verus!

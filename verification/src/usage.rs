//! The usage text of a command.

use vstd::prelude::*;
use crate::coercion::{type_label, variant_type_name, MethodInfo};
use crate::execution::{actual_command, source_values};
use crate::registry::{Command, Registry};
use crate::text::{
    chars_of, ends_with, join, join_on, join_range, string_of_range, uppercase, views,
};
use crate::tiny_console::{colored, colored_text, error_line, say, show, ConsoleView, TinyConsole};

verus! {

/// The number of parameters of `info` that must be given: those without a default.
pub open spec fn required_count(info: MethodInfo) -> int {
    if info.args@.len() >= info.default_count {
        info.args@.len() - info.default_count
    } else {
        0
    }
}

/// The number of parameters of `info` that are shown: those not yet bound.
pub open spec fn displayed_count(info: MethodInfo, bound_args: int) -> int {
    if info.args@.len() >= bound_args {
        info.args@.len() - bound_args
    } else {
        0
    }
}

/// The names of the first `n` parameters as the usage line shows them: each after a
/// space, and one that may be left out in escaped square brackets.
pub open spec fn usage_parameters(info: MethodInfo, n: int) -> Seq<char>
    decreases n,
{
    if n <= 0 {
        Seq::empty()
    } else if n - 1 < required_count(info) {
        usage_parameters(info, n - 1) + " "@ + info.args@[n - 1].name@
    } else {
        usage_parameters(info, n - 1) + " [lb]"@ + info.args@[n - 1].name@ + "[rb]"@
    }
}

/// The usage line of the command `actual` with signature `signature`.
pub open spec fn usage_line(actual: Seq<char>, signature: Option<MethodInfo>, bound_args: int) -> Seq<
    char,
> {
    match signature {
        Some(info) => "Usage: "@ + actual + usage_parameters(
            info,
            displayed_count(info, bound_args),
        ),
        None => "Usage: "@ + actual + " ???"@,
    }
}

/// The line that describes the parameter at position `i`: its name, its type, and
/// its default where it has one. The line ends `text`.
pub open spec fn with_argument_line(text: Seq<char>, info: MethodInfo, i: int) -> Seq<char> {
    let described = text + "  "@ + info.args@[i].name@ + ": "@ + type_label(
        info.args@[i].type_id,
    )@;
    let position = i - required_count(info);
    if 0 <= position < info.defaults@.len() {
        described + " = "@ + info.defaults@[position]@ + "\n"@
    } else {
        described + "\n"@
    }
}

/// The lines that describe the first `n` parameters.
pub open spec fn argument_lines(info: MethodInfo, n: int) -> Seq<char>
    decreases n,
{
    if n <= 0 {
        Seq::empty()
    } else {
        with_argument_line(argument_lines(info, n - 1), info, n - 1)
    }
}

/// The lines that list, for each of the first `n` parameters of the command
/// `actual` that has a source, the values that the source gave, where it gave any.
pub open spec fn value_lines(
    registry: Registry,
    actual: Seq<char>,
    info: MethodInfo,
    values: Seq<Option<Vec<String>>>,
    n: int,
) -> Seq<char>
    decreases n,
{
    if n <= 0 {
        Seq::empty()
    } else {
        let before = value_lines(registry, actual, info, values, n - 1);
        if registry.has_source(actual, n - 1) && source_values(values, n - 1) is Some
            && source_values(values, n - 1)->0.len() > 0 {
            before + " "@ + info.args@[n - 1].name@ + ": "@ + join_on(
                source_values(values, n - 1)->0,
                ", "@,
            ) + "\n"@
        } else {
            before
        }
    }
}

/// `s` without the line ends at its end.
pub open spec fn without_final_newlines(s: Seq<char>) -> Seq<char>
    decreases s.len(),
{
    if s.len() > 0 && s.last() == '\n' {
        without_final_newlines(s.drop_last())
    } else {
        s
    }
}

/// The sentence that begins with `capital` and goes on with `rest`: the two one
/// after the other, with a full stop at the end where there is none.
pub open spec fn sentence_from(capital: Seq<char>, rest: Seq<char>) -> Seq<char> {
    if "."@.is_suffix_of(capital + rest) {
        capital + rest
    } else {
        capital + rest + "."@
    }
}

/// The non-empty description `desc` as a sentence: with its first letter in upper
/// case, and with a full stop at its end.
pub open spec fn sentence(desc: Seq<char>) -> Seq<char> {
    sentence_from(uppercase(seq![desc[0]]), desc.skip(1))
}

/// The state `v` after the parameters of `command` are described: the lines that
/// describe them, under the heading `Arguments:`, and the values that the sources
/// gave, under the heading `Values:`. A heading without lines is left out.
pub open spec fn details_shown(
    v: ConsoleView,
    actual: Seq<char>,
    command: Command,
    values: Seq<Option<Vec<String>>>,
) -> ConsoleView {
    match command.signature {
        None => v,
        Some(info) => {
            let n = displayed_count(info, command.bound_args as int);
            let arguments = without_final_newlines(argument_lines(info, n));
            let candidates = without_final_newlines(
                value_lines(v.registry, actual, info, values, n),
            );
            let described = if arguments.len() > 0 {
                show(show(v, "Arguments:"@), arguments)
            } else {
                v
            };
            if candidates.len() > 0 {
                show(show(described, "Values:"@), candidates)
            } else {
                described
            }
        },
    }
}

/// The state `v` after the usage of `name` is shown, where `values[i]` holds what
/// the source for the parameter at position `i` gave. For an alias the command that
/// it stands for is named first, and described.
pub open spec fn usage_shown(v: ConsoleView, name: Seq<char>, values: Seq<Option<Vec<String>>>) -> ConsoleView {
    let introduced = if v.registry.knows_alias(name) {
        let target = v.registry.target_of(name);
        show(
            v,
            "Alias of: "@ + colored(v.colors.output_command_mention@, target[0]) + " "@ + join_on(
                target.skip(1),
                " "@,
            ),
        )
    } else {
        v
    };
    let actual = actual_command(v, name);
    if !v.registry.knows_command(actual) {
        say(introduced, error_line(v.colors.output_error@, "Command not found: "@ + actual))
    } else {
        let command = v.registry.command_named(actual);
        let headed = show(
            introduced,
            usage_line(actual, command.signature, command.bound_args as int),
        );
        let described = if command.description@.len() > 0 {
            show(headed, sentence(command.description@))
        } else {
            headed
        };
        details_shown(described, actual, command, values)
    }
}

/// `s` without the line ends at its end.
fn strip_final_newlines(s: &str) -> (r: String)
    ensures
        r@ == without_final_newlines(s@),
{
    let x = chars_of(s);
    let mut n: usize = x.len();
    assert(x@.take(x.len() as int) =~= x@);
    while n > 0 && x[n - 1] == '\n'
        invariant
            n <= x.len(),
            without_final_newlines(x@) == without_final_newlines(x@.take(n as int)),
        decreases n,
    {
        proof {
            let t = x@.take(n as int);
            assert(t.last() == x@[n - 1]);
            assert(t.drop_last() =~= x@.take(n - 1));
        }
        n -= 1;
    }
    proof {
        let t = x@.take(n as int);
        if n > 0 {
            assert(t.last() == x@[n - 1]);
        }
        assert(t =~= x@.subrange(0, n as int));
        assert(x@.take(x.len() as int) =~= x@);
    }
    string_of_range(&x, 0, n)
}

/// The sentence that begins with `capital` and goes on with `rest`.
pub fn sentence_with(capital: &str, rest: &str) -> (r: String)
    ensures
        r@ == sentence_from(capital@, rest@),
{
    let mut r = capital.to_owned();
    r.append(rest);
    if !ends_with(r.as_str(), ".") {
        r.append(".");
    }
    r
}

/// The non-empty description `desc` as a sentence.
pub fn sentence_of(desc: &str) -> (r: String)
    requires
        desc@.len() > 0,
    ensures
        r@ == sentence(desc@),
{
    let x = chars_of(desc);
    let mut first = String::new();
    first.push(x[0]);
    assert(first@ =~= seq![desc@[0]]);
    let capital = first.as_str().to_uppercase();
    let rest = string_of_range(&x, 1, x.len());
    assert(x@.subrange(1, x.len() as int) =~= desc@.skip(1));
    sentence_with(capital.as_str(), rest.as_str())
}

impl TinyConsole {
    /// The handles of the sources to ask before the usage of `name` is shown: at
    /// position `i` that of the source for the parameter at position `i` of the
    /// command that `name` stands for, if there is one.
    pub fn usage_sources(&self, name: &str) -> (r: Vec<Option<u64>>)
        requires
            self.well_formed(),
        ensures
            r.len() == 5,
            forall|i: int|
                0 <= i < 5 ==> #[trigger] r@[i] == (if self@.registry.has_source(
                    actual_command(self@, name@),
                    i,
                ) {
                    Some(self@.registry.source_of(actual_command(self@, name@), i))
                } else {
                    None
                }),
    {
        let actual = self.actual_name(name);
        let mut r: Vec<Option<u64>> = Vec::new();
        let mut i: usize = 0;
        while i < 5
            invariant
                i <= 5,
                r.len() == i,
                actual@ == actual_command(self@, name@),
                forall|k: int|
                    0 <= k < i ==> #[trigger] r@[k] == (if self@.registry.has_source(actual@, k) {
                        Some(self@.registry.source_of(actual@, k))
                    } else {
                        None
                    }),
            decreases 5 - i,
        {
            match self.registry.find_source(actual.as_str(), i) {
                Some(k) => {
                    r.push(Some(self.registry.sources[k].source));
                },
                None => {
                    r.push(None);
                },
            }
            i += 1;
        }
        r
    }

    /// The command that `name` stands for: the first argument of its target where
    /// it is an alias, else itself.
    pub fn actual_name(&self, name: &str) -> (r: String)
        requires
            self.well_formed(),
        ensures
            r@ == actual_command(self@, name@),
    {
        match self.registry.find_alias(name) {
            Some(i) => {
                assert(self.registry.alias_names()[i as int] == name@);
                assert(self.registry.aliases@[i as int].argv@.len() > 0);
                assert(views(self.registry.aliases@[i as int].argv@)[0]
                    == self.registry.aliases@[i as int].argv@[0]@);
                self.registry.aliases[i].argv[0].clone()
            },
            None => name.to_owned(),
        }
    }

    /// Shows the usage of the command or alias `command`: how it is called, what it
    /// does, and its parameters. `values[i]` holds what the source for the parameter
    /// at position `i` gave. Returns 1 where there is no such command, else 0.
    pub fn usage(&mut self, command: &str, values: &Vec<Option<Vec<String>>>) -> (r: i32)
        requires
            old(self).well_formed(),
        ensures
            final(self).well_formed(),
            final(self)@ == usage_shown(old(self)@, command@, values@),
            r == (if old(self)@.registry.knows_command(actual_command(old(self)@, command@)) {
                0i32
            } else {
                1i32
            }),
    {
        match self.registry.find_alias(command) {
            Some(i) => {
                assert(self.registry.alias_names()[i as int] == command@);
                assert(self.registry.aliases@[i as int].argv@.len() > 0);
                let target = &self.registry.aliases[i].argv;
                assert(views(target@)[0] == target@[0]@);
                let name = colored_text(
                    self.colors.output_command_mention.as_str(),
                    target[0].as_str(),
                );
                let rest = join_range(target, 1, target.len(), " ");
                assert(views(target@).subrange(1, target.len() as int) =~= views(target@).skip(1));
                let mut msg = "Alias of: ".to_owned();
                msg.append(name.as_str());
                msg.append(" ");
                msg.append(rest.as_str());
                self.print_line_internal(msg.as_str(), false);
            },
            None => {},
        }
        let actual = self.actual_name(command);
        let i = match self.registry.find_command(actual.as_str()) {
            Some(i) => i,
            None => {
                let mut msg = "Command not found: ".to_owned();
                msg.append(actual.as_str());
                self.error(msg.as_str());
                return 1;
            },
        };
        let ghost v = old(self)@;
        let ghost command_record = self.registry.commands@[i as int];
        let mut usage_text = "Usage: ".to_owned();
        usage_text.append(actual.as_str());
        let mut argument_text = String::new();
        let mut value_text = String::new();
        match &self.registry.commands[i].signature {
            Some(info) => {
                let bound_args = self.registry.commands[i].bound_args;
                let required: usize = if info.args.len() >= info.default_count {
                    info.args.len() - info.default_count
                } else {
                    0
                };
                let displayed: usize = if info.args.len() >= bound_args {
                    info.args.len() - bound_args
                } else {
                    0
                };
                let mut k: usize = 0;
                let mut parameters = String::new();
                while k < displayed
                    invariant
                        k <= displayed <= info.args.len(),
                        required == required_count(*info),
                        self.registry == v.registry,
                        self.well_formed(),
                        parameters@ == usage_parameters(*info, k as int),
                        argument_text@ == argument_lines(*info, k as int),
                        value_text@ == value_lines(v.registry, actual@, *info, values@, k as int),
                    decreases displayed - k,
                {
                    let name = info.args[k].name.as_str();
                    if k < required {
                        parameters.append(" ");
                        parameters.append(name);
                    } else {
                        parameters.append(" [lb]");
                        parameters.append(name);
                        parameters.append("[rb]");
                    }
                    argument_text.append("  ");
                    argument_text.append(name);
                    argument_text.append(": ");
                    argument_text.append(variant_type_name(info.args[k].type_id));
                    if k >= required && k - required < info.defaults.len() {
                        argument_text.append(" = ");
                        argument_text.append(info.defaults[k - required].as_str());
                    }
                    argument_text.append("\n");
                    let has_source = k <= 4 && self.registry.find_source(
                        actual.as_str(),
                        k,
                    ).is_some();
                    proof {
                        if k > 4 && self.registry.has_source(actual@, k as int) {
                            let keys = crate::registry::keys_of_sources(self.registry.sources@);
                            let j = choose|j: int|
                                0 <= j < keys.len() && keys[j] == (actual@, k as int);
                            assert(self.registry.sources@[j].argument <= 4);
                        }
                    }
                    if has_source && k < values.len() {
                        match &values[k] {
                            Some(candidates) => {
                                if candidates.len() > 0 {
                                    value_text.append(" ");
                                    value_text.append(name);
                                    value_text.append(": ");
                                    let listed = join(candidates, ", ");
                                    value_text.append(listed.as_str());
                                    value_text.append("\n");
                                }
                            },
                            None => {},
                        }
                    }
                    k += 1;
                }
                usage_text.append(parameters.as_str());
            },
            None => {
                usage_text.append(" ???");
            },
        }
        let description = self.registry.commands[i].description.clone();
        self.print_line_internal(usage_text.as_str(), false);
        if !description.as_str().is_empty() {
            let text = sentence_of(description.as_str());
            self.print_line_internal(text.as_str(), false);
        }
        let arguments = strip_final_newlines(argument_text.as_str());
        if !arguments.as_str().is_empty() {
            self.print_line_internal("Arguments:", false);
            self.print_line_internal(arguments.as_str(), false);
        }
        let candidates = strip_final_newlines(value_text.as_str());
        if !candidates.as_str().is_empty() {
            self.print_line_internal("Values:", false);
            self.print_line_internal(candidates.as_str(), false);
        }
        0
    }

    /// Ends a command whose arguments were rejected: shows the usage of `command`
    /// and switches printing on again.
    pub fn finish_rejected(&mut self, command: &str, values: &Vec<Option<Vec<String>>>)
        requires
            old(self).well_formed(),
        ensures
            final(self).well_formed(),
            final(self)@ == (ConsoleView {
                silent: false,
                ..usage_shown(old(self)@, command@, values@)
            }),
    {
        let _ = self.usage(command, values);
        self.silent = false;
    }
}

} // verus!

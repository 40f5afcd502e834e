//! The commands, aliases and autocomplete sources that the console knows, and the
//! resolution of a typed line against them.

use vstd::prelude::*;
use crate::coercion::MethodInfo;
use crate::text::{
    chars_of, clone_strings, concat_strings, first_index_of, lemma_first_index_bounds, lemma_first_index_is, lemma_no_duplicates_push,
    lemma_no_duplicates_remove, lemma_views_push, sort_of, sort_strings, str_eq, string_of_range,
    views,
};
use crate::util::{is_command_sequence, is_valid_command_sequence};

verus! {

/// The most words that a command name is looked for in at the start of a line.
pub const MAX_SUBCOMMANDS: usize = 4;

/// The most aliases that are replaced in the resolution of one line; a line that
/// asks for more is given up as a loop of aliases.
pub const MAX_ALIAS_DEPTH: usize = 1000;

/// The highest argument position that an autocomplete source can be set for.
pub const MAX_SOURCE_ARGUMENT: usize = 4;

/// A registered command: its name, the handle of its handler, the handler's declared
/// signature if it has one, how many of the handler's parameters are already bound,
/// and its description.
pub struct Command {
    pub name: String,
    pub handler: u64,
    pub signature: Option<MethodInfo>,
    pub bound_args: usize,
    pub description: String,
}

/// An alias: its name and the arguments that stand in for it.
pub struct Alias {
    pub name: String,
    pub argv: Vec<String>,
}

/// The provider of candidate values for the argument at position `argument` of
/// `command`, as a handle.
pub struct AutocompleteSource {
    pub command: String,
    pub argument: usize,
    pub source: u64,
}

/// How a registration ended.
#[derive(Clone, Copy, PartialEq, Eq, Structural, Debug)]
pub enum RegisterOutcome {
    /// The command was added.
    Registered,
    /// No name was given and the handler has none.
    MissingName,
    /// The name is not a sequence of identifiers separated by single spaces.
    InvalidName,
    /// The command is switched off outside development builds.
    Disabled,
    /// A command or an alias has the name already.
    AlreadyRegistered,
}

/// How the setting of an alias ended.
#[derive(Clone, Copy, PartialEq, Eq, Structural, Debug)]
pub enum AliasOutcome {
    /// The alias was added, or given a new target.
    Added,
    /// The name is not a sequence of identifiers separated by single spaces.
    InvalidName,
    /// A command has the name already.
    NameIsCommand,
    /// The target has no arguments.
    MissingTarget,
}

/// How the setting of an autocomplete source ended.
#[derive(Clone, Copy, PartialEq, Eq, Structural, Debug)]
pub enum SourceOutcome {
    /// The source was set.
    Added,
    /// The provider is not valid.
    InvalidSource,
    /// No command has that name.
    UnknownCommand,
    /// The argument position is outside 0 to 4.
    ArgumentOutOfBounds,
}

/// The names of a list of commands.
pub open spec fn names_of_commands(cs: Seq<Command>) -> Seq<Seq<char>> {
    Seq::new(cs.len(), |i: int| cs[i].name@)
}

/// The names of a list of aliases.
pub open spec fn names_of_aliases(als: Seq<Alias>) -> Seq<Seq<char>> {
    Seq::new(als.len(), |i: int| als[i].name@)
}

/// The name and the target of each of a list of aliases.
pub open spec fn table_of_aliases(als: Seq<Alias>) -> Seq<(Seq<char>, Seq<Seq<char>>)> {
    Seq::new(als.len(), |i: int| (als[i].name@, views(als[i].argv@)))
}

/// The alias table `table` after `name` is set to stand for `target`: an alias of
/// that name gets the new target and keeps its place; otherwise the alias is added
/// after the others.
pub open spec fn table_with(
    table: Seq<(Seq<char>, Seq<Seq<char>>)>,
    name: Seq<char>,
    target: Seq<Seq<char>>,
) -> Seq<(Seq<char>, Seq<Seq<char>>)> {
    let i = first_index_of(table.map_values(|p: (Seq<char>, Seq<Seq<char>>)| p.0), name);
    if i < table.len() {
        table.update(i, (name, target))
    } else {
        table.push((name, target))
    }
}

/// The command and argument position of each of a list of sources.
pub open spec fn keys_of_sources(ss: Seq<AutocompleteSource>) -> Seq<(Seq<char>, int)> {
    Seq::new(ss.len(), |i: int| (ss[i].command@, ss[i].argument as int))
}

/// The command, the argument position and the handle of each of a list of sources.
pub open spec fn table_of_sources(ss: Seq<AutocompleteSource>) -> Seq<(Seq<char>, int, u64)> {
    Seq::new(ss.len(), |i: int| (ss[i].command@, ss[i].argument as int, ss[i].source))
}

/// The sources of `table` that do not belong to the command `name`, in their order.
pub open spec fn sources_without(table: Seq<(Seq<char>, int, u64)>, name: Seq<char>) -> Seq<
    (Seq<char>, int, u64),
>
    decreases table.len(),
{
    if table.len() == 0 {
        Seq::empty()
    } else if table.last().0 == name {
        sources_without(table.drop_last(), name)
    } else {
        sources_without(table.drop_last(), name).push(table.last())
    }
}

/// `s` without every leading occurrence of the non-empty `pat`.
pub open spec fn strip_leading(s: Seq<char>, pat: Seq<char>) -> Seq<char>
    decreases s.len(),
{
    if pat.len() > 0 && pat.is_prefix_of(s) {
        strip_leading(s.skip(pat.len() as int), pat)
    } else {
        s
    }
}

/// The command name that a handler's method name stands for: the name without its
/// leading underscores and, after them, without leading `cmd_`.
pub open spec fn name_from_method(method: Seq<char>) -> Seq<char> {
    strip_leading(strip_leading(method, "_"@), "cmd_"@)
}

/// The characters of `x` from position `from` on, without every leading occurrence
/// of `pat`.
fn skip_leading(x: &Vec<char>, from: usize, pat: &Vec<char>) -> (i: usize)
    requires
        from <= x.len(),
        pat.len() > 0,
    ensures
        from <= i <= x.len(),
        x@.skip(i as int) == strip_leading(x@.skip(from as int), pat@),
    decreases x.len() - from,
{
    if pat.len() > x.len() - from {
        return from;
    }
    let mut k: usize = 0;
    while k < pat.len()
        invariant
            k <= pat.len() <= x.len() - from,
            forall|j: int| 0 <= j < k ==> x@[from + j] == pat@[j],
        decreases pat.len() - k,
    {
        if x[from + k] != pat[k] {
            assert(x@.skip(from as int).subrange(0, pat@.len() as int)[k as int] == x@[from + k]);
            return from;
        }
        k += 1;
    }
    proof {
        assert(pat@ =~= x@.skip(from as int).subrange(0, pat@.len() as int));
        assert(x@.skip(from as int).skip(pat@.len() as int) =~= x@.skip(from + pat@.len()));
    }
    skip_leading(x, from + pat.len(), pat)
}

/// `s` without every leading occurrence of `pattern`. An empty pattern takes
/// nothing away.
pub fn strip_leading_of(s: &str, pattern: &str) -> (r: String)
    ensures
        r@ == strip_leading(s@, pattern@),
{
    let x = chars_of(s);
    let p = chars_of(pattern);
    if p.len() == 0 {
        return s.to_owned();
    }
    let from = skip_leading(&x, 0, &p);
    proof {
        assert(x@.skip(0) =~= x@);
        assert(x@.subrange(from as int, x@.len() as int) =~= x@.skip(from as int));
    }
    string_of_range(&x, from, x.len())
}

/// The command name that the method name `method` stands for.
pub fn command_name_from_method(method: &str) -> (r: String)
    ensures
        r@ == name_from_method(method@),
{
    proof {
        reveal_strlit("_");
        reveal_strlit("cmd_");
    }
    let x = chars_of(method);
    let a = skip_leading(&x, 0, &chars_of("_"));
    let b = skip_leading(&x, a, &chars_of("cmd_"));
    proof {
        assert(x@.skip(0) =~= x@);
        assert(x@.subrange(b as int, x@.len() as int) =~= x@.skip(b as int));
    }
    string_of_range(&x, b, x.len())
}

/// The commands, aliases and autocomplete sources that the console knows.
pub struct Registry {
    pub commands: Vec<Command>,
    pub aliases: Vec<Alias>,
    pub sources: Vec<AutocompleteSource>,
}

impl Registry {
    /// The names of the commands, in the order of their registration.
    pub open spec fn command_names(&self) -> Seq<Seq<char>> {
        names_of_commands(self.commands@)
    }

    /// The names of the aliases, in the order in which they were first set.
    pub open spec fn alias_names(&self) -> Seq<Seq<char>> {
        names_of_aliases(self.aliases@)
    }

    /// Whether a command is called `name`.
    pub open spec fn knows_command(&self, name: Seq<char>) -> bool {
        self.command_names().contains(name)
    }

    /// Whether an alias is called `name`.
    pub open spec fn knows_alias(&self, name: Seq<char>) -> bool {
        self.alias_names().contains(name)
    }

    /// Whether a command or an alias is called `name`.
    pub open spec fn knows(&self, name: Seq<char>) -> bool {
        self.knows_command(name) || self.knows_alias(name)
    }

    /// The aliases with what they stand for, in the order in which they were first
    /// set.
    pub open spec fn alias_table(&self) -> Seq<(Seq<char>, Seq<Seq<char>>)> {
        table_of_aliases(self.aliases@)
    }

    /// The arguments that stand in for the alias `name`.
    pub open spec fn target_of(&self, name: Seq<char>) -> Seq<Seq<char>> {
        views(self.aliases@[first_index_of(self.alias_names(), name)].argv@)
    }

    /// The command called `name`.
    pub open spec fn command_named(&self, name: Seq<char>) -> Command {
        self.commands@[first_index_of(self.command_names(), name)]
    }

    /// Whether a source is set for the argument at position `argument` of `command`.
    pub open spec fn has_source(&self, command: Seq<char>, argument: int) -> bool {
        keys_of_sources(self.sources@).contains((command, argument))
    }

    /// The handle of the source set for the argument at position `argument` of
    /// `command`.
    pub open spec fn source_of(&self, command: Seq<char>, argument: int) -> u64 {
        self.sources@[first_index_of(keys_of_sources(self.sources@), (command, argument))].source
    }

    /// No two commands and no two aliases share a name, and no alias has the name of
    /// a command; every name is a sequence of identifiers; every alias has a target;
    /// every source belongs to a command and to an argument position from 0 to 4, and
    /// no two sources to the same.
    pub open spec fn well_formed(&self) -> bool {
        &&& self.command_names().no_duplicates()
        &&& self.alias_names().no_duplicates()
        &&& keys_of_sources(self.sources@).no_duplicates()
        &&& forall|i: int|
            0 <= i < self.commands@.len() ==> is_command_sequence(
                #[trigger] self.command_names()[i],
            ) && !self.knows_alias(self.command_names()[i])
        &&& forall|i: int|
            0 <= i < self.aliases@.len() ==> is_command_sequence(#[trigger] self.alias_names()[i])
                && self.aliases@[i].argv@.len() > 0
        &&& forall|i: int|
            0 <= i < self.sources@.len() ==> (#[trigger] self.sources@[i]).argument
                <= MAX_SOURCE_ARGUMENT && self.knows_command(self.sources@[i].command@)
    }

    /// A registry that knows nothing.
    pub fn new() -> (r: Self)
        ensures
            r.commands@.len() == 0,
            r.aliases@.len() == 0,
            r.sources@.len() == 0,
            r.well_formed(),
    {
        Registry { commands: Vec::new(), aliases: Vec::new(), sources: Vec::new() }
    }

    /// The position of the command called `name`.
    pub fn find_command(&self, name: &str) -> (r: Option<usize>)
        ensures
            r is Some == self.knows_command(name@),
            r is Some ==> r->0 < self.commands@.len() && r->0 == first_index_of(
                self.command_names(),
                name@,
            ) && self.commands@[r->0 as int].name@ == name@,
    {
        let ghost names = self.command_names();
        let mut i: usize = 0;
        while i < self.commands.len()
            invariant
                i <= self.commands.len(),
                names == self.command_names(),
                forall|k: int| 0 <= k < i ==> names[k] != name@,
            decreases self.commands.len() - i,
        {
            if str_eq(self.commands[i].name.as_str(), name) {
                proof {
                    assert(names[i as int] == name@);
                    lemma_first_index_is(names, name@, i as int);
                }
                return Some(i);
            }
            i += 1;
        }
        None
    }

    /// The position of the alias called `name`.
    pub fn find_alias(&self, name: &str) -> (r: Option<usize>)
        ensures
            r is Some == self.knows_alias(name@),
            r is Some ==> r->0 < self.aliases@.len() && r->0 == first_index_of(
                self.alias_names(),
                name@,
            ) && self.aliases@[r->0 as int].name@ == name@,
    {
        let ghost names = self.alias_names();
        let mut i: usize = 0;
        while i < self.aliases.len()
            invariant
                i <= self.aliases.len(),
                names == self.alias_names(),
                forall|k: int| 0 <= k < i ==> names[k] != name@,
            decreases self.aliases.len() - i,
        {
            if str_eq(self.aliases[i].name.as_str(), name) {
                proof {
                    assert(names[i as int] == name@);
                    lemma_first_index_is(names, name@, i as int);
                }
                return Some(i);
            }
            i += 1;
        }
        None
    }

    /// The position of the source set for the argument at position `argument` of
    /// `command`.
    pub fn find_source(&self, command: &str, argument: usize) -> (r: Option<usize>)
        ensures
            r is Some == self.has_source(command@, argument as int),
            r is Some ==> r->0 < self.sources@.len() && r->0 == first_index_of(
                keys_of_sources(self.sources@),
                (command@, argument as int),
            ),
    {
        let ghost keys = keys_of_sources(self.sources@);
        let mut i: usize = 0;
        while i < self.sources.len()
            invariant
                i <= self.sources.len(),
                keys == keys_of_sources(self.sources@),
                forall|k: int| 0 <= k < i ==> keys[k] != (command@, argument as int),
            decreases self.sources.len() - i,
        {
            if self.sources[i].argument == argument && str_eq(
                self.sources[i].command.as_str(),
                command,
            ) {
                proof {
                    assert(keys[i as int] == (command@, argument as int));
                    lemma_first_index_is(keys, (command@, argument as int), i as int);
                }
                return Some(i);
            }
            i += 1;
        }
        None
    }

    /// Whether a command is called `name`.
    pub fn has_command(&self, name: &str) -> (r: bool)
        ensures
            r == self.knows_command(name@),
    {
        self.find_command(name).is_some()
    }

    /// Whether an alias is called `name`.
    pub fn has_alias(&self, name: &str) -> (r: bool)
        ensures
            r == self.knows_alias(name@),
    {
        self.find_alias(name).is_some()
    }

    /// Adds `command` under its name, unless the name is not a command name or is
    /// taken by a command or an alias.
    pub fn register(&mut self, command: Command) -> (r: RegisterOutcome)
        requires
            old(self).well_formed(),
        ensures
            final(self).well_formed(),
            final(self).aliases == old(self).aliases,
            final(self).sources == old(self).sources,
            r == (if !is_command_sequence(command.name@) {
                RegisterOutcome::InvalidName
            } else if old(self).knows(command.name@) {
                RegisterOutcome::AlreadyRegistered
            } else {
                RegisterOutcome::Registered
            }),
            r == RegisterOutcome::Registered ==> final(self).commands@ == old(self).commands@.push(command),
            r != RegisterOutcome::Registered ==> final(self).commands == old(self).commands,
    {
        if !is_valid_command_sequence(command.name.as_str()) {
            return RegisterOutcome::InvalidName;
        }
        if self.has_command(command.name.as_str()) || self.has_alias(command.name.as_str()) {
            return RegisterOutcome::AlreadyRegistered;
        }
        proof {
            let before = self.command_names();
            let after = names_of_commands(self.commands@.push(command));
            assert(after =~= before.push(command.name@));
            lemma_no_duplicates_push(before, command.name@);
            assert forall|i: int| 0 <= i < after.len() implies is_command_sequence(
                #[trigger] after[i],
            ) && !self.knows_alias(after[i]) by {
                if i < before.len() {
                    assert(after[i] == before[i]);
                }
            }
            assert forall|i: int| 0 <= i < self.sources@.len() implies after.contains(
                (#[trigger] self.sources@[i]).command@,
            ) by {
                let c = self.sources@[i].command@;
                let k = choose|k: int| 0 <= k < before.len() && before[k] == c;
                assert(after[k] == c);
            }
        }
        self.commands.push(command);
        RegisterOutcome::Registered
    }

    /// Takes out the command called `name`, with the sources set for its arguments.
    /// Returns whether there was such a command.
    pub fn unregister(&mut self, name: &str) -> (r: bool)
        requires
            old(self).well_formed(),
        ensures
            final(self).well_formed(),
            final(self).aliases == old(self).aliases,
            r == old(self).knows_command(name@),
            !final(self).knows_command(name@),
            forall|other: Seq<char>|
                other != name@ ==> (#[trigger] final(self).knows_command(other) == old(self).knows_command(other)),
            forall|a: int| !(#[trigger] final(self).has_source(name@, a)),
            r ==> table_of_sources(final(self).sources@) == sources_without(
                table_of_sources(old(self).sources@),
                name@,
            ),
            !r ==> final(self).commands == old(self).commands && final(self).sources == old(self).sources,
            r ==> final(self).commands@ == old(self).commands@.remove(
                first_index_of(old(self).command_names(), name@),
            ),
    {
        let found = self.find_command(name);
        let i = match found {
            Some(i) => i,
            None => {
                proof {
                    assert forall|a: int| !(#[trigger] self.has_source(name@, a)) by {
                        if self.has_source(name@, a) {
                            let keys = keys_of_sources(self.sources@);
                            let k = choose|k: int| 0 <= k < keys.len() && keys[k] == (name@, a);
                            assert(self.knows_command(self.sources@[k].command@));
                        }
                    }
                }
                return false;
            },
        };
        let ghost before = self.command_names();
        proof {
            lemma_no_duplicates_remove(before, i as int);
            assert(names_of_commands(self.commands@.remove(i as int)) =~= before.remove(i as int));
        }
        self.commands.remove(i);
        let ghost names = self.command_names();
        let mut kept: Vec<AutocompleteSource> = Vec::new();
        let mut k: usize = 0;
        let ghost old_sources = self.sources@;
        proof {
            assert(table_of_sources(kept@) =~= sources_without(
                table_of_sources(old_sources).take(0),
                name@,
            ));
        }
        while k < self.sources.len()
            invariant
                k <= self.sources.len(),
                self.sources@ == old_sources,
                keys_of_sources(old_sources).no_duplicates(),
                table_of_sources(kept@) == sources_without(
                    table_of_sources(old_sources).take(k as int),
                    name@,
                ),
                forall|j: int|
                    0 <= j < kept@.len() ==> (#[trigger] kept@[j]).command@ != name@
                        && kept@[j].argument <= MAX_SOURCE_ARGUMENT && exists|m: int|
                        0 <= m < k && old_sources[m] == kept@[j],
                forall|a: int, b: int|
                    0 <= a < kept@.len() && 0 <= b < kept@.len() && a != b ==> keys_of_sources(
                        kept@,
                    )[a] != keys_of_sources(kept@)[b],
                forall|j: int|
                    0 <= j < old_sources.len() ==> (#[trigger] old_sources[j]).argument
                        <= MAX_SOURCE_ARGUMENT,
            decreases self.sources.len() - k,
        {
            proof {
                let t = table_of_sources(old_sources).take(k + 1);
                assert(t.drop_last() =~= table_of_sources(old_sources).take(k as int));
                assert(t.last() == (
                    old_sources[k as int].command@,
                    old_sources[k as int].argument as int,
                    old_sources[k as int].source,
                ));
            }
            if !str_eq(self.sources[k].command.as_str(), name) {
                let s = &self.sources[k];
                let copy = AutocompleteSource {
                    command: s.command.clone(),
                    argument: s.argument,
                    source: s.source,
                };
                proof {
                    let keys = keys_of_sources(old_sources);
                    let next = kept@.push(copy);
                    assert forall|a: int, b: int|
                        0 <= a < next.len() && 0 <= b < next.len() && a
                            != b implies keys_of_sources(next)[a] != keys_of_sources(next)[b] by {
                        if a < kept@.len() && b < kept@.len() {
                            assert(keys_of_sources(kept@)[a] != keys_of_sources(kept@)[b]);
                        } else {
                            let c = if a < kept@.len() {
                                a
                            } else {
                                b
                            };
                            let m = choose|m: int| 0 <= m < k && old_sources[m] == kept@[c];
                            assert(keys[m] != keys[k as int]);
                        }
                    }
                    assert forall|j: int| 0 <= j < next.len() implies (#[trigger] next[j]).command@
                        != name@ && next[j].argument <= MAX_SOURCE_ARGUMENT && exists|m: int|
                        0 <= m < k + 1 && old_sources[m] == next[j] by {
                        if j < kept@.len() {
                            let m = choose|m: int| 0 <= m < k && old_sources[m] == kept@[j];
                            assert(0 <= m < k + 1 && old_sources[m] == next[j]);
                        } else {
                            assert(old_sources[k as int] == next[j]);
                        }
                    }
                }
                proof {
                    assert(table_of_sources(kept@.push(copy)) =~= table_of_sources(kept@).push(
                        (copy.command@, copy.argument as int, copy.source),
                    ));
                }
                kept.push(copy);
            }
            k += 1;
        }
        proof {
            assert(table_of_sources(old_sources).take(old_sources.len() as int)
                =~= table_of_sources(old_sources));
        }
        proof {
            let old_names = before;
            assert forall|j: int| 0 <= j < kept@.len() implies names.contains(
                (#[trigger] kept@[j]).command@,
            ) by {
                let m = choose|m: int| 0 <= m < old_sources.len() && old_sources[m] == kept@[j];
                assert(old(self).knows_command(old_sources[m].command@));
            }
            assert(keys_of_sources(kept@).no_duplicates());
            assert forall|a: int| !keys_of_sources(kept@).contains((name@, a)) by {
                if keys_of_sources(kept@).contains((name@, a)) {
                    let j = choose|j: int|
                        0 <= j < kept@.len() && keys_of_sources(kept@)[j] == (name@, a);
                    assert(kept@[j].command@ != name@);
                }
            }
            assert forall|i: int| 0 <= i < names.len() implies is_command_sequence(
                #[trigger] names[i],
            ) && !self.knows_alias(names[i]) by {
                let i2 = if i < first_index_of(old_names, name@) {
                    i
                } else {
                    i + 1
                };
                assert(names[i] == old_names[i2]);
            }
        }
        self.sources = kept;
        true
    }

    /// Sets the alias `alias` to stand for `argv`. An alias of that name gets the new
    /// target and keeps its place; otherwise the alias is added after the others.
    pub fn add_alias(&mut self, alias: &str, argv: Vec<String>) -> (r: AliasOutcome)
        requires
            old(self).well_formed(),
        ensures
            final(self).well_formed(),
            final(self).commands == old(self).commands,
            final(self).sources == old(self).sources,
            r == (if !is_command_sequence(alias@) {
                AliasOutcome::InvalidName
            } else if old(self).knows_command(alias@) {
                AliasOutcome::NameIsCommand
            } else if argv@.len() == 0 {
                AliasOutcome::MissingTarget
            } else {
                AliasOutcome::Added
            }),
            r != AliasOutcome::Added ==> final(self).aliases == old(self).aliases,
            r == AliasOutcome::Added ==> {
                &&& final(self).alias_table() == table_with(
                    old(self).alias_table(),
                    alias@,
                    views(argv@),
                )
                &&& final(self).knows_alias(alias@)
                &&& final(self).target_of(alias@) == views(argv@)
                &&& final(self).alias_names() == (if old(self).knows_alias(alias@) {
                    old(self).alias_names()
                } else {
                    old(self).alias_names().push(alias@)
                })
                &&& forall|i: int|
                    0 <= i < old(self).aliases@.len() && old(self).alias_names()[i] != alias@
                        ==> final(self).aliases@[i] == old(self).aliases@[i]
            },
    {
        if !is_valid_command_sequence(alias) {
            return AliasOutcome::InvalidName;
        }
        if self.has_command(alias) {
            return AliasOutcome::NameIsCommand;
        }
        if argv.len() == 0 {
            return AliasOutcome::MissingTarget;
        }
        let ghost before = self.alias_names();
        let ghost target = views(argv@);
        let record = Alias { name: alias.to_owned(), argv };
        let ghost table = self.alias_table();
        proof {
            assert(table.map_values(|p: (Seq<char>, Seq<Seq<char>>)| p.0) =~= before);
        }
        match self.find_alias(alias) {
            Some(i) => {
                proof {
                    assert(names_of_aliases(self.aliases@.update(i as int, record)) =~= before);
                    assert(table_of_aliases(self.aliases@.update(i as int, record))
                        =~= table.update(i as int, (alias@, target)));
                }
                self.aliases.set(i, record);
            },
            None => {
                proof {
                    let after = names_of_aliases(self.aliases@.push(record));
                    assert(after =~= before.push(alias@));
                    lemma_first_index_bounds(before, alias@);
                    if first_index_of(before, alias@) < before.len() {
                        assert(before.contains(alias@));
                    }
                    assert(table_of_aliases(self.aliases@.push(record)) =~= table.push(
                        (alias@, target),
                    ));
                    lemma_no_duplicates_push(before, alias@);
                    lemma_first_index_is(after, alias@, before.len() as int);
                    assert forall|i: int| 0 <= i < self.commands@.len() implies !after.contains(
                        #[trigger] self.command_names()[i],
                    ) by {
                        let c = self.command_names()[i];
                        if after.contains(c) {
                            let k = choose|k: int| 0 <= k < after.len() && after[k] == c;
                            if k < before.len() {
                                assert(before[k] == c);
                            } else {
                                assert(self.command_names().contains(alias@));
                            }
                        }
                    }
                }
                self.aliases.push(record);
            },
        }
        proof {
            let after = self.alias_names();
            assert forall|i: int| 0 <= i < self.aliases@.len() implies is_command_sequence(
                #[trigger] after[i],
            ) && self.aliases@[i].argv@.len() > 0 by {
                if i < before.len() && before[i] != alias@ {
                    assert(after[i] == before[i]);
                }
            }
            assert(after.contains(alias@)) by {
                let k = first_index_of(after, alias@);
                lemma_first_index_bounds(after, alias@);
                if old(self).knows_alias(alias@) {
                    lemma_first_index_bounds(before, alias@);
                    assert(after[first_index_of(before, alias@)] == alias@);
                } else {
                    assert(after[before.len() as int] == alias@);
                }
            }
        }
        AliasOutcome::Added
    }

    /// Takes out the alias called `name`. Returns whether there was one.
    pub fn remove_alias(&mut self, name: &str) -> (r: bool)
        requires
            old(self).well_formed(),
        ensures
            final(self).well_formed(),
            final(self).commands == old(self).commands,
            final(self).sources == old(self).sources,
            r == old(self).knows_alias(name@),
            !final(self).knows_alias(name@),
            !r ==> final(self).aliases == old(self).aliases,
            r ==> final(self).aliases@ == old(self).aliases@.remove(
                first_index_of(old(self).alias_names(), name@),
            ),
    {
        match self.find_alias(name) {
            Some(i) => {
                let ghost before = self.alias_names();
                proof {
                    lemma_no_duplicates_remove(before, i as int);
                    let after = names_of_aliases(self.aliases@.remove(i as int));
                    assert(after =~= before.remove(i as int));
                    assert forall|k: int| 0 <= k < after.len() implies is_command_sequence(
                        #[trigger] after[k],
                    ) && self.aliases@.remove(i as int)[k].argv@.len() > 0 by {
                        let k2 = if k < i {
                            k
                        } else {
                            k + 1
                        };
                        assert(after[k] == before[k2]);
                    }
                    assert forall|c: int| 0 <= c < self.commands@.len() implies !after.contains(
                        #[trigger] self.command_names()[c],
                    ) by {
                        let name_c = self.command_names()[c];
                        assert(!before.contains(name_c));
                    }
                }
                self.aliases.remove(i);
                true
            },
            None => false,
        }
    }

    /// The names of the aliases, in the order in which they were first set.
    pub fn get_aliases(&self) -> (r: Vec<String>)
        ensures
            views(r@) == self.alias_names(),
    {
        let mut r: Vec<String> = Vec::new();
        let mut i: usize = 0;
        while i < self.aliases.len()
            invariant
                i <= self.aliases.len(),
                views(r@) == self.alias_names().take(i as int),
            decreases self.aliases.len() - i,
        {
            proof {
                lemma_views_push(r@, self.aliases@[i as int].name);
                assert(self.alias_names().take(i as int).push(self.aliases@[i as int].name@)
                    =~= self.alias_names().take(i + 1));
            }
            r.push(self.aliases[i].name.clone());
            i += 1;
        }
        assert(self.alias_names().take(self.aliases@.len() as int) =~= self.alias_names());
        r
    }

    /// The names of the commands, in the order of their registration.
    pub fn command_name_list(&self) -> (r: Vec<String>)
        ensures
            views(r@) == self.command_names(),
    {
        let mut r: Vec<String> = Vec::new();
        let mut i: usize = 0;
        while i < self.commands.len()
            invariant
                i <= self.commands.len(),
                views(r@) == self.command_names().take(i as int),
            decreases self.commands.len() - i,
        {
            proof {
                lemma_views_push(r@, self.commands@[i as int].name);
                assert(self.command_names().take(i as int).push(self.commands@[i as int].name@)
                    =~= self.command_names().take(i + 1));
            }
            r.push(self.commands[i].name.clone());
            i += 1;
        }
        assert(self.command_names().take(self.commands@.len() as int) =~= self.command_names());
        r
    }

    /// What the alias `alias` stands for; the name itself where there is no such
    /// alias.
    pub fn get_alias_argv(&self, alias: &str) -> (r: Vec<String>)
        ensures
            views(r@) == (if self.knows_alias(alias@) {
                self.target_of(alias@)
            } else {
                seq![alias@]
            }),
    {
        match self.find_alias(alias) {
            Some(i) => clone_strings(&self.aliases[i].argv),
            None => {
                let mut r: Vec<String> = Vec::new();
                let name = alias.to_owned();
                proof {
                    lemma_views_push(r@, name);
                    assert(views(r@).push(alias@) =~= seq![alias@]);
                }
                r.push(name);
                r
            },
        }
    }

    /// The names that `get_command_names` puts in order: those of the commands and,
    /// if asked for, those of the aliases.
    pub open spec fn listed_names(&self, include_aliases: bool) -> Seq<Seq<char>> {
        if include_aliases {
            self.command_names() + self.alias_names()
        } else {
            self.command_names()
        }
    }

    /// The names of the commands and, if asked for, of the aliases, in dictionary
    /// order.
    pub fn get_command_names(&self, include_aliases: bool) -> (r: Vec<String>)
        ensures
            views(r@) == sort_of(self.listed_names(include_aliases)),
    {
        let names = self.command_name_list();
        if include_aliases {
            let aliases = self.get_aliases();
            let all = concat_strings(&names, &aliases, 0);
            assert(views(aliases@).skip(0) =~= views(aliases@));
            sort_strings(&all)
        } else {
            sort_strings(&names)
        }
    }

    /// The description of the command called `name`; empty where there is no such
    /// command.
    pub fn get_command_description(&self, name: &str) -> (r: String)
        ensures
            r@ == (if self.knows_command(name@) {
                self.command_named(name@).description@
            } else {
                Seq::<char>::empty()
            }),
    {
        match self.find_command(name) {
            Some(i) => self.commands[i].description.clone(),
            None => String::new(),
        }
    }

    /// Sets the source of candidate values for the argument at position `argument` of
    /// `command`. `valid` says whether the provider behind the handle `source` can be
    /// called. A source set earlier for the same argument is replaced.
    pub fn add_source(&mut self, command: &str, argument: i32, source: u64, valid: bool) -> (r:
        SourceOutcome)
        requires
            old(self).well_formed(),
        ensures
            final(self).well_formed(),
            final(self).commands == old(self).commands,
            final(self).aliases == old(self).aliases,
            r == (if !valid {
                SourceOutcome::InvalidSource
            } else if !old(self).knows_command(command@) {
                SourceOutcome::UnknownCommand
            } else if argument < 0 || argument > MAX_SOURCE_ARGUMENT {
                SourceOutcome::ArgumentOutOfBounds
            } else {
                SourceOutcome::Added
            }),
            r != SourceOutcome::Added ==> final(self).sources == old(self).sources,
            r == SourceOutcome::Added ==> {
                &&& final(self).has_source(command@, argument as int)
                &&& final(self).source_of(command@, argument as int) == source
                &&& keys_of_sources(final(self).sources@) == (if old(self).has_source(
                    command@,
                    argument as int,
                ) {
                    keys_of_sources(old(self).sources@)
                } else {
                    keys_of_sources(old(self).sources@).push((command@, argument as int))
                })
                &&& forall|i: int|
                    0 <= i < old(self).sources@.len() && keys_of_sources(old(self).sources@)[i] != (
                        command@,
                        argument as int,
                    ) ==> final(self).sources@[i] == old(self).sources@[i]
            },
    {
        if !valid {
            return SourceOutcome::InvalidSource;
        }
        if !self.has_command(command) {
            return SourceOutcome::UnknownCommand;
        }
        if argument < 0 || argument > 4 {
            return SourceOutcome::ArgumentOutOfBounds;
        }
        let position = argument as usize;
        let ghost key = (command@, argument as int);
        let ghost before = keys_of_sources(self.sources@);
        let record = AutocompleteSource { command: command.to_owned(), argument: position, source };
        match self.find_source(command, position) {
            Some(i) => {
                proof {
                    lemma_first_index_bounds(before, key);
                    assert(keys_of_sources(self.sources@.update(i as int, record)) =~= before);
                }
                self.sources.set(i, record);
                proof {
                    let after = keys_of_sources(self.sources@);
                    assert(after == before);
                    assert(after[i as int] == key);
                }
            },
            None => {
                proof {
                    let after = keys_of_sources(self.sources@.push(record));
                    assert(after =~= before.push(key));
                    lemma_no_duplicates_push(before, key);
                    lemma_first_index_is(after, key, before.len() as int);
                    assert(after[before.len() as int] == key);
                }
                self.sources.push(record);
            },
        }
        SourceOutcome::Added
    }
}

} // verus!

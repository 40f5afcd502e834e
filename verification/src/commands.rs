//! Registration: commands with their handlers, aliases, and the sources of
//! candidate values for arguments.

use vstd::prelude::*;
use crate::coercion::MethodInfo;
use crate::registry::{
    command_name_from_method, name_from_method, table_with, AliasOutcome, Command,
    RegisterOutcome, SourceOutcome, MAX_SOURCE_ARGUMENT,
};
use crate::text::{contains_string, first_index_of, sort_of, views};
use crate::tiny_console::{ConsoleView, TinyConsole};
use crate::tokenizer::{parse_command_line, tokenized};
use crate::util::is_command_sequence;

verus! {

/// What the console is told of a handler: the handle by which the application knows
/// it, the name of its method, its declared signature if it has one, and how many
/// of its parameters are already bound.
#[derive(Debug, Clone, PartialEq, Eq)]
pub struct Handler {
    pub id: u64,
    pub method_name: String,
    pub signature: Option<MethodInfo>,
    pub bound_args: usize,
}

/// The name under which a command is registered: the name given or, where none is
/// given, the name taken from the handler's method.
pub open spec fn registration_name(name: Seq<char>, method: Seq<char>) -> Seq<char> {
    if name.len() == 0 {
        name_from_method(method)
    } else {
        name
    }
}

/// How the registration of a command ends.
pub open spec fn registration_outcome(
    v: ConsoleView,
    name: Seq<char>,
    method: Seq<char>,
    is_debug_build: bool,
) -> RegisterOutcome {
    let command = registration_name(name, method);
    if name.len() > 0 && !is_command_sequence(name) {
        RegisterOutcome::InvalidName
    } else if name.len() == 0 && method.len() == 0 {
        RegisterOutcome::MissingName
    } else if !is_debug_build && views(v.options.commands_disabled_in_release@).contains(command) {
        RegisterOutcome::Disabled
    } else if !is_command_sequence(command) {
        RegisterOutcome::InvalidName
    } else if v.registry.knows(command) {
        RegisterOutcome::AlreadyRegistered
    } else {
        RegisterOutcome::Registered
    }
}

/// The alias table `table` after the first `n` aliases of the settings are taken
/// in, where `commands` are the names of the commands. An alias is passed over where
/// a command has its name or no command has the name of its target.
pub open spec fn table_with_configured(
    commands: Seq<Seq<char>>,
    table: Seq<(Seq<char>, Seq<Seq<char>>)>,
    configured: Seq<crate::console_options::ConfiguredAlias>,
    n: int,
) -> Seq<(Seq<char>, Seq<Seq<char>>)>
    decreases n,
{
    if n <= 0 {
        table
    } else {
        let before = table_with_configured(commands, table, configured, n - 1);
        let alias = configured[n - 1].alias@;
        let target = configured[n - 1].target@;
        if !commands.contains(alias) && commands.contains(target) && is_command_sequence(alias)
            && tokenized(target).len() > 0 {
            table_with(before, alias, tokenized(target))
        } else {
            before
        }
    }
}

impl TinyConsole {
    /// Registers a command. `name` may be empty: the command is then called after
    /// the handler's method. Outside development builds the commands that the
    /// settings switch off are not registered.
    pub fn register_command(
        &mut self,
        handler: Handler,
        name: &str,
        desc: &str,
        is_debug_build: bool,
    ) -> (r: RegisterOutcome)
        requires
            old(self).well_formed(),
        ensures
            final(self).well_formed(),
            r == registration_outcome(old(self)@, name@, handler.method_name@, is_debug_build),
            final(self)@ == (ConsoleView { registry: final(self).registry, ..old(self)@ }),
            final(self).registry.aliases == old(self).registry.aliases,
            final(self).registry.sources == old(self).registry.sources,
            r != RegisterOutcome::Registered ==> final(self).registry.commands == old(self).registry.commands,
            r == RegisterOutcome::Registered ==> {
                let added = final(self).registry.commands@.last();
                &&& final(self).registry.commands@.len() == old(self).registry.commands@.len() + 1
                &&& final(self).registry.commands@.drop_last() == old(self).registry.commands@
                &&& added.name@ == registration_name(name@, handler.method_name@)
                &&& added.handler == handler.id
                &&& added.signature == handler.signature
                &&& added.bound_args == handler.bound_args
                &&& added.description@ == desc@
            },
    {
        if !name.is_empty() && !crate::util::is_valid_command_sequence(name) {
            return RegisterOutcome::InvalidName;
        }
        let command_name = if name.is_empty() {
            if handler.method_name.as_str().is_empty() {
                return RegisterOutcome::MissingName;
            }
            command_name_from_method(handler.method_name.as_str())
        } else {
            name.to_owned()
        };
        if !is_debug_build && contains_string(
            &self.options.commands_disabled_in_release,
            command_name.as_str(),
        ) {
            return RegisterOutcome::Disabled;
        }
        let command = Command {
            name: command_name,
            handler: handler.id,
            signature: handler.signature,
            bound_args: handler.bound_args,
            description: desc.to_owned(),
        };
        let ghost before = self.registry.commands@;
        let r = self.registry.register(command);
        proof {
            if r == RegisterOutcome::Registered {
                assert(self.registry.commands@.drop_last() =~= before);
            }
        }
        r
    }

    /// Takes out the command called `name`, with the sources set for its arguments.
    /// Returns whether there was such a command.
    pub fn unregister_command(&mut self, name: &str) -> (r: bool)
        requires
            old(self).well_formed(),
        ensures
            final(self).well_formed(),
            r == old(self)@.registry.knows_command(name@),
            final(self)@ == (ConsoleView { registry: final(self).registry, ..old(self)@ }),
            final(self).registry.aliases == old(self).registry.aliases,
            !final(self).registry.knows_command(name@),
            forall|a: int| !(#[trigger] final(self).registry.has_source(name@, a)),
            r ==> crate::registry::table_of_sources(final(self).registry.sources@)
                == crate::registry::sources_without(
                crate::registry::table_of_sources(old(self).registry.sources@),
                name@,
            ),
            !r ==> final(self).registry.commands == old(self).registry.commands && final(self).registry.sources == old(self).registry.sources,
            r ==> final(self).registry.commands@ == old(self).registry.commands@.remove(
                first_index_of(old(self).registry.command_names(), name@),
            ),
    {
        self.registry.unregister(name)
    }

    /// Whether a command is called `name`.
    pub fn has_command(&self, name: &str) -> (r: bool)
        ensures
            r == self@.registry.knows_command(name@),
    {
        self.registry.has_command(name)
    }

    /// Whether a command is called `name`.
    pub fn has_command_str(&self, name: &str) -> (r: bool)
        ensures
            r == self@.registry.knows_command(name@),
    {
        self.registry.has_command(name)
    }

    /// Whether an alias is called `name`.
    pub fn has_alias(&self, name: &str) -> (r: bool)
        ensures
            r == self@.registry.knows_alias(name@),
    {
        self.registry.has_alias(name)
    }

    /// Whether an alias is called `name`.
    pub fn has_alias_str(&self, name: &str) -> (r: bool)
        ensures
            r == self@.registry.knows_alias(name@),
    {
        self.registry.has_alias(name)
    }

    /// The names of the commands and, if asked for, of the aliases, in dictionary
    /// order.
    pub fn get_command_names(&self, include_aliases: bool) -> (r: Vec<String>)
        ensures
            views(r@) == sort_of(self@.registry.listed_names(include_aliases)),
    {
        self.registry.get_command_names(include_aliases)
    }

    /// The names of the commands and of the aliases, in dictionary order.
    pub fn get_all_command_names_with_aliases(&self) -> (r: Vec<String>)
        ensures
            views(r@) == sort_of(self@.registry.listed_names(true)),
    {
        self.registry.get_command_names(true)
    }

    /// The description of the command called `name`; empty where there is no such
    /// command.
    pub fn get_command_description(&self, name: &str) -> (r: String)
        ensures
            r@ == (if self@.registry.knows_command(name@) {
                self@.registry.command_named(name@).description@
            } else {
                Seq::<char>::empty()
            }),
    {
        self.registry.get_command_description(name)
    }

    /// Sets the alias `alias` to stand for the arguments of the line
    /// `command_to_run`.
    pub fn add_alias(&mut self, alias: &str, command_to_run: &str) -> (r: AliasOutcome)
        requires
            old(self).well_formed(),
        ensures
            final(self).well_formed(),
            final(self)@ == (ConsoleView { registry: final(self).registry, ..old(self)@ }),
            final(self).registry.commands == old(self).registry.commands,
            final(self).registry.sources == old(self).registry.sources,
            r == (if !is_command_sequence(alias@) {
                AliasOutcome::InvalidName
            } else if old(self).registry.knows_command(alias@) {
                AliasOutcome::NameIsCommand
            } else if tokenized(command_to_run@).len() == 0 {
                AliasOutcome::MissingTarget
            } else {
                AliasOutcome::Added
            }),
            r != AliasOutcome::Added ==> final(self).registry.aliases == old(self).registry.aliases,
            r == AliasOutcome::Added ==> final(self).registry.alias_table() == table_with(
                old(self).registry.alias_table(),
                alias@,
                tokenized(command_to_run@),
            ) && final(self).registry.knows_alias(alias@) && final(self).registry.target_of(
                alias@,
            ) == tokenized(command_to_run@),
    {
        let argv = parse_command_line(command_to_run);
        self.registry.add_alias(alias, argv)
    }

    /// Takes out the alias called `name`. Returns whether there was one.
    pub fn remove_alias(&mut self, name: &str) -> (r: bool)
        requires
            old(self).well_formed(),
        ensures
            final(self).well_formed(),
            final(self)@ == (ConsoleView { registry: final(self).registry, ..old(self)@ }),
            final(self).registry.commands == old(self).registry.commands,
            final(self).registry.sources == old(self).registry.sources,
            r == old(self).registry.knows_alias(name@),
            !final(self).registry.knows_alias(name@),
            !r ==> final(self).registry.aliases == old(self).registry.aliases,
            r ==> final(self).registry.aliases@ == old(self).registry.aliases@.remove(
                first_index_of(old(self).registry.alias_names(), name@),
            ),
    {
        self.registry.remove_alias(name)
    }

    /// The names of the aliases, in the order in which they were first set.
    pub fn get_aliases(&self) -> (r: Vec<String>)
        ensures
            views(r@) == self@.registry.alias_names(),
    {
        self.registry.get_aliases()
    }

    /// What the alias `alias` stands for; the name itself where there is no such
    /// alias.
    pub fn get_alias_argv(&self, alias: &str) -> (r: Vec<String>)
        ensures
            views(r@) == (if self@.registry.knows_alias(alias@) {
                self@.registry.target_of(alias@)
            } else {
                seq![alias@]
            }),
    {
        self.registry.get_alias_argv(alias)
    }

    /// Sets the source of candidate values for the argument at position `argument`
    /// of `command`. `valid` says whether the provider behind the handle `source`
    /// can be called.
    pub fn add_argument_autocomplete_source(
        &mut self,
        command: &str,
        argument: i32,
        source: u64,
        valid: bool,
    ) -> (r: SourceOutcome)
        requires
            old(self).well_formed(),
        ensures
            final(self).well_formed(),
            final(self)@ == (ConsoleView { registry: final(self).registry, ..old(self)@ }),
            final(self).registry.commands == old(self).registry.commands,
            final(self).registry.aliases == old(self).registry.aliases,
            r == (if !valid {
                SourceOutcome::InvalidSource
            } else if !old(self).registry.knows_command(command@) {
                SourceOutcome::UnknownCommand
            } else if argument < 0 || argument > MAX_SOURCE_ARGUMENT {
                SourceOutcome::ArgumentOutOfBounds
            } else {
                SourceOutcome::Added
            }),
            r != SourceOutcome::Added ==> final(self).registry.sources == old(self).registry.sources,
            r == SourceOutcome::Added ==> final(self).registry.has_source(
                command@,
                argument as int,
            ) && final(self).registry.source_of(command@, argument as int) == source,
    {
        self.registry.add_source(command, argument, source, valid)
    }

    /// Takes in the aliases of the settings, in order. An alias is passed over where
    /// a command has its name or no command has the name of its target.
    pub fn add_aliases_from_config(&mut self)
        requires
            old(self).well_formed(),
        ensures
            final(self).well_formed(),
            final(self)@ == (ConsoleView { registry: final(self).registry, ..old(self)@ }),
            final(self).registry.commands == old(self).registry.commands,
            final(self).registry.sources == old(self).registry.sources,
            final(self).registry.alias_table() == table_with_configured(
                old(self).registry.command_names(),
                old(self).registry.alias_table(),
                old(self).options.aliases@,
                old(self).options.aliases@.len() as int,
            ),
    {
        let mut i: usize = 0;
        while i < self.options.aliases.len()
            invariant
                i <= self.options.aliases.len(),
                self.well_formed(),
                self@ == (ConsoleView { registry: self.registry, ..old(self)@ }),
                self.registry.commands == old(self).registry.commands,
                self.registry.sources == old(self).registry.sources,
                self.registry.alias_table() == table_with_configured(
                    old(self).registry.command_names(),
                    old(self).registry.alias_table(),
                    old(self).options.aliases@,
                    i as int,
                ),
            decreases self.options.aliases.len() - i,
        {
            let alias = self.options.aliases[i].alias.clone();
            let target = self.options.aliases[i].target.clone();
            if !self.registry.has_command(alias.as_str()) && self.registry.has_command(
                target.as_str(),
            ) {
                let argv = parse_command_line(target.as_str());
                let r = self.registry.add_alias(alias.as_str(), argv);
            }
            i += 1;
        }
    }
}

} // verus!

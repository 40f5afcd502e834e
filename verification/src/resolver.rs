//! Resolution of the arguments of a line against the registry: words that together
//! name a command are joined, and aliases are replaced by what they stand for.

use vstd::prelude::*;
use crate::registry::{Registry, MAX_ALIAS_DEPTH, MAX_SUBCOMMANDS};
use crate::text::{
    clone_range, concat_strings, join_on, join_range, lemma_views_push, views,
};

verus! {

/// A line whose resolution was given up after the greatest number of steps: most
/// likely aliases that stand for each other. Holds the arguments not yet resolved.
#[derive(Debug, Clone, PartialEq, Eq)]
pub struct AliasLoop {
    pub remaining: Vec<String>,
}

impl Registry {
    /// The number of leading words of `argv` that together name a command or an
    /// alias, trying `n` words first and then fewer, down to two; 1 where none do.
    pub open spec fn joined_span(&self, argv: Seq<Seq<char>>, n: int) -> int
        decreases n,
    {
        if n < 2 {
            1
        } else if argv.len() >= n && self.knows(join_on(argv.take(n), " "@)) {
            n
        } else {
            self.joined_span(argv, n - 1)
        }
    }

    /// `argv` with its leading words joined into one argument, by single spaces,
    /// where two to four of them together name a command or an alias. The longest
    /// such name wins.
    pub open spec fn subcommands_joined(&self, argv: Seq<Seq<char>>) -> Seq<Seq<char>> {
        let n = self.joined_span(argv, MAX_SUBCOMMANDS as int);
        if n >= 2 {
            seq![join_on(argv.take(n), " "@)] + argv.skip(n)
        } else {
            argv
        }
    }

    /// The resolution of `argv`, where `done` holds the arguments resolved so far and
    /// `steps` counts the aliases replaced so far. Each turn joins the leading words
    /// into a command name where they make one, and takes the first argument: an
    /// alias is replaced by what it stands for, in front of the remaining arguments;
    /// anything else is resolved. Only the replacement of an alias counts as a step.
    /// Where an alias is to be replaced after `MAX_ALIAS_DEPTH` steps, the
    /// resolution fails, with the arguments that remain.
    pub open spec fn expansion(
        &self,
        argv: Seq<Seq<char>>,
        done: Seq<Seq<char>>,
        steps: int,
    ) -> Result<Seq<Seq<char>>, Seq<Seq<char>>>
        decreases MAX_ALIAS_DEPTH - steps, argv.len(),
        via Self::expansion_decreases
    {
        if argv.len() == 0 {
            Ok(done)
        } else {
            let joined = self.subcommands_joined(argv);
            if self.knows_alias(joined[0]) {
                if steps >= MAX_ALIAS_DEPTH {
                    Err(joined)
                } else {
                    self.expansion(self.target_of(joined[0]) + joined.skip(1), done, steps + 1)
                }
            } else {
                self.expansion(joined.skip(1), done.push(joined[0]), steps)
            }
        }
    }

    /// An argument that is not an alias leaves fewer arguments behind.
    #[via_fn]
    proof fn expansion_decreases(&self, argv: Seq<Seq<char>>, done: Seq<Seq<char>>, steps: int) {
        if argv.len() > 0 {
            self.lemma_joined_len(argv);
        }
    }

    /// The number of words joined is at least 1 and at most `n`; where it is more
    /// than 1, `argv` has as many words.
    pub proof fn lemma_joined_span(&self, argv: Seq<Seq<char>>, n: int)
        ensures
            1 <= self.joined_span(argv, n),
            n >= 1 ==> self.joined_span(argv, n) <= n,
            self.joined_span(argv, n) >= 2 ==> self.joined_span(argv, n) <= argv.len(),
        decreases n,
    {
        if n >= 2 && !(argv.len() >= n && self.knows(join_on(argv.take(n), " "@))) {
            self.lemma_joined_span(argv, n - 1);
        }
    }

    /// Joining the leading words leaves at least one argument and no more than there
    /// were.
    pub proof fn lemma_joined_len(&self, argv: Seq<Seq<char>>)
        requires
            argv.len() > 0,
        ensures
            1 <= self.subcommands_joined(argv).len() <= argv.len(),
    {
        self.lemma_joined_span(argv, MAX_SUBCOMMANDS as int);
    }

    /// The arguments `argv` with every alias replaced by what it stands for and
    /// every command name of several words joined into one argument.
    pub open spec fn expanded(&self, argv: Seq<Seq<char>>) -> Result<
        Seq<Seq<char>>,
        Seq<Seq<char>>,
    > {
        self.expansion(argv, Seq::empty(), 0)
    }

    /// The resolved line for `argv`: its expansion, with the leading words joined
    /// once more. The first argument of the result is the command to run.
    pub open spec fn resolved(&self, argv: Seq<Seq<char>>) -> Result<
        Seq<Seq<char>>,
        Seq<Seq<char>>,
    > {
        match self.expanded(argv) {
            Ok(e) => Ok(self.subcommands_joined(e)),
            Err(r) => Err(r),
        }
    }

    /// Joins the leading words of `argv` into one argument where two to four of them
    /// together name a command or an alias.
    pub fn join_subcommands(&self, argv: Vec<String>) -> (r: Vec<String>)
        ensures
            views(r@) == self.subcommands_joined(views(argv@)),
    {
        let mut n: usize = MAX_SUBCOMMANDS;
        while n >= 2
            invariant
                n <= MAX_SUBCOMMANDS,
                self.joined_span(views(argv@), MAX_SUBCOMMANDS as int) == self.joined_span(
                    views(argv@),
                    n as int,
                ),
            decreases n,
        {
            if argv.len() >= n {
                let name = join_range(&argv, 0, n, " ");
                assert(views(argv@).subrange(0, n as int) =~= views(argv@).take(n as int));
                if self.has_command(name.as_str()) || self.has_alias(name.as_str()) {
                    let mut head: Vec<String> = Vec::new();
                    proof {
                        lemma_views_push(head@, name);
                        assert(views(head@).push(name@) =~= seq![name@]);
                    }
                    head.push(name);
                    return concat_strings(&head, &argv, n);
                }
            }
            n -= 1;
        }
        argv
    }

    /// Replaces every alias in `argv` by what it stands for, and joins every command
    /// name of several words into one argument. Fails where more than
    /// `MAX_ALIAS_DEPTH` aliases would have to be replaced.
    #[verifier::loop_isolation(false)]
    pub fn expand_alias(&self, argv: Vec<String>) -> (r: Result<Vec<String>, AliasLoop>)
        ensures
            r is Ok == self.expanded(views(argv@)) is Ok,
            r is Ok ==> views(r->Ok_0@) == self.expanded(views(argv@))->Ok_0,
            r is Err ==> views(r->Err_0.remaining@) == self.expanded(views(argv@))->Err_0,
    {
        let ghost start = views(argv@);
        let mut argv = argv;
        let mut done: Vec<String> = Vec::new();
        let mut steps: usize = 0;
        assert(views(done@) =~= Seq::<Seq<char>>::empty());
        while argv.len() > 0
            invariant
                steps <= MAX_ALIAS_DEPTH,
                self.expanded(start) == self.expansion(views(argv@), views(done@), steps as int),
            decreases MAX_ALIAS_DEPTH - steps, argv.len(),
        {
            proof {
                self.lemma_joined_len(views(argv@));
            }
            let joined = self.join_subcommands(argv);
            assert(views(joined@)[0] == joined@[0]@);
            match self.find_alias(joined[0].as_str()) {
                Some(i) => {
                    if steps >= MAX_ALIAS_DEPTH {
                        return Err(AliasLoop { remaining: joined });
                    }
                    argv = concat_strings(&self.aliases[i].argv, &joined, 1);
                    steps += 1;
                },
                None => {
                    proof {
                        lemma_views_push(done@, joined@[0]);
                    }
                    done.push(joined[0].clone());
                    argv = clone_range(&joined, 1, joined.len());
                    assert(views(joined@).subrange(1, joined.len() as int) =~= views(
                        joined@,
                    ).skip(1));
                },
            }
        }
        Ok(done)
    }

    /// Resolves the arguments of a line: expands them and joins the leading words once
    /// more. The first argument of the result is the command to run.
    pub fn resolve(&self, argv: Vec<String>) -> (r: Result<Vec<String>, AliasLoop>)
        ensures
            r is Ok == self.resolved(views(argv@)) is Ok,
            r is Ok ==> views(r->Ok_0@) == self.resolved(views(argv@))->Ok_0,
            r is Err ==> views(r->Err_0.remaining@) == self.resolved(views(argv@))->Err_0,
    {
        match self.expand_alias(argv) {
            Ok(e) => Ok(self.join_subcommands(e)),
            Err(e) => Err(e),
        }
    }

    /// Whether every name of `names` is an alias that stands for one name of `names`
    /// alone: the aliases lead to each other and never to a command.
    pub open spec fn alias_circle(&self, names: Set<Seq<char>>) -> bool {
        forall|x: Seq<char>| #[trigger]
            names.contains(x) ==> self.knows_alias(x) && self.target_of(x).len() == 1
                && names.contains(self.target_of(x)[0])
    }

    /// A line of one name out of a circle of aliases stays such a line step after
    /// step, until the steps run out.
    proof fn lemma_alias_circle_steps(
        &self,
        names: Set<Seq<char>>,
        a: Seq<char>,
        done: Seq<Seq<char>>,
        steps: int,
    )
        requires
            self.alias_circle(names),
            names.contains(a),
            0 <= steps <= MAX_ALIAS_DEPTH,
        ensures
            self.expansion(seq![a], done, steps) is Err,
        decreases MAX_ALIAS_DEPTH - steps,
    {
        let argv = seq![a];
        assert(self.joined_span(argv, 1) == 1);
        assert(self.joined_span(argv, 2) == 1);
        assert(self.joined_span(argv, 3) == 1);
        assert(self.joined_span(argv, 4) == 1);
        assert(self.subcommands_joined(argv) == argv);
        if steps < MAX_ALIAS_DEPTH {
            let next = self.target_of(a)[0];
            assert(self.target_of(a) + argv.skip(1) =~= seq![next]);
            self.lemma_alias_circle_steps(names, next, done, steps + 1);
        }
    }

    /// Aliases that stand for each other in a circle, of whatever length, are never
    /// resolved: a line made of the name of any of them fails as a loop of aliases,
    /// after `MAX_ALIAS_DEPTH` steps.
    pub proof fn lemma_alias_circle_fails(&self, names: Set<Seq<char>>, a: Seq<char>)
        requires
            self.alias_circle(names),
            names.contains(a),
        ensures
            self.expanded(seq![a]) is Err,
            self.resolved(seq![a]) is Err,
    {
        self.lemma_alias_circle_steps(names, a, Seq::empty(), 0);
    }

    /// An alias that stands for itself is never resolved: a line made of its name
    /// fails as a loop of aliases.
    pub proof fn lemma_self_alias_fails(&self, a: Seq<char>)
        requires
            self.knows_alias(a),
            self.target_of(a) == seq![a],
        ensures
            self.resolved(seq![a]) is Err,
    {
        let names = set![a];
        self.lemma_alias_circle_fails(names, a);
    }

    /// Two aliases that stand for each other are never resolved: a line made of the
    /// name of either fails as a loop of aliases.
    pub proof fn lemma_alias_pair_fails(&self, a: Seq<char>, b: Seq<char>)
        requires
            self.knows_alias(a),
            self.knows_alias(b),
            self.target_of(a) == seq![b],
            self.target_of(b) == seq![a],
        ensures
            self.resolved(seq![a]) is Err,
            self.resolved(seq![b]) is Err,
    {
        let names = set![a, b];
        self.lemma_alias_circle_fails(names, a);
        self.lemma_alias_circle_fails(names, b);
    }

    /// Whether no command and no alias has a name of several words.
    pub open spec fn single_word_names(&self) -> bool {
        forall|name: Seq<char>| #[trigger] self.knows(name) ==> !name.contains(' ')
    }

    /// Whether every name of `names` is an alias whose target begins with a name of
    /// `names`, whatever arguments follow it: the aliases lead to each other and
    /// never to a command.
    pub open spec fn alias_loop(&self, names: Set<Seq<char>>) -> bool {
        forall|x: Seq<char>| #[trigger]
            names.contains(x) ==> self.knows_alias(x) && self.target_of(x).len() >= 1
                && names.contains(self.target_of(x)[0])
    }

    /// Two or more words joined by single spaces hold a space.
    pub proof fn lemma_joined_words_hold_space(parts: Seq<Seq<char>>)
        requires
            parts.len() >= 2,
        ensures
            join_on(parts, " "@).contains(' '),
    {
        reveal_strlit(" ");
        let before = join_on(parts.drop_last(), " "@);
        let all = join_on(parts, " "@);
        assert(all == before + " "@ + parts.last());
        assert(all[before.len() as int] == ' ');
    }

    /// Where no name has several words, no words are joined.
    pub proof fn lemma_nothing_joined(&self, argv: Seq<Seq<char>>, n: int)
        requires
            self.single_word_names(),
        ensures
            self.joined_span(argv, n) == 1,
        decreases n,
    {
        if n >= 2 {
            if argv.len() >= n {
                Self::lemma_joined_words_hold_space(argv.take(n));
            }
            self.lemma_nothing_joined(argv, n - 1);
        }
    }

    /// A line that begins with a name out of a loop of aliases begins with such a
    /// name step after step, until the steps run out.
    proof fn lemma_alias_loop_steps(
        &self,
        names: Set<Seq<char>>,
        argv: Seq<Seq<char>>,
        done: Seq<Seq<char>>,
        steps: int,
    )
        requires
            self.single_word_names(),
            self.alias_loop(names),
            argv.len() > 0,
            names.contains(argv[0]),
            0 <= steps <= MAX_ALIAS_DEPTH,
        ensures
            self.expansion(argv, done, steps) is Err,
        decreases MAX_ALIAS_DEPTH - steps,
    {
        self.lemma_nothing_joined(argv, MAX_SUBCOMMANDS as int);
        assert(self.subcommands_joined(argv) == argv);
        if steps < MAX_ALIAS_DEPTH {
            let next = self.target_of(argv[0]) + argv.skip(1);
            assert(next[0] == self.target_of(argv[0])[0]);
            self.lemma_alias_loop_steps(names, next, done, steps + 1);
        }
    }

    /// Aliases that lead to each other in a loop are never resolved, whatever
    /// arguments their targets carry and whatever follows on the line: where no name
    /// has several words, a line that begins with the name of any of them fails as a
    /// loop of aliases, and nothing of it is handed on as resolved.
    pub proof fn lemma_alias_loop_fails(&self, names: Set<Seq<char>>, argv: Seq<Seq<char>>)
        requires
            self.single_word_names(),
            self.alias_loop(names),
            argv.len() > 0,
            names.contains(argv[0]),
        ensures
            self.expanded(argv) is Err,
            self.resolved(argv) is Err,
    {
        self.lemma_alias_loop_steps(names, argv, Seq::empty(), 0);
    }

    /// A line without aliases is resolved whatever its length: the depth bound
    /// counts replaced aliases, not words.
    pub proof fn lemma_alias_free_line_resolves(
        &self,
        argv: Seq<Seq<char>>,
        done: Seq<Seq<char>>,
        steps: int,
    )
        requires
            self.aliases@.len() == 0,
        ensures
            self.expansion(argv, done, steps) is Ok,
        decreases argv.len(),
    {
        if argv.len() > 0 {
            self.lemma_joined_len(argv);
            let joined = self.subcommands_joined(argv);
            assert(!self.knows_alias(joined[0])) by {
                if self.knows_alias(joined[0]) {
                    let k = choose|k: int|
                        0 <= k < self.alias_names().len() && self.alias_names()[k] == joined[0];
                }
            }
            self.lemma_alias_free_line_resolves(joined.skip(1), done.push(joined[0]), steps);
        }
    }
}

} // verus!

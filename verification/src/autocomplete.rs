//! Completion of the line being typed: candidates from the names of commands, from
//! the sources of argument values, from command names of several words, and from
//! the history; and cycling through the candidates.

use vstd::prelude::*;
use crate::text::{
    chars_of, concat_strings, contains_char, contains_string, ends_with,
    join_on, join_range, lemma_first_index_bounds, lemma_views_push, sort_of, sort_strings,
    split, split_on, starts_with, str_eq, string_of_range, views,
};
use crate::tiny_console::{ConsoleView, TinyConsole};
use crate::tokenizer::{parse_command_line, tokenized};

verus! {

/// The arguments that completion works on for the typed line `text`: its expansion,
/// as far as it goes, with an empty last argument where the line ends in a space or
/// has no arguments.
pub open spec fn completion_argv(v: ConsoleView, text: Seq<char>) -> Seq<Seq<char>> {
    let expanded = match v.registry.expanded(tokenized(text)) {
        Ok(e) => e,
        Err(r) => r,
    };
    if " "@.is_suffix_of(text) || expanded.len() == 0 {
        expanded.push(Seq::empty())
    } else {
        expanded
    }
}

/// The first word of a name.
pub open spec fn first_word(name: Seq<char>) -> Seq<char> {
    split_on(name, ' ')[0]
}

/// The first words of the first `n` of `names` that begin with `typed`, each once,
/// in the order of the names.
pub open spec fn first_words(names: Seq<Seq<char>>, typed: Seq<char>, n: int) -> Seq<Seq<char>>
    decreases n,
{
    if n <= 0 {
        Seq::empty()
    } else {
        let before = first_words(names, typed, n - 1);
        let word = first_word(names[n - 1]);
        if typed.is_prefix_of(word) && !before.contains(word) {
            before.push(word)
        } else {
            before
        }
    }
}

/// The candidates for a first word that begins with `typed`: the first words of
/// the commands and aliases that begin so, each once, in dictionary order.
pub open spec fn first_input_candidates(v: ConsoleView, typed: Seq<char>) -> Seq<Seq<char>> {
    let names = sort_of(v.registry.listed_names(true));
    sort_of(first_words(names, typed, names.len() as int))
}

/// The lines made from the first `n` of `values` that begin with `typed`: the line
/// `text` with the value in place of its last `typed.len()` characters.
pub open spec fn value_candidates(
    text: Seq<char>,
    typed: Seq<char>,
    values: Seq<Seq<char>>,
    n: int,
) -> Seq<Seq<char>>
    decreases n,
{
    if n <= 0 {
        Seq::empty()
    } else {
        let before = value_candidates(text, typed, values, n - 1);
        if typed.is_prefix_of(values[n - 1]) {
            before.push(text.take(text.len() - typed.len()) + values[n - 1])
        } else {
            before
        }
    }
}

/// The candidates from the source for the argument being typed, the last of
/// `argv`: the values that the source gave and that begin with what is typed, each
/// put in the line `text`, in dictionary order. There are none where the command has
/// no source for the argument, the source gave no list, or the line is shorter than
/// the argument.
pub open spec fn argument_candidates(
    v: ConsoleView,
    text: Seq<char>,
    argv: Seq<Seq<char>>,
    values: Option<Seq<Seq<char>>>,
) -> Seq<Seq<char>> {
    if argv.len() >= 2 && v.registry.has_source(argv[0], argv.len() - 2) && values is Some
        && text.len() >= argv.last().len() {
        sort_of(value_candidates(text, argv.last(), values->0, values->0.len() as int))
    } else {
        Seq::empty()
    }
}

/// The number of leading words, up to `n`, that `a` and `b` have in common.
pub open spec fn common_words(a: Seq<Seq<char>>, b: Seq<Seq<char>>, n: int) -> int
    decreases n,
{
    if n <= 0 {
        0
    } else {
        let k = common_words(a, b, n - 1);
        if k == n - 1 && a[n - 1] == b[n - 1] {
            n
        } else {
            k
        }
    }
}

/// What the name `name` offers to a line typed as the words `typed`: the name up
/// to and with its first word that is not typed in full, where all words before
/// that one are typed, save perhaps the last, and that word begins with the last
/// typed word.
pub open spec fn subcommand_offer(name: Seq<char>, typed: Seq<Seq<char>>) -> Option<Seq<char>> {
    let words = split_on(name, ' ');
    let m = common_words(words, typed, typed.len() as int);
    if words.len() >= typed.len() && m >= typed.len() - 1 && m < words.len()
        && typed.last().is_prefix_of(words[m]) {
        Some(join_on(words.take(m + 1), " "@))
    } else {
        None
    }
}

/// What the first `n` of `names` offer to a line typed as the words `typed`, each
/// offer once, in the order of the names.
pub open spec fn subcommand_offers(names: Seq<Seq<char>>, typed: Seq<Seq<char>>, n: int) -> Seq<
    Seq<char>,
>
    decreases n,
{
    if n <= 0 {
        Seq::empty()
    } else {
        let before = subcommand_offers(names, typed, n - 1);
        match subcommand_offer(names[n - 1], typed) {
            Some(offer) => if before.contains(offer) {
                before
            } else {
                before.push(offer)
            },
            None => before,
        }
    }
}

/// The candidates from command names of several words for the typed line `text`,
/// in dictionary order.
pub open spec fn subcommand_candidates(v: ConsoleView, text: Seq<char>) -> Seq<Seq<char>> {
    let names = sort_of(v.registry.listed_names(true));
    sort_of(subcommand_offers(names, split_on(text, ' '), names.len() as int))
}

/// The lines among the latest `n` of the history `h` that begin with `text`, the
/// latest first.
pub open spec fn history_candidates(h: Seq<Seq<char>>, text: Seq<char>, n: int) -> Seq<Seq<char>>
    decreases n,
{
    if n <= 0 {
        Seq::empty()
    } else {
        let before = history_candidates(h, text, n - 1);
        if text.is_prefix_of(h[h.len() - n]) {
            before.push(h[h.len() - n])
        } else {
            before
        }
    }
}

/// The candidates for the typed line `text`, where `values` is what the source for
/// the argument being typed gave. While the first word is typed, they are the
/// first words of commands and aliases. After it, they are the candidates from the
/// source, then those from command names of several words, then those from the
/// history, which are left out if there are others and the settings say so.
pub open spec fn candidates(v: ConsoleView, text: Seq<char>, values: Option<Seq<Seq<char>>>) -> Seq<
    Seq<char>,
> {
    let argv = completion_argv(v, text);
    if argv.len() == 1 {
        if argv[0].len() > 0 && !argv[0].contains(' ') {
            first_input_candidates(v, argv[0])
        } else {
            Seq::empty()
        }
    } else {
        let others = argument_candidates(v, text, argv, values) + subcommand_candidates(v, text);
        if v.options.autocomplete_use_history_with_matches || others.len() == 0 {
            others + history_candidates(v.history, text, v.history.len() as int)
        } else {
            others
        }
    }
}

/// The state `v` after the completions are brought up to date for the typed line
/// `text`: candidates are looked for only where there are none and the line is not
/// empty.
pub open spec fn completions_updated(
    v: ConsoleView,
    text: Seq<char>,
    values: Option<Seq<Seq<char>>>,
) -> ConsoleView {
    if v.matches.len() == 0 && text.len() > 0 {
        ConsoleView { matches: candidates(v, text, values), ..v }
    } else {
        v
    }
}

/// The hint shown after the typed line `text`: what the first candidate has beyond
/// the line, where it begins with the line and is longer.
pub open spec fn hint(matches: Seq<Seq<char>>, text: Seq<char>) -> Seq<char> {
    if matches.len() > 0 && text.is_prefix_of(matches[0]) && matches[0].len() > text.len() {
        matches[0].skip(text.len() as int)
    } else {
        Seq::empty()
    }
}

/// The candidates `m` after a step on: the first candidate goes to the end.
pub open spec fn rotated_on(m: Seq<Seq<char>>) -> Seq<Seq<char>> {
    if m.len() == 0 {
        m
    } else {
        m.skip(1).push(m[0])
    }
}

/// The candidates `m` after a step back: the last candidate goes to the front.
pub open spec fn rotated_back(m: Seq<Seq<char>>) -> Seq<Seq<char>> {
    if m.len() == 0 {
        m
    } else {
        seq![m.last()] + m.drop_last()
    }
}

/// A step on and a step back undo each other, in either order.
pub proof fn lemma_rotations_undo(m: Seq<Seq<char>>)
    ensures
        rotated_back(rotated_on(m)) == m,
        rotated_on(rotated_back(m)) == m,
{
    assert(rotated_back(rotated_on(m)) =~= m);
    assert(rotated_on(rotated_back(m)) =~= m);
}

/// Cycling keeps the candidates and their order round the circle: after `n` steps
/// on, the candidate at position `i` is the one that stood `n` places further on.
pub open spec fn rotated_on_by(m: Seq<Seq<char>>, n: nat) -> Seq<Seq<char>>
    decreases n,
{
    if n == 0 {
        m
    } else {
        rotated_on(rotated_on_by(m, (n - 1) as nat))
    }
}

/// After `n` steps on, the candidate at position `i` is the one that stood `n`
/// places further on round the circle; so as many steps on as there are candidates
/// bring every candidate back to its place.
pub proof fn lemma_rotated_on_by(m: Seq<Seq<char>>, n: nat)
    requires
        m.len() > 0,
    ensures
        rotated_on_by(m, n).len() == m.len(),
        forall|i: int|
            0 <= i < m.len() ==> #[trigger] rotated_on_by(m, n)[i] == m[(i + n) % (
            m.len() as int)],
        n == m.len() ==> rotated_on_by(m, n) == m,
    decreases n,
{
    let len = m.len() as int;
    if n == 0 {
        assert forall|i: int| 0 <= i < len implies #[trigger] rotated_on_by(m, n)[i] == m[(i
            + n) % len] by {
            vstd::arithmetic::div_mod::lemma_small_mod(i as nat, len as nat);
        }
    } else {
        let before = rotated_on_by(m, (n - 1) as nat);
        lemma_rotated_on_by(m, (n - 1) as nat);
        let after = rotated_on(before);
        assert forall|i: int| 0 <= i < len implies #[trigger] after[i] == m[(i + n) % len] by {
            if i < len - 1 {
                assert(after[i] == before[i + 1]);
                assert((i + 1 + (n - 1)) % len == (i + n) % len);
            } else {
                assert(after[i] == before[0]);
                vstd::arithmetic::div_mod::lemma_mod_add_multiples_vanish(n - 1, len);
                assert((0 + (n - 1)) % len == (len + (n - 1)) % len);
                assert((i + n) == len + (n - 1));
            }
        }
    }
    if n == m.len() {
        let r = rotated_on_by(m, n);
        assert forall|i: int| 0 <= i < len implies #[trigger] r[i] == m[i] by {
            vstd::arithmetic::div_mod::lemma_mod_add_multiples_vanish(i, len);
            vstd::arithmetic::div_mod::lemma_small_mod(i as nat, len as nat);
            assert((i + n) % len == (len + i) % len);
        }
        assert(r =~= m);
    }
}

/// The view of `values`.
pub open spec fn given_values(values: Option<&Vec<String>>) -> Option<Seq<Seq<char>>> {
    match values {
        Some(v) => Some(views(v@)),
        None => None,
    }
}

/// Every text has at least one piece.
pub proof fn lemma_split_has_piece(s: Seq<char>, sep: char)
    ensures
        split_on(s, sep).len() >= 1,
    decreases s.len(),
{
    lemma_first_index_bounds(s, sep);
}

/// The strings of `v` that `seen` does not hold yet are added to it, in order.
fn push_new(seen: &mut Vec<String>, item: String)
    ensures
        views(final(seen)@) == (if views(old(seen)@).contains(item@) {
            views(old(seen)@)
        } else {
            views(old(seen)@).push(item@)
        }),
{
    if !contains_string(seen, item.as_str()) {
        proof {
            lemma_views_push(seen@, item);
        }
        seen.push(item);
    }
}

impl TinyConsole {
    /// The arguments that completion works on for the typed line `entry_text`.
    pub fn completion_arguments(&self, entry_text: &str) -> (argv: Vec<String>)
        ensures
            views(argv@) == completion_argv(self@, entry_text@),
            argv.len() >= 1,
    {
        let mut argv = match self.registry.expand_alias(parse_command_line(entry_text)) {
            Ok(e) => e,
            Err(l) => l.remaining,
        };
        if ends_with(entry_text, " ") || argv.len() == 0 {
            let empty = String::new();
            proof {
                lemma_views_push(argv@, empty);
            }
            argv.push(empty);
        }
        argv
    }

    /// The handle of the source to ask before the completions are brought up to
    /// date for the typed line `entry_text`: that for the argument being typed, if
    /// the command has one.
    pub fn completion_source(&self, entry_text: &str) -> (r: Option<u64>)
        requires
            self.well_formed(),
        ensures
            r == ({
                let argv = completion_argv(self@, entry_text@);
                if argv.len() >= 2 && self@.registry.has_source(argv[0], argv.len() - 2) {
                    Some(self@.registry.source_of(argv[0], argv.len() - 2))
                } else {
                    None
                }
            }),
    {
        let argv = self.completion_arguments(entry_text);
        assert(views(argv@)[0] == argv@[0]@);
        if argv.len() < 2 {
            return None;
        }
        let position = argv.len() - 2;
        proof {
            if position > 4 && self.registry.has_source(argv@[0]@, position as int) {
                let keys = crate::registry::keys_of_sources(self.registry.sources@);
                let j = choose|j: int|
                    0 <= j < keys.len() && keys[j] == (argv@[0]@, position as int);
                assert(self.registry.sources@[j].argument <= 4);
            }
        }
        if position > 4 {
            return None;
        }
        match self.registry.find_source(argv[0].as_str(), position) {
            Some(k) => Some(self.registry.sources[k].source),
            None => None,
        }
    }

    /// The candidates for a first word that begins with `command_name`.
    pub fn first_input_autocompletes(&self, command_name: &str) -> (r: Vec<String>)
        ensures
            views(r@) == first_input_candidates(self@, command_name@),
    {
        let names = self.registry.get_command_names(true);
        let mut found: Vec<String> = Vec::new();
        let mut i: usize = 0;
        assert(views(found@) =~= Seq::<Seq<char>>::empty());
        while i < names.len()
            invariant
                i <= names.len(),
                views(found@) == first_words(views(names@), command_name@, i as int),
            decreases names.len() - i,
        {
            let words = split(names[i].as_str(), ' ');
            proof {
                lemma_split_has_piece(names@[i as int]@, ' ');
                assert(views(names@)[i as int] == names@[i as int]@);
                assert(views(words@)[0] == words@[0]@);
            }
            if starts_with(words[0].as_str(), command_name) {
                push_new(&mut found, words[0].clone());
            }
            i += 1;
        }
        sort_strings(&found)
    }

    /// The candidates from the source for the argument being typed, the last of
    /// `argv`, where `values` is what the source gave.
    pub fn argument_autocompletes(
        &self,
        entry_text: &str,
        argv: &Vec<String>,
        values: Option<&Vec<String>>,
    ) -> (r: Vec<String>)
        requires
            self.well_formed(),
        ensures
            views(r@) == argument_candidates(
                self@,
                entry_text@,
                views(argv@),
                given_values(values),
            ),
    {
        let none: Vec<String> = Vec::new();
        assert(views(none@) =~= Seq::<Seq<char>>::empty());
        if argv.len() < 2 {
            return none;
        }
        let position = argv.len() - 2;
        let last = argv.len() - 1;
        proof {
            assert(views(argv@)[0] == argv@[0]@);
            assert(views(argv@).last() == argv@[last as int]@);
            if position > 4 && self.registry.has_source(argv@[0]@, position as int) {
                let keys = crate::registry::keys_of_sources(self.registry.sources@);
                let j = choose|j: int|
                    0 <= j < keys.len() && keys[j] == (argv@[0]@, position as int);
                assert(self.registry.sources@[j].argument <= 4);
            }
        }
        if position > 4 || self.registry.find_source(argv[0].as_str(), position).is_none() {
            return none;
        }
        let candidates = match values {
            Some(v) => v,
            None => {
                return none;
            },
        };
        let text = chars_of(entry_text);
        let typed = chars_of(argv[last].as_str());
        if text.len() < typed.len() {
            return none;
        }
        let head = string_of_range(&text, 0, text.len() - typed.len());
        assert(text@.subrange(0, text.len() - typed.len()) =~= text@.take(
            text.len() - typed.len(),
        ));
        let mut found: Vec<String> = Vec::new();
        let mut i: usize = 0;
        assert(views(found@) =~= Seq::<Seq<char>>::empty());
        while i < candidates.len()
            invariant
                i <= candidates.len(),
                head@ == entry_text@.take(entry_text@.len() - argv@[last as int]@.len()),
                last < argv.len(),
                views(found@) == value_candidates(
                    entry_text@,
                    argv@[last as int]@,
                    views(candidates@),
                    i as int,
                ),
            decreases candidates.len() - i,
        {
            assert(views(candidates@)[i as int] == candidates@[i as int]@);
            if starts_with(candidates[i].as_str(), argv[last].as_str()) {
                let mut line = head.clone();
                line.append(candidates[i].as_str());
                proof {
                    lemma_views_push(found@, line);
                }
                found.push(line);
            }
            i += 1;
        }
        sort_strings(&found)
    }

    /// The candidates from command names of several words for the typed line
    /// `typed_val`.
    pub fn subcommand_autocompletes(&self, typed_val: &str) -> (r: Vec<String>)
        ensures
            views(r@) == subcommand_candidates(self@, typed_val@),
    {
        let names = self.registry.get_command_names(true);
        let typed = split(typed_val, ' ');
        proof {
            lemma_split_has_piece(typed_val@, ' ');
        }
        let mut found: Vec<String> = Vec::new();
        let mut i: usize = 0;
        assert(views(found@) =~= Seq::<Seq<char>>::empty());
        while i < names.len()
            invariant
                i <= names.len(),
                typed.len() >= 1,
                views(typed@) == split_on(typed_val@, ' '),
                views(found@) == subcommand_offers(views(names@), views(typed@), i as int),
            decreases names.len() - i,
        {
            let words = split(names[i].as_str(), ' ');
            assert(views(names@)[i as int] == names@[i as int]@);
            if words.len() >= typed.len() {
                let mut m: usize = 0;
                let mut k: usize = 0;
                while k < typed.len()
                    invariant
                        k <= typed.len() <= words.len(),
                        m <= k,
                        m == common_words(views(words@), views(typed@), k as int),
                    decreases typed.len() - k,
                {
                    assert(views(words@)[k as int] == words@[k as int]@);
                    assert(views(typed@)[k as int] == typed@[k as int]@);
                    if m == k && str_eq(words[k].as_str(), typed[k].as_str()) {
                        m = k + 1;
                    }
                    k += 1;
                }
                if m >= typed.len() - 1 && m < words.len() {
                    assert(views(words@)[m as int] == words@[m as int]@);
                    assert(views(typed@).last() == typed@[typed.len() - 1]@);
                    if starts_with(words[m].as_str(), typed[typed.len() - 1].as_str()) {
                        let partial = join_range(&words, 0, m + 1, " ");
                        assert(views(words@).subrange(0, m + 1) =~= views(words@).take(m + 1));
                        push_new(&mut found, partial);
                    }
                }
            }
            i += 1;
        }
        sort_strings(&found)
    }

    /// The lines of the history that begin with `entry_text`, the latest first.
    pub fn history_autocompletes(&self, entry_text: &str) -> (r: Vec<String>)
        ensures
            views(r@) == history_candidates(self@.history, entry_text@, self@.history.len() as int),
    {
        let entries = self.history.entries();
        let n = entries.len();
        let mut found: Vec<String> = Vec::new();
        let mut k: usize = 0;
        assert(views(found@) =~= Seq::<Seq<char>>::empty());
        while k < n
            invariant
                k <= n,
                n == entries.len(),
                views(entries@) == self@.history,
                views(found@) == history_candidates(self@.history, entry_text@, k as int),
            decreases n - k,
        {
            k += 1;
            assert(views(entries@)[n - k] == entries@[n - k]@);
            if starts_with(entries[n - k].as_str(), entry_text) {
                proof {
                    lemma_views_push(found@, entries@[n - k]);
                }
                found.push(entries[n - k].clone());
            }
        }
        found
    }

    /// Brings the completions up to date for the typed line `entry_text`, where
    /// `values` is what the source for the argument being typed gave, and returns
    /// the hint to show after the line.
    pub fn update_autocomplete(&mut self, entry_text: &str, values: Option<&Vec<String>>) -> (r:
        String)
        requires
            old(self).well_formed(),
        ensures
            final(self).well_formed(),
            final(self)@ == completions_updated(old(self)@, entry_text@, given_values(values)),
            r@ == hint(final(self)@.matches, entry_text@),
    {
        if self.autocomplete_matches.len() == 0 && !entry_text.is_empty() {
            let argv = self.completion_arguments(entry_text);
            assert(views(argv@)[0] == argv@[0]@);
            if argv.len() == 1 {
                if !argv[0].as_str().is_empty() && !contains_char(argv[0].as_str(), ' ') {
                    self.autocomplete_matches = self.first_input_autocompletes(argv[0].as_str());
                } else {
                    assert(views(self.autocomplete_matches@) =~= Seq::<Seq<char>>::empty());
                }
            } else {
                let from_source = self.argument_autocompletes(entry_text, &argv, values);
                let from_names = self.subcommand_autocompletes(entry_text);
                let others = concat_strings(&from_source, &from_names, 0);
                assert(views(from_names@).skip(0) =~= views(from_names@));
                if self.options.autocomplete_use_history_with_matches || others.len() == 0 {
                    let from_history = self.history_autocompletes(entry_text);
                    assert(views(from_history@).skip(0) =~= views(from_history@));
                    self.autocomplete_matches = concat_strings(&others, &from_history, 0);
                } else {
                    self.autocomplete_matches = others;
                }
            }
        }
        self.autocomplete_hint(entry_text)
    }

    /// The hint to show after the typed line `entry_text`.
    pub fn autocomplete_hint(&self, entry_text: &str) -> (r: String)
        ensures
            r@ == hint(self@.matches, entry_text@),
    {
        if self.autocomplete_matches.len() > 0 {
            assert(views(self.autocomplete_matches@)[0] == self.autocomplete_matches@[0]@);
            let first = chars_of(self.autocomplete_matches[0].as_str());
            let text = chars_of(entry_text);
            if first.len() > text.len() && starts_with(
                self.autocomplete_matches[0].as_str(),
                entry_text,
            ) {
                assert(first@.subrange(text.len() as int, first.len() as int) =~= first@.skip(
                    text.len() as int,
                ));
                return string_of_range(&first, text.len(), first.len());
            }
        }
        String::new()
    }

    /// Forgets the candidates.
    pub fn clear_autocomplete(&mut self)
        ensures
            final(self)@ == (ConsoleView { matches: Seq::empty(), ..old(self)@ }),
            final(self).well_formed() == old(self).well_formed(),
    {
        self.autocomplete_matches = Vec::new();
        assert(views(self.autocomplete_matches@) =~= Seq::<Seq<char>>::empty());
    }

    /// Steps on to the next candidate: the first candidate goes to the end, and the
    /// one that is first then is returned, to fill the line with. `None`, and
    /// nothing changes, where there are no candidates.
    pub fn autocomplete(&mut self) -> (r: Option<String>)
        ensures
            final(self).well_formed() == old(self).well_formed(),
            old(self)@.matches.len() == 0 ==> r is None && final(self)@ == old(self)@,
            old(self)@.matches.len() > 0 ==> {
                &&& final(self)@ == (ConsoleView {
                    matches: rotated_on(old(self)@.matches),
                    ..old(self)@
                })
                &&& r is Some
                &&& r->0@ == final(self)@.matches[0]
            },
    {
        if self.autocomplete_matches.len() == 0 {
            return None;
        }
        let ghost before = views(self.autocomplete_matches@);
        proof {
            crate::text::lemma_views_remove(self.autocomplete_matches@, 0);
        }
        let first = self.autocomplete_matches.remove(0);
        proof {
            lemma_views_push(self.autocomplete_matches@, first);
            assert(before.remove(0) =~= before.skip(1));
            assert(before[0] == first@);
        }
        self.autocomplete_matches.push(first);
        assert(views(self.autocomplete_matches@)[0] == self.autocomplete_matches@[0]@);
        Some(self.autocomplete_matches[0].clone())
    }

    /// Steps back to the candidate before: the last candidate goes to the front and
    /// is returned, to fill the line with. `None`, and nothing changes, where there
    /// are no candidates.
    pub fn reverse_autocomplete(&mut self) -> (r: Option<String>)
        ensures
            final(self).well_formed() == old(self).well_formed(),
            old(self)@.matches.len() == 0 ==> r is None && final(self)@ == old(self)@,
            old(self)@.matches.len() > 0 ==> {
                &&& final(self)@ == (ConsoleView {
                    matches: rotated_back(old(self)@.matches),
                    ..old(self)@
                })
                &&& r is Some
                &&& r->0@ == final(self)@.matches[0]
            },
    {
        let n = self.autocomplete_matches.len();
        if n == 0 {
            return None;
        }
        let ghost before = views(self.autocomplete_matches@);
        proof {
            crate::text::lemma_views_remove(self.autocomplete_matches@, n - 1);
        }
        let last = self.autocomplete_matches.remove(n - 1);
        let copy = last.clone();
        proof {
            assert(views(self.autocomplete_matches@.insert(0, last)) =~= seq![before.last()]
                + before.drop_last());
        }
        self.autocomplete_matches.insert(0, last);
        Some(copy)
    }

    /// Steps the history cursor back, towards older lines, and returns the line
    /// reached, to fill the line with. The candidates are forgotten.
    pub fn history_up(&mut self) -> (r: String)
        requires
            old(self).well_formed(),
        ensures
            final(self).well_formed(),
            final(self)@ == (ConsoleView {
                cursor: crate::command_history::WrappingIterator::step_back(
                    old(self)@.cursor_lines,
                    old(self)@.cursor,
                ),
                matches: Seq::empty(),
                ..old(self)@
            }),
            r@ == crate::command_history::WrappingIterator::line_at(
                old(self)@.cursor_lines,
                final(self)@.cursor,
            ),
    {
        let line = self.history_iter.prev();
        self.clear_autocomplete();
        line
    }

    /// Steps the history cursor on, towards newer lines, and returns the line
    /// reached, to fill the line with. The candidates are forgotten.
    pub fn history_down(&mut self) -> (r: String)
        requires
            old(self).well_formed(),
        ensures
            final(self).well_formed(),
            final(self)@ == (ConsoleView {
                cursor: crate::command_history::WrappingIterator::step_on(
                    old(self)@.cursor_lines,
                    old(self)@.cursor,
                ),
                matches: Seq::empty(),
                ..old(self)@
            }),
            r@ == crate::command_history::WrappingIterator::line_at(
                old(self)@.cursor_lines,
                final(self)@.cursor,
            ),
    {
        let line = self.history_iter.next();
        self.clear_autocomplete();
        line
    }

    /// Takes note that the typed line has changed to `entry_text`: the candidates
    /// are looked for anew, where `values` is what the source for the argument
    /// being typed gave; for an empty line the history cursor goes back before the
    /// lines. Returns the hint to show after the line.
    pub fn entry_text_changed(&mut self, entry_text: &str, values: Option<&Vec<String>>) -> (r:
        String)
        requires
            old(self).well_formed(),
        ensures
            final(self).well_formed(),
            entry_text@.len() > 0 ==> final(self)@ == completions_updated(
                ConsoleView { matches: Seq::empty(), ..old(self)@ },
                entry_text@,
                given_values(values),
            ) && r@ == hint(final(self)@.matches, entry_text@),
            entry_text@.len() == 0 ==> final(self)@ == (ConsoleView {
                matches: Seq::empty(),
                cursor: -1,
                ..old(self)@
            }) && r@.len() == 0,
    {
        self.clear_autocomplete();
        if !entry_text.is_empty() {
            self.update_autocomplete(entry_text, values)
        } else {
            self.history_iter.reset();
            String::new()
        }
    }
}

} // verus!

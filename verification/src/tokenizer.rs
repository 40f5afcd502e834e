//! Splitting a command line into its arguments.

use vstd::prelude::*;
use crate::text::{
    is_whitespace, is_whitespace_char, lemma_views_push, string_of_range, trim_chars, trimmed,
    views,
};

verus! {

/// The arguments found in `s` from position `cur` on, where the argument being read
/// began at `start`, and `in_quotes` and `in_brackets` say whether a double quote or a
/// round bracket is open. White space outside quotes and brackets ends an argument;
/// a double quote opens or closes quotes, `(` opens brackets and `)` closes them, and
/// all three stay part of the argument. The end of the line ends the last argument,
/// whatever is open.
pub open spec fn tokens_from(
    s: Seq<char>,
    start: int,
    cur: int,
    in_quotes: bool,
    in_brackets: bool,
) -> Seq<Seq<char>>
    decreases s.len() - cur,
{
    if cur >= s.len() {
        if s.len() > start {
            seq![s.subrange(start, s.len() as int)]
        } else {
            Seq::empty()
        }
    } else if s[cur] == '"' {
        tokens_from(s, start, cur + 1, !in_quotes, in_brackets)
    } else if s[cur] == '(' {
        tokens_from(s, start, cur + 1, in_quotes, true)
    } else if s[cur] == ')' {
        tokens_from(s, start, cur + 1, in_quotes, false)
    } else if is_whitespace(s[cur]) && !in_quotes && !in_brackets {
        if cur > start {
            seq![s.subrange(start, cur)] + tokens_from(s, cur + 1, cur + 1, false, false)
        } else {
            tokens_from(s, cur + 1, cur + 1, false, false)
        }
    } else {
        tokens_from(s, start, cur + 1, in_quotes, in_brackets)
    }
}

/// The arguments of a command line: those of the line without the white space at
/// its ends.
pub open spec fn tokenized(line: Seq<char>) -> Seq<Seq<char>> {
    tokens_from(trimmed(line), 0, 0, false, false)
}

/// Whether no sequence in `ts` is empty.
pub open spec fn all_nonempty(ts: Seq<Seq<char>>) -> bool {
    forall|k: int| 0 <= k < ts.len() ==> (#[trigger] ts[k]).len() > 0
}

/// No argument is empty.
pub proof fn lemma_tokens_nonempty(
    s: Seq<char>,
    start: int,
    cur: int,
    in_quotes: bool,
    in_brackets: bool,
)
    requires
        0 <= start <= cur <= s.len(),
    ensures
        all_nonempty(tokens_from(s, start, cur, in_quotes, in_brackets)),
    decreases s.len() - cur,
{
    let r = tokens_from(s, start, cur, in_quotes, in_brackets);
    if cur >= s.len() {
        if s.len() > start {
            assert(r =~= seq![s.subrange(start, s.len() as int)]);
            assert(r[0].len() > 0);
        }
    } else if s[cur] == '"' {
        lemma_tokens_nonempty(s, start, cur + 1, !in_quotes, in_brackets);
    } else if s[cur] == '(' {
        lemma_tokens_nonempty(s, start, cur + 1, in_quotes, true);
    } else if s[cur] == ')' {
        lemma_tokens_nonempty(s, start, cur + 1, in_quotes, false);
    } else if is_whitespace(s[cur]) && !in_quotes && !in_brackets {
        lemma_tokens_nonempty(s, cur + 1, cur + 1, false, false);
        let rest = tokens_from(s, cur + 1, cur + 1, false, false);
        assert forall|k: int| 0 <= k < r.len() implies (#[trigger] r[k]).len() > 0 by {
            if cur > start {
                if k > 0 {
                    assert(r[k] == rest[k - 1]);
                } else {
                    assert(r[0] == s.subrange(start, cur));
                }
            } else {
                assert(r[k] == rest[k]);
            }
        }
    } else {
        lemma_tokens_nonempty(s, start, cur + 1, in_quotes, in_brackets);
    }
}

/// Whether `t` is a stretch of `s`: the characters of `s` from one position to
/// another, as they stand.
pub open spec fn is_stretch(t: Seq<char>, s: Seq<char>) -> bool {
    exists|a: int, b: int| 0 <= a <= b <= s.len() && t == #[trigger] s.subrange(a, b)
}

/// Whether every sequence in `ts` is a stretch of `s`.
pub open spec fn all_stretches(ts: Seq<Seq<char>>, s: Seq<char>) -> bool {
    forall|k: int| 0 <= k < ts.len() ==> is_stretch(#[trigger] ts[k], s)
}

/// Every argument is a stretch of the line, character for character.
pub proof fn lemma_tokens_are_stretches(
    s: Seq<char>,
    start: int,
    cur: int,
    in_quotes: bool,
    in_brackets: bool,
)
    requires
        0 <= start <= cur <= s.len(),
    ensures
        all_stretches(tokens_from(s, start, cur, in_quotes, in_brackets), s),
    decreases s.len() - cur,
{
    let r = tokens_from(s, start, cur, in_quotes, in_brackets);
    if cur >= s.len() {
        if s.len() > start {
            assert(r =~= seq![s.subrange(start, s.len() as int)]);
            assert(is_stretch(s.subrange(start, s.len() as int), s));
        }
    } else if s[cur] == '"' {
        lemma_tokens_are_stretches(s, start, cur + 1, !in_quotes, in_brackets);
    } else if s[cur] == '(' {
        lemma_tokens_are_stretches(s, start, cur + 1, in_quotes, true);
    } else if s[cur] == ')' {
        lemma_tokens_are_stretches(s, start, cur + 1, in_quotes, false);
    } else if is_whitespace(s[cur]) && !in_quotes && !in_brackets {
        lemma_tokens_are_stretches(s, cur + 1, cur + 1, false, false);
        let rest = tokens_from(s, cur + 1, cur + 1, false, false);
        assert(is_stretch(s.subrange(start, cur), s));
        assert forall|k: int| 0 <= k < r.len() implies is_stretch(#[trigger] r[k], s) by {
            if cur > start {
                if k > 0 {
                    assert(r[k] == rest[k - 1]);
                } else {
                    assert(r[0] == s.subrange(start, cur));
                }
            } else {
                assert(r[k] == rest[k]);
            }
        }
    } else {
        lemma_tokens_are_stretches(s, start, cur + 1, in_quotes, in_brackets);
    }
}

/// The arguments of a line are stretches of the line without the white space at
/// its ends, and none is empty.
pub proof fn lemma_tokenized(line: Seq<char>)
    ensures
        all_stretches(tokenized(line), trimmed(line)),
        all_nonempty(tokenized(line)),
{
    lemma_tokens_are_stretches(trimmed(line), 0, 0, false, false);
    lemma_tokens_nonempty(trimmed(line), 0, 0, false, false);
}

/// Splits a command line into its arguments. White space separates arguments,
/// except inside double quotes and round brackets; the quotes and brackets stay in
/// the argument. A line of white space alone has no arguments.
pub fn parse_command_line(line: &str) -> (argv: Vec<String>)
    ensures
        views(argv@) == tokenized(line@),
{
    let x = trim_chars(line);
    let mut argv: Vec<String> = Vec::new();
    let mut in_quotes = false;
    let mut in_brackets = false;
    let mut start: usize = 0;
    let mut cur: usize = 0;
    assert(views(argv@) + tokens_from(x@, 0, 0, false, false) =~= tokens_from(
        x@,
        0,
        0,
        false,
        false,
    ));
    while cur < x.len()
        invariant
            start <= cur <= x.len(),
            x@ == trimmed(line@),
            tokenized(line@) == views(argv@) + tokens_from(
                x@,
                start as int,
                cur as int,
                in_quotes,
                in_brackets,
            ),
        decreases x.len() - cur,
    {
        let ch = x[cur];
        if ch == '"' {
            in_quotes = !in_quotes;
        } else if ch == '(' {
            in_brackets = true;
        } else if ch == ')' {
            in_brackets = false;
        } else if is_whitespace_char(ch) && !in_quotes && !in_brackets {
            if cur > start {
                let token = string_of_range(&x, start, cur);
                proof {
                    lemma_views_push(argv@, token);
                    let rest = tokens_from(x@, cur + 1, cur + 1, false, false);
                    assert(views(argv@) + (seq![token@] + rest) =~= views(argv@).push(token@)
                        + rest);
                }
                argv.push(token);
            }
            start = cur + 1;
        }
        cur += 1;
    }
    if x.len() > start {
        let token = string_of_range(&x, start, x.len());
        proof {
            lemma_views_push(argv@, token);
            assert(views(argv@) + seq![token@] =~= views(argv@).push(token@));
        }
        argv.push(token);
    } else {
        assert(views(argv@) + Seq::<Seq<char>>::empty() =~= views(argv@));
    }
    argv
}

} // verus!

//! Which stretches of the line being typed are shown as a known command, as an
//! unknown one, as the later words of a command name, and as arguments.

use vstd::prelude::*;
use crate::registry::Registry;
use crate::text::{chars_of, join_on, join_range, lemma_views_push, string_of_range, views};

verus! {

/// How a typed line is shown. The line is shown as a command from its start, as the
/// later words of a command name from `subcommand_start` on, if that is set, and as
/// arguments from `text_start` on. All positions count characters.
#[derive(Debug, Clone, Copy, PartialEq, Eq, Structural)]
pub struct Highlighting {
    /// Whether the line begins with the name of a command or an alias.
    pub command_found: bool,
    pub subcommand_start: Option<usize>,
    pub text_start: usize,
}

/// The words of `s` from position `cur` on, each with the position at which it
/// begins, where the word being read began at `start`. Spaces separate words.
pub open spec fn words_from(s: Seq<char>, start: int, cur: int) -> Seq<(Seq<char>, int)>
    decreases s.len() - cur,
{
    if cur >= s.len() {
        if s.len() > start {
            seq![(s.subrange(start, s.len() as int), start)]
        } else {
            Seq::empty()
        }
    } else if s[cur] == ' ' {
        if cur > start {
            seq![(s.subrange(start, cur), start)] + words_from(s, cur + 1, cur + 1)
        } else {
            words_from(s, cur + 1, cur + 1)
        }
    } else {
        words_from(s, start, cur + 1)
    }
}

/// The words of a list of words with positions.
pub open spec fn words_of(words: Seq<(Seq<char>, int)>) -> Seq<Seq<char>> {
    Seq::new(words.len(), |i: int| words[i].0)
}

/// The position after the name of the command that the line begins with: the
/// longest run of its first words, up to `n` of them, that is the name of a command
/// or an alias when joined by single spaces.
pub open spec fn command_end(registry: Registry, words: Seq<(Seq<char>, int)>, n: int) -> Option<
    int,
>
    decreases n,
{
    if n <= 0 {
        None
    } else if registry.knows(join_on(words_of(words).take(n), " "@)) {
        Some(words[n - 1].1 + words[n - 1].0.len())
    } else {
        command_end(registry, words, n - 1)
    }
}

/// How the line `text` is shown; `None` for a line without words. After a known
/// command the arguments begin one character beyond its name; after an unknown one
/// they begin with the second word. The second word of a known name of several words
/// is set off as a later word of the name.
pub open spec fn highlighted(registry: Registry, text: Seq<char>) -> Option<Highlighting> {
    let words = words_from(text, 0, 0);
    if words.len() == 0 {
        None
    } else {
        match command_end(registry, words, words.len() as int) {
            Some(end) => {
                let text_start = if end < text.len() {
                    end + 1
                } else {
                    text.len() as int
                };
                Some(
                    Highlighting {
                        command_found: true,
                        subcommand_start: if words.len() > 1 && words[1].1 != text_start {
                            Some(words[1].1 as usize)
                        } else {
                            None
                        },
                        text_start: text_start as usize,
                    },
                )
            },
            None => Some(
                Highlighting {
                    command_found: false,
                    subcommand_start: None,
                    text_start: if words.len() > 1 {
                        words[1].1 as usize
                    } else {
                        text.len() as usize
                    },
                },
            ),
        }
    }
}

/// The words of a list of words, where `starts` holds their positions.
pub open spec fn zipped(words: Seq<Seq<char>>, starts: Seq<usize>) -> Seq<(Seq<char>, int)> {
    Seq::new(words.len(), |i: int| (words[i], starts[i] as int))
}

/// How the line `text` is shown.
pub fn get_line_syntax_highlighting(registry: &Registry, text: &str) -> (r: Option<Highlighting>)
    ensures
        r == highlighted(*registry, text@),
{
    let x = chars_of(text);
    let mut argv: Vec<String> = Vec::new();
    let mut argi: Vec<usize> = Vec::new();
    let mut start: usize = 0;
    let mut cur: usize = 0;
    proof {
        assert(zipped(views(argv@), argi@) + words_from(x@, 0, 0) =~= words_from(x@, 0, 0));
    }
    while cur < x.len()
        invariant
            start <= cur <= x.len(),
            argv.len() == argi.len(),
            forall|k: int| 0 <= k < argi.len() ==> #[trigger] argi@[k] + views(argv@)[k].len()
                <= x.len(),
            words_from(x@, 0, 0) == zipped(views(argv@), argi@) + words_from(
                x@,
                start as int,
                cur as int,
            ),
        decreases x.len() - cur,
    {
        if x[cur] == ' ' {
            if cur > start {
                let word = string_of_range(&x, start, cur);
                proof {
                    lemma_views_push(argv@, word);
                    let rest = words_from(x@, cur + 1, cur + 1);
                    assert(zipped(views(argv@), argi@) + (seq![(word@, start as int)] + rest)
                        =~= zipped(views(argv@).push(word@), argi@.push(start)) + rest);
                }
                argv.push(word);
                argi.push(start);
            }
            start = cur + 1;
        }
        cur += 1;
    }
    if x.len() > start {
        let word = string_of_range(&x, start, x.len());
        proof {
            lemma_views_push(argv@, word);
            assert(zipped(views(argv@), argi@) + seq![(word@, start as int)] =~= zipped(
                views(argv@).push(word@),
                argi@.push(start),
            ));
        }
        argv.push(word);
        argi.push(start);
    } else {
        assert(zipped(views(argv@), argi@) + Seq::<(Seq<char>, int)>::empty() =~= zipped(
            views(argv@),
            argi@,
        ));
    }
    let ghost words = zipped(views(argv@), argi@);
    if argv.len() == 0 {
        return None;
    }
    let mut end: Option<usize> = None;
    let mut n: usize = argv.len();
    while n > 0
        invariant_except_break
            end is None,
            command_end(*registry, words, argv.len() as int) == command_end(
                *registry,
                words,
                n as int,
            ),
        invariant
            n <= argv.len(),
            argv.len() == argi.len(),
            words == zipped(views(argv@), argi@),
            forall|k: int| 0 <= k < argi.len() ==> #[trigger] argi@[k] + views(argv@)[k].len()
                <= x.len(),
        ensures
            end is Some ==> command_end(*registry, words, argv.len() as int) == Some(
                end->0 as int,
            ),
            end is None ==> command_end(*registry, words, argv.len() as int) is None,
        decreases n,
    {
        let name = join_range(&argv, 0, n, " ");
        proof {
            assert(views(argv@).subrange(0, n as int) =~= words_of(words).take(n as int));
        }
        if registry.has_command(name.as_str()) || registry.has_alias(name.as_str()) {
            let length = chars_of(argv[n - 1].as_str()).len();
            proof {
                assert(views(argv@)[n - 1] == argv@[n - 1]@);
                assert(argi@[n - 1] + views(argv@)[n - 1].len() <= x.len());
            }
            end = Some(argi[n - 1] + length);
            break;
        }
        n -= 1;
    }
    let second: Option<usize> = if argi.len() > 1 {
        Some(argi[1])
    } else {
        None
    };
    proof {
        if argi.len() > 1 {
            assert(words[1].1 == argi@[1]);
            assert(argi@[1] + views(argv@)[1].len() <= x.len());
        }
    }
    match end {
        Some(e) => {
            let text_start = if e < x.len() {
                e + 1
            } else {
                x.len()
            };
            let subcommand_start = match second {
                Some(s) => if s != text_start {
                    Some(s)
                } else {
                    None
                },
                None => None,
            };
            Some(Highlighting { command_found: true, subcommand_start, text_start })
        },
        None => {
            let text_start = match second {
                Some(s) => s,
                None => x.len(),
            };
            Some(Highlighting { command_found: false, subcommand_start: None, text_start })
        },
    }
}

} // verus!

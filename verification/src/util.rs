//! Markup escaping and stripping, edit-distance matching, and command-name validation.

use vstd::prelude::*;
use crate::text::{chars_of, split, split_on, string_of, views};

verus! {

/// `s` with every occurrence of `pat` replaced by `rep`, found from left to right
/// without overlap. An empty pattern replaces nothing.
pub open spec fn replace_all(s: Seq<char>, pat: Seq<char>, rep: Seq<char>) -> Seq<char>
    decreases s.len(),
{
    if s.len() == 0 || pat.len() == 0 {
        s
    } else if pat.is_prefix_of(s) {
        rep + replace_all(s.skip(pat.len() as int), pat, rep)
    } else {
        seq![s[0]] + replace_all(s.drop_first(), pat, rep)
    }
}

/// Whether `p` stands in `x` at position `i`.
fn matches_at(x: &Vec<char>, i: usize, p: &Vec<char>) -> (r: bool)
    requires
        i <= x.len(),
    ensures
        r == p@.is_prefix_of(x@.skip(i as int)),
{
    if p.len() > x.len() - i {
        return false;
    }
    let mut k: usize = 0;
    while k < p.len()
        invariant
            i <= x.len(),
            k <= p.len() <= x.len() - i,
            forall|j: int| 0 <= j < k ==> x@[i + j] == p@[j],
        decreases p.len() - k,
    {
        if x[i + k] != p[k] {
            assert(x@.skip(i as int).subrange(0, p@.len() as int)[k as int] == x@[i + k]);
            return false;
        }
        k += 1;
    }
    assert(p@ =~= x@.skip(i as int).subrange(0, p@.len() as int));
    true
}

/// Replaces every occurrence of the non-empty pattern `p` in `x` by `rp`.
fn replace_chars(x: &Vec<char>, p: &Vec<char>, rp: &Vec<char>) -> (out: Vec<char>)
    requires
        p.len() > 0,
    ensures
        out@ == replace_all(x@, p@, rp@),
{
    let mut out: Vec<char> = Vec::new();
    let mut i: usize = 0;
    proof {
        assert(x@.skip(0) =~= x@);
        assert(out@ + replace_all(x@, p@, rp@) =~= replace_all(x@, p@, rp@));
    }
    while i < x.len()
        invariant
            i <= x.len(),
            p.len() > 0,
            replace_all(x@, p@, rp@) == out@ + replace_all(x@.skip(i as int), p@, rp@),
        decreases x.len() - i,
    {
        let ghost before = out@;
        let ghost t = x@.skip(i as int);
        if matches_at(x, i, p) {
            let mut k: usize = 0;
            while k < rp.len()
                invariant
                    k <= rp.len(),
                    out@ == before + rp@.take(k as int),
                decreases rp.len() - k,
            {
                out.push(rp[k]);
                k += 1;
                assert(rp@.take(k as int) == rp@.take(k - 1).push(rp@[k - 1]));
            }
            proof {
                assert(rp@.take(rp@.len() as int) =~= rp@);
                assert(t.skip(p@.len() as int) =~= x@.skip(i + p@.len()));
                assert(before + (rp@ + replace_all(x@.skip(i + p@.len()), p@, rp@)) =~= (before
                    + rp@) + replace_all(x@.skip(i + p@.len()), p@, rp@));
            }
            i += p.len();
        } else {
            out.push(x[i]);
            proof {
                assert(t.drop_first() =~= x@.skip(i + 1));
                assert(before + (seq![t[0]] + replace_all(x@.skip(i + 1), p@, rp@)) =~= before.push(
                    x@[i as int],
                ) + replace_all(x@.skip(i + 1), p@, rp@));
            }
            i += 1;
        }
    }
    assert(out@ + Seq::<char>::empty() =~= out@);
    out
}

/// `text` with every occurrence of `pattern` replaced by `replacement`, found from
/// left to right without overlap. An empty pattern replaces nothing.
pub fn replace(text: &str, pattern: &str, replacement: &str) -> (r: String)
    ensures
        r@ == replace_all(text@, pattern@, replacement@),
{
    let p = chars_of(pattern);
    if p.len() == 0 {
        return text.to_owned();
    }
    let out = replace_chars(&chars_of(text), &p, &chars_of(replacement));
    string_of(&out)
}

/// `s` with each `[` turned into `[lb]` and each `]` into `[rb]`, by four replacement
/// passes: brackets to the markers `~LB~` and `~RB~`, then each marker to its escape.
/// A marker that the text already held is turned into the escape as well.
pub open spec fn bbcode_escaped(s: Seq<char>) -> Seq<char> {
    replace_all(
        replace_all(replace_all(replace_all(s, "["@, "~LB~"@), "]"@, "~RB~"@), "~LB~"@, "[lb]"@),
        "~RB~"@,
        "[rb]"@,
    )
}

/// Escapes the brackets of `text` so that it is shown literally by a markup renderer.
pub fn bbcode_escape(text: &str) -> (r: String)
    ensures
        r@ == bbcode_escaped(text@),
{
    proof {
        reveal_strlit("[");
        reveal_strlit("]");
        reveal_strlit("~LB~");
        reveal_strlit("~RB~");
    }
    let x = chars_of(text);
    let a = replace_chars(&x, &chars_of("["), &chars_of("~LB~"));
    let b = replace_chars(&a, &chars_of("]"), &chars_of("~RB~"));
    let c = replace_chars(&b, &chars_of("~LB~"), &chars_of("[lb]"));
    let d = replace_chars(&c, &chars_of("~RB~"), &chars_of("[rb]"));
    string_of(&d)
}

/// The characters of `s` that stand outside markup tags, where `inside` says whether
/// `s` begins inside a tag. `[` opens a tag and `]` closes one; neither is kept.
pub open spec fn strip_tags(s: Seq<char>, inside: bool) -> Seq<char>
    decreases s.len(),
{
    if s.len() == 0 {
        s
    } else if s[0] == '[' {
        strip_tags(s.drop_first(), true)
    } else if s[0] == ']' {
        strip_tags(s.drop_first(), false)
    } else if inside {
        strip_tags(s.drop_first(), true)
    } else {
        seq![s[0]] + strip_tags(s.drop_first(), false)
    }
}

/// Removes all markup tags from `text`, leaving the plain text.
pub fn bbcode_strip(text: &str) -> (r: String)
    ensures
        r@ == strip_tags(text@, false),
{
    let x = chars_of(text);
    let mut out: Vec<char> = Vec::new();
    let mut inside = false;
    let mut i: usize = 0;
    proof {
        assert(x@.skip(0) =~= x@);
        assert(out@ + strip_tags(x@, false) =~= strip_tags(x@, false));
    }
    while i < x.len()
        invariant
            i <= x.len(),
            strip_tags(x@, false) == out@ + strip_tags(x@.skip(i as int), inside),
        decreases x.len() - i,
    {
        let c = x[i];
        let ghost before = out@;
        proof {
            assert(x@.skip(i as int).drop_first() =~= x@.skip(i + 1));
        }
        if c == '[' {
            inside = true;
        } else if c == ']' {
            inside = false;
        } else if !inside {
            out.push(c);
            proof {
                assert(before + (seq![c] + strip_tags(x@.skip(i + 1), false)) =~= before.push(c)
                    + strip_tags(x@.skip(i + 1), false));
            }
        }
        i += 1;
    }
    assert(out@ + Seq::<char>::empty() =~= out@);
    string_of(&out)
}

/// The smaller of two numbers.
pub open spec fn min2(a: int, b: int) -> int {
    if a <= b {
        a
    } else {
        b
    }
}

/// The optimal-string-alignment distance between the first `i` characters of `a` and
/// the first `j` characters of `b`: the least number of insertions, deletions,
/// substitutions and swaps of two neighbours that turns one into the other, where no
/// character is edited twice.
pub open spec fn osa(a: Seq<char>, b: Seq<char>, i: int, j: int) -> int
    decreases i + j,
{
    if i <= 0 {
        if j <= 0 {
            0
        } else {
            j
        }
    } else if j <= 0 {
        i
    } else {
        let cost: int = if a[i - 1] == b[j - 1] {
            0
        } else {
            1
        };
        let d = min2(
            min2(osa(a, b, i - 1, j) + 1, osa(a, b, i, j - 1) + 1),
            osa(a, b, i - 1, j - 1) + cost,
        );
        if i > 1 && j > 1 && a[i - 1] == b[j - 2] && a[i - 2] == b[j - 1] {
            min2(d, osa(a, b, i - 2, j - 2) + 1)
        } else {
            d
        }
    }
}

/// The optimal-string-alignment distance between `a` and `b`.
pub open spec fn osa_distance(a: Seq<char>, b: Seq<char>) -> int {
    osa(a, b, a.len() as int, b.len() as int)
}

/// The distance between two prefixes is never negative and never more than the longer
/// prefix's length.
pub proof fn lemma_osa_bounds(a: Seq<char>, b: Seq<char>, i: int, j: int)
    requires
        0 <= i,
        0 <= j,
    ensures
        0 <= osa(a, b, i, j) <= (if i >= j {
            i
        } else {
            j
        }),
    decreases i + j,
{
    if i > 0 && j > 0 {
        lemma_osa_bounds(a, b, i - 1, j);
        lemma_osa_bounds(a, b, i, j - 1);
        lemma_osa_bounds(a, b, i - 1, j - 1);
        if i > 1 && j > 1 {
            lemma_osa_bounds(a, b, i - 2, j - 2);
        }
    }
}

/// The optimal-string-alignment distance between `s1` and `s2`.
pub fn calculate_osa_distance(s1: &str, s2: &str) -> (d: usize)
    ensures
        d == osa_distance(s1@, s2@),
{
    let a = chars_of(s1);
    let b = chars_of(s2);
    let n = a.len();
    let m = b.len();
    if n == 0 {
        return m;
    }
    if m == 0 {
        return n;
    }
    // Row r holds, at index k, the distance between the first r characters of `a`
    // and the first k + 1 characters of `b`.
    let mut prev2: Vec<usize> = Vec::new();
    let mut prev: Vec<usize> = Vec::new();
    let mut cur: Vec<usize> = Vec::new();
    let mut k: usize = 0;
    while k < m
        invariant
            k <= m,
            prev2.len() == k,
            prev.len() == k,
            cur.len() == k,
            forall|q: int| 0 <= q < k ==> prev@[q] == osa(a@, b@, 0, q + 1),
        decreases m - k,
    {
        prev2.push(0);
        prev.push(k + 1);
        cur.push(0);
        k += 1;
    }
    let mut i: usize = 0;
    while i < n
        invariant
            i <= n,
            n == a.len(),
            m == b.len(),
            m > 0,
            prev2.len() == m,
            prev.len() == m,
            cur.len() == m,
            forall|q: int| 0 <= q < m ==> prev@[q] == osa(a@, b@, i as int, q + 1),
            i >= 1 ==> forall|q: int| 0 <= q < m ==> prev2@[q] == osa(a@, b@, i - 1, q + 1),
        decreases n - i,
    {
        let mut j: usize = 0;
        while j < m
            invariant
                j <= m,
                i < n,
                n == a.len(),
                m == b.len(),
                prev2.len() == m,
                prev.len() == m,
                cur.len() == m,
                forall|q: int| 0 <= q < m ==> prev@[q] == osa(a@, b@, i as int, q + 1),
                i >= 1 ==> forall|q: int| 0 <= q < m ==> prev2@[q] == osa(a@, b@, i - 1, q + 1),
                forall|q: int| 0 <= q < j ==> cur@[q] == osa(a@, b@, i + 1, q + 1),
            decreases m - j,
        {
            let above: usize = prev[j];
            let beside: usize = if j == 0 {
                i + 1
            } else {
                cur[j - 1]
            };
            let diagonal: usize = if j == 0 {
                i
            } else {
                prev[j - 1]
            };
            let same = a[i] == b[j];
            let swap = i > 0 && j > 0 && a[i] == b[j - 1] && a[i - 1] == b[j];
            let mut least: usize = if above <= beside {
                above
            } else {
                beside
            };
            let ghost before_swap: int = osa(a@, b@, i - 1, j - 1);
            if swap {
                let swapped: usize = if j == 1 {
                    i - 1
                } else {
                    prev2[j - 2]
                };
                assert(swapped == before_swap);
                if swapped < least {
                    least = swapped;
                }
            }
            proof {
                lemma_osa_bounds(a@, b@, i as int, j as int);
                assert(above == osa(a@, b@, i as int, j + 1));
                assert(beside == osa(a@, b@, i + 1, j as int));
                assert(diagonal == osa(a@, b@, i as int, j as int));
                assert(least == if swap {
                    min2(min2(above as int, beside as int), before_swap)
                } else {
                    min2(above as int, beside as int)
                });
            }
            let value: usize = if same {
                if diagonal <= least {
                    diagonal
                } else {
                    least + 1
                }
            } else {
                if diagonal < least {
                    diagonal + 1
                } else {
                    least + 1
                }
            };
            proof {
                let cost: int = if a@[i as int] == b@[j as int] {
                    0
                } else {
                    1
                };
                let d = min2(min2(above + 1, beside + 1), diagonal + cost);
                assert(osa(a@, b@, i + 1, j + 1) == if swap {
                    min2(d, before_swap + 1)
                } else {
                    d
                });
            }
            cur.set(j, value);
            j += 1;
        }
        let tmp = prev2;
        prev2 = prev;
        prev = cur;
        cur = tmp;
        i += 1;
    }
    prev[m - 1]
}

/// Whether `hay[k]` is the first candidate at the least distance from `needle`.
pub open spec fn is_closest(needle: Seq<char>, hay: Seq<Seq<char>>, k: int) -> bool {
    &&& 0 <= k < hay.len()
    &&& forall|j: int| 0 <= j < hay.len() ==> osa_distance(needle, hay[k]) <= osa_distance(needle, #[trigger] hay[j])
    &&& forall|j: int| 0 <= j < k ==> osa_distance(needle, hay[k]) < osa_distance(needle, #[trigger] hay[j])
}

/// The candidate of `hay` closest to `needle` in edit distance, where that distance
/// is at most `max`. Of several equally close candidates the first wins.
pub open spec fn closest_match(needle: Seq<char>, hay: Seq<Seq<char>>, max: int) -> Option<
    Seq<char>,
> {
    if exists|k: int| is_closest(needle, hay, k) {
        let k = choose|k: int| is_closest(needle, hay, k);
        if osa_distance(needle, hay[k]) <= max {
            Some(hay[k])
        } else {
            None
        }
    } else {
        None
    }
}

/// Only one candidate is the first at the least distance.
pub proof fn lemma_closest_is_unique(needle: Seq<char>, hay: Seq<Seq<char>>, a: int, b: int)
    requires
        is_closest(needle, hay, a),
        is_closest(needle, hay, b),
    ensures
        a == b,
{
    if a < b {
        assert(osa_distance(needle, hay[b]) < osa_distance(needle, hay[a]));
        assert(osa_distance(needle, hay[a]) <= osa_distance(needle, hay[b]));
    } else if b < a {
        assert(osa_distance(needle, hay[a]) < osa_distance(needle, hay[b]));
        assert(osa_distance(needle, hay[b]) <= osa_distance(needle, hay[a]));
    }
}

/// The candidate of `haystack` closest to `needle` in edit distance, if that distance
/// is at most `max_edit_distance`. Of several equally close candidates the first wins.
pub fn fuzzy_match_string(needle: &str, max_edit_distance: usize, haystack: &Vec<String>) -> (r:
    Option<String>)
    ensures
        r is Some == closest_match(needle@, views(haystack@), max_edit_distance as int) is Some,
        r is Some ==> r->0@ == closest_match(
            needle@,
            views(haystack@),
            max_edit_distance as int,
        )->0,
{
    let ghost hay = views(haystack@);
    if haystack.len() == 0 {
        return None;
    }
    let mut best: usize = 0;
    let mut best_distance: usize = calculate_osa_distance(needle, haystack[0].as_str());
    let mut i: usize = 1;
    while i < haystack.len()
        invariant
            1 <= i <= haystack.len(),
            hay == views(haystack@),
            0 <= best < i,
            best_distance == osa_distance(needle@, hay[best as int]),
            forall|j: int| 0 <= j < i ==> best_distance <= osa_distance(needle@, #[trigger] hay[j]),
            forall|j: int| 0 <= j < best ==> best_distance < osa_distance(needle@, #[trigger] hay[j]),
        decreases haystack.len() - i,
    {
        let dist = calculate_osa_distance(needle, haystack[i].as_str());
        if dist < best_distance {
            best_distance = dist;
            best = i;
        }
        i += 1;
    }
    proof {
        assert(is_closest(needle@, hay, best as int));
        let k = choose|k: int| is_closest(needle@, hay, k);
        lemma_closest_is_unique(needle@, hay, k, best as int);
    }
    if best_distance <= max_edit_distance {
        Some(haystack[best].clone())
    } else {
        None
    }
}

/// A letter of the basic Latin alphabet, a decimal digit or an underscore.
pub open spec fn is_identifier_char(c: char) -> bool {
    ('a' <= c <= 'z') || ('A' <= c <= 'Z') || ('0' <= c <= '9') || c == '_'
}

/// An identifier: not empty, made of letters, digits and underscores, and not
/// starting with a digit.
pub open spec fn is_identifier(s: Seq<char>) -> bool {
    &&& s.len() > 0
    &&& !('0' <= s[0] <= '9')
    &&& forall|i: int| 0 <= i < s.len() ==> is_identifier_char(#[trigger] s[i])
}

/// Whether `s` is an identifier.
pub fn is_valid_ascii_identifier(s: &str) -> (r: bool)
    ensures
        r == is_identifier(s@),
{
    let x = chars_of(s);
    if x.len() == 0 {
        return false;
    }
    if x[0] >= '0' && x[0] <= '9' {
        return false;
    }
    let mut i: usize = 0;
    while i < x.len()
        invariant
            i <= x.len(),
            x@ == s@,
            forall|k: int| 0 <= k < i ==> is_identifier_char(#[trigger] x@[k]),
        decreases x.len() - i,
    {
        let c = x[i];
        let ok = (c >= 'a' && c <= 'z') || (c >= 'A' && c <= 'Z') || (c >= '0' && c <= '9') || c
            == '_';
        if !ok {
            return false;
        }
        i += 1;
    }
    true
}

/// A command name: one or more identifiers with a single space between neighbours.
pub open spec fn is_command_sequence(s: Seq<char>) -> bool {
    &&& s.len() > 0
    &&& forall|i: int|
        0 <= i < split_on(s, ' ').len() ==> is_identifier(#[trigger] split_on(s, ' ')[i])
}

/// An identifier alone is a command name.
pub proof fn lemma_identifier_is_command_sequence(s: Seq<char>)
    requires
        is_identifier(s),
    ensures
        is_command_sequence(s),
        split_on(s, ' ') == seq![s],
{
    assert forall|k: int| 0 <= k < s.len() implies s[k] != ' ' by {
        assert(is_identifier_char(s[k]));
    }
    crate::text::lemma_first_index_is(s, ' ', s.len() as int);
    assert(split_on(s, ' ') =~= seq![s]);
}

/// Whether `s` is a command name.
pub fn is_valid_command_sequence(s: &str) -> (r: bool)
    ensures
        r == is_command_sequence(s@),
{
    if s.is_empty() {
        return false;
    }
    let parts = split(s, ' ');
    let mut i: usize = 0;
    while i < parts.len()
        invariant
            i <= parts.len(),
            views(parts@) == split_on(s@, ' '),
            forall|k: int| 0 <= k < i ==> is_identifier(#[trigger] split_on(s@, ' ')[k]),
        decreases parts.len() - i,
    {
        if !is_valid_ascii_identifier(parts[i].as_str()) {
            assert(views(parts@)[i as int] == parts@[i as int]@);
            return false;
        }
        assert(views(parts@)[i as int] == parts@[i as int]@);
        i += 1;
    }
    true
}

} // verus!

//! The log of executed command lines, its relevance search, and the cursor that
//! walks through it.

use vstd::prelude::*;
use crate::text::{
    chars_of, clone_strings, first_index_of, lemma_first_index_bounds, lemma_first_index_is,
    lemma_views_push, lemma_views_remove, lowercase, str_eq, trim, trimmed, views,
};

verus! {

/// The history `h` after `e` is entered: an earlier occurrence of `e` is taken out, and
/// `e` stands at the end.
pub open spec fn pushed(h: Seq<Seq<char>>, e: Seq<char>) -> Seq<Seq<char>> {
    let i = first_index_of(h, e);
    if i < h.len() {
        h.remove(i).push(e)
    } else {
        h.push(e)
    }
}

/// The latest `max` lines of the history `h`; all of them where there are no more.
pub open spec fn latest(h: Seq<Seq<char>>, max: int) -> Seq<Seq<char>> {
    if h.len() > max && max >= 0 {
        h.skip(h.len() - max)
    } else {
        h
    }
}

/// The history `h` after the lines of a stored history are read in, in order: each
/// line is trimmed, empty ones are passed over, the others are entered.
pub open spec fn loaded(h: Seq<Seq<char>>, lines: Seq<Seq<char>>) -> Seq<Seq<char>>
    decreases lines.len(),
{
    if lines.len() == 0 {
        h
    } else {
        let before = loaded(h, lines.drop_last());
        let line = trimmed(lines.last());
        if line.len() == 0 {
            before
        } else {
            pushed(before, line)
        }
    }
}

/// How many characters of `q` a scan of the first `n` characters of `t` pairs off,
/// taking each character of `q` in turn at its first chance.
pub open spec fn paired(q: Seq<char>, t: Seq<char>, n: int) -> int
    decreases n,
{
    if n <= 0 {
        0
    } else {
        let k = paired(q, t, n - 1);
        if k < q.len() && t[n - 1] == q[k] {
            k + 1
        } else {
            k
        }
    }
}

/// What the pairs among the first `n` characters of `t` are worth: ten each, and five
/// more for one at the start of the line or right after a space.
pub open spec fn paired_worth(q: Seq<char>, t: Seq<char>, n: int) -> int
    decreases n,
{
    if n <= 0 {
        0
    } else {
        let k = paired(q, t, n - 1);
        let w = paired_worth(q, t, n - 1);
        if k < q.len() && t[n - 1] == q[k] {
            w + 10 + (if n == 1 || t[n - 2] == ' ' {
                5int
            } else {
                0int
            })
        } else {
            w
        }
    }
}

/// The relevance of `t` to the query `q`: 99999 where they are equal; otherwise what
/// the pairs are worth where all of `q` occurs in `t` in order, and zero where not.
pub open spec fn match_score(q: Seq<char>, t: Seq<char>) -> int {
    if q == t {
        99999
    } else if paired(q, t, t.len() as int) == q.len() {
        paired_worth(q, t, t.len() as int)
    } else {
        0
    }
}

/// The pairs found in a prefix are at most the prefix's length and the query's, and
/// their worth is at most fifteen each.
pub proof fn lemma_paired_bounds(q: Seq<char>, t: Seq<char>, n: int)
    requires
        0 <= n,
    ensures
        0 <= paired(q, t, n) <= q.len(),
        paired(q, t, n) <= n,
        0 <= paired_worth(q, t, n) <= 15 * paired(q, t, n),
    decreases n,
{
    if n > 0 {
        lemma_paired_bounds(q, t, n - 1);
    }
}

/// The relevance of `target` to `query`.
pub fn compute_match_score(query: &str, target: &str) -> (score: u128)
    ensures
        score == match_score(query@, target@),
{
    if str_eq(query, target) {
        return 99999;
    }
    let q = chars_of(query);
    let t = chars_of(target);
    let mut score: u128 = 0;
    let mut k: usize = 0;
    let mut i: usize = 0;
    while i < t.len()
        invariant
            i <= t.len(),
            k <= q.len(),
            k == paired(q@, t@, i as int),
            score == paired_worth(q@, t@, i as int),
            score <= 15 * k,
        decreases t.len() - i,
    {
        proof {
            lemma_paired_bounds(q@, t@, i + 1);
        }
        if k < q.len() && t[i] == q[k] {
            score = score + 10;
            if i == 0 || t[i - 1] == ' ' {
                score = score + 5;
            }
            k += 1;
        }
        i += 1;
    }
    if k == q.len() {
        score
    } else {
        0
    }
}

/// The first position in `scores` that holds less than `score`, or the length.
pub open spec fn rank_position(scores: Seq<int>, score: int) -> int
    decreases scores.len(),
{
    if scores.len() == 0 {
        0
    } else if scores[0] < score {
        0
    } else {
        1 + rank_position(scores.drop_first(), score)
    }
}

/// The entries of `h` that are relevant to the lower-case query `q`, each with its
/// score, best first. Entries of equal score stand in the order of the history.
pub open spec fn ranked(h: Seq<Seq<char>>, q: Seq<char>) -> Seq<(Seq<char>, int)>
    decreases h.len(),
{
    if h.len() == 0 {
        Seq::empty()
    } else {
        let before = ranked(h.drop_last(), q);
        let score = match_score(q, lowercase(h.last()));
        if score > 0 {
            before.insert(
                rank_position(before.map_values(|p: (Seq<char>, int)| p.1), score),
                (h.last(), score),
            )
        } else {
            before
        }
    }
}

/// What a search for `query` in the history `h` returns: for the empty query all
/// entries, latest first; otherwise the relevant entries, best first.
pub open spec fn search_result(h: Seq<Seq<char>>, query: Seq<char>) -> Seq<Seq<char>> {
    if query.len() == 0 {
        h.reverse()
    } else {
        ranked(h, lowercase(query)).map_values(|p: (Seq<char>, int)| p.0)
    }
}

/// `rank_position` lies within the sequence; nothing before it is less than `score`,
/// and what stands at it is.
pub proof fn lemma_rank_position(scores: Seq<int>, score: int)
    ensures
        0 <= rank_position(scores, score) <= scores.len(),
        forall|k: int| 0 <= k < rank_position(scores, score) ==> scores[k] >= score,
        rank_position(scores, score) < scores.len() ==> scores[rank_position(scores, score)]
            < score,
    decreases scores.len(),
{
    if scores.len() > 0 && scores[0] >= score {
        let t = scores.drop_first();
        lemma_rank_position(t, score);
        assert forall|k: int| 0 <= k < rank_position(scores, score) implies scores[k]
            >= score by {
            if k > 0 {
                assert(scores[k] == t[k - 1]);
            }
        }
    }
}

/// The position is `p` when nothing before `p` is less than `score` and `p` is the
/// length or holds less.
pub proof fn lemma_rank_position_is(scores: Seq<int>, score: int, p: int)
    requires
        0 <= p <= scores.len(),
        forall|k: int| 0 <= k < p ==> scores[k] >= score,
        p < scores.len() ==> scores[p] < score,
    ensures
        rank_position(scores, score) == p,
{
    lemma_rank_position(scores, score);
    let r = rank_position(scores, score);
    if r < p {
        assert(scores[r] >= score);
    } else if r > p {
        assert(scores[p] >= score);
    }
}

/// The scores of a ranked list never rise from one entry to the next, and all are
/// positive.
pub proof fn lemma_ranked_descending(h: Seq<Seq<char>>, q: Seq<char>)
    ensures
        forall|i: int, j: int|
            0 <= i <= j < ranked(h, q).len() ==> ranked(h, q)[i].1 >= ranked(h, q)[j].1,
        forall|i: int| 0 <= i < ranked(h, q).len() ==> ranked(h, q)[i].1 > 0,
        ranked(h, q).len() <= h.len(),
    decreases h.len(),
{
    if h.len() > 0 {
        let before = ranked(h.drop_last(), q);
        lemma_ranked_descending(h.drop_last(), q);
        let score = match_score(q, lowercase(h.last()));
        if score > 0 {
            let scores = before.map_values(|p: (Seq<char>, int)| p.1);
            let p = rank_position(scores, score);
            lemma_rank_position(scores, score);
            let after = before.insert(p, (h.last(), score));
            assert(after == ranked(h, q));
            assert forall|i: int, j: int| 0 <= i <= j < after.len() implies after[i].1
                >= after[j].1 by {
                if i < p {
                    assert(after[i] == before[i]);
                    assert(scores[i] == before[i].1);
                }
                if j > p {
                    assert(after[j] == before[j - 1]);
                }
                if i > p {
                    assert(after[i] == before[i - 1]);
                }
                if j < p {
                    assert(after[j] == before[j]);
                }
                if i < p && j > p {
                    assert(before[i].1 >= before[j - 1].1);
                }
                if i == p && j > p {
                    assert(scores[p] == before[p].1);
                    assert(before[p].1 >= before[j - 1].1);
                }
            }
            assert forall|i: int| 0 <= i < after.len() implies after[i].1 > 0 by {
                if i < p {
                    assert(after[i] == before[i]);
                } else if i > p {
                    assert(after[i] == before[i - 1]);
                }
            }
        }
    }
}

/// The line entered last is the latest of the history, and the history grows by at
/// most that line.
pub proof fn lemma_pushed_ends_with_entry(h: Seq<Seq<char>>, e: Seq<char>)
    ensures
        pushed(h, e).len() > 0,
        pushed(h, e).last() == e,
        pushed(h, e).len() == (if h.contains(e) {
            h.len()
        } else {
            h.len() + 1
        }),
{
    lemma_first_index_bounds(h, e);
    let i = first_index_of(h, e);
    if i < h.len() {
        assert(h[i] == e);
    } else if h.contains(e) {
        let k = choose|k: int| 0 <= k < h.len() && h[k] == e;
        assert(h[k] != e);
    }
}

/// Entering the same line twice is the same as entering it once.
pub proof fn lemma_pushed_twice(h: Seq<Seq<char>>, e: Seq<char>)
    requires
        h.no_duplicates(),
    ensures
        pushed(pushed(h, e), e) == pushed(h, e),
{
    lemma_first_index_bounds(h, e);
    lemma_pushed_ends_with_entry(h, e);
    let once = pushed(h, e);
    let i = first_index_of(h, e);
    let rest = once.drop_last();
    assert forall|k: int| 0 <= k < rest.len() implies rest[k] != e by {
        if i < h.len() {
            let k2 = if k < i {
                k
            } else {
                k + 1
            };
            assert(rest[k] == h[k2]);
            assert(h[i] == e);
        } else {
            assert(rest[k] == h[k]);
        }
    }
    assert forall|k: int| 0 <= k < once.len() - 1 implies once[k] != e by {
        assert(once[k] == rest[k]);
    }
    lemma_first_index_is(once, e, once.len() - 1);
    assert(once.remove(once.len() - 1).push(e) =~= once);
}

/// The history `h` without the line `e`.
pub open spec fn without(h: Seq<Seq<char>>, e: Seq<char>) -> Seq<Seq<char>> {
    let i = first_index_of(h, e);
    if i < h.len() {
        h.remove(i)
    } else {
        h
    }
}

/// A history without duplicates, with a line taken out, has no duplicates and lacks
/// that line; every other line is in it if and only if it was.
pub proof fn lemma_without(h: Seq<Seq<char>>, e: Seq<char>)
    requires
        h.no_duplicates(),
    ensures
        without(h, e).no_duplicates(),
        !without(h, e).contains(e),
        forall|x: Seq<char>| x != e ==> (#[trigger] without(h, e).contains(x) == h.contains(x)),
        pushed(h, e) == without(h, e).push(e),
        pushed(h, e).no_duplicates(),
{
    lemma_first_index_bounds(h, e);
    let i = first_index_of(h, e);
    if i < h.len() {
        crate::text::lemma_no_duplicates_remove(h, i);
    } else {
        if h.contains(e) {
            let k = choose|k: int| 0 <= k < h.len() && h[k] == e;
            assert(h[k] != e);
        }
    }
    crate::text::lemma_no_duplicates_push(without(h, e), e);
}

/// A line added at the end does not stand in the way when another line is taken out.
proof fn lemma_without_push_other(h: Seq<Seq<char>>, u: Seq<char>, t: Seq<char>)
    requires
        u != t,
    ensures
        without(h.push(u), t) == without(h, t).push(u),
{
    lemma_first_index_bounds(h, t);
    let i = first_index_of(h, t);
    let g = h.push(u);
    if i < h.len() {
        assert forall|k: int| 0 <= k < i implies g[k] != t by {
            assert(g[k] == h[k]);
        }
        assert(g[i] == h[i]);
        lemma_first_index_is(g, t, i);
        assert(g.remove(i) =~= h.remove(i).push(u));
    } else {
        assert forall|k: int| 0 <= k < g.len() implies g[k] != t by {
            if k < h.len() {
                assert(g[k] == h[k]);
            }
        }
        lemma_first_index_is(g, t, g.len() as int);
    }
}

/// A line added at the end of a history that lacks it is the one taken out again.
proof fn lemma_without_push_same(h: Seq<Seq<char>>, t: Seq<char>)
    requires
        !h.contains(t),
    ensures
        without(h.push(t), t) == h,
{
    let g = h.push(t);
    assert forall|k: int| 0 <= k < h.len() implies g[k] != t by {
        assert(g[k] == h[k]);
        assert(h.contains(h[k]));
    }
    lemma_first_index_is(g, t, h.len() as int);
    assert(g.remove(h.len() as int) =~= h);
}

/// Two different lines can be taken out in either order.
proof fn lemma_without_commutes(h: Seq<Seq<char>>, u: Seq<char>, t: Seq<char>)
    requires
        h.no_duplicates(),
        u != t,
    ensures
        without(without(h, u), t) == without(without(h, t), u),
{
    lemma_first_index_bounds(h, u);
    lemma_first_index_bounds(h, t);
    let i = first_index_of(h, u);
    let j = first_index_of(h, t);
    let hu = without(h, u);
    let ht = without(h, t);
    if i < h.len() && j < h.len() {
        // Both lines are there: taking one out moves the other by at most one place.
        let j2 = if j < i {
            j
        } else {
            j - 1
        };
        let i2 = if i < j {
            i
        } else {
            i - 1
        };
        assert(hu == h.remove(i));
        assert(ht == h.remove(j));
        assert forall|k: int| 0 <= k < j2 implies hu[k] != t by {
            let k0 = if k < i {
                k
            } else {
                k + 1
            };
            assert(hu[k] == h[k0]);
        }
        assert(hu[j2] == h[j]);
        lemma_first_index_is(hu, t, j2);
        assert forall|k: int| 0 <= k < i2 implies ht[k] != u by {
            let k0 = if k < j {
                k
            } else {
                k + 1
            };
            assert(ht[k] == h[k0]);
        }
        assert(ht[i2] == h[i]);
        lemma_first_index_is(ht, u, i2);
        assert(hu.remove(j2) =~= ht.remove(i2));
    } else if i < h.len() {
        lemma_without(h, u);
        assert(!h.contains(t)) by {
            if h.contains(t) {
                let k = choose|k: int| 0 <= k < h.len() && h[k] == t;
                assert(h[k] != t);
            }
        }
        assert(!hu.contains(t));
        assert(first_index_of(hu, t) == hu.len()) by {
            lemma_first_index_bounds(hu, t);
            if first_index_of(hu, t) < hu.len() {
                assert(hu.contains(hu[first_index_of(hu, t)]));
            }
        }
    } else if j < h.len() {
        lemma_without(h, t);
        assert(!h.contains(u)) by {
            if h.contains(u) {
                let k = choose|k: int| 0 <= k < h.len() && h[k] == u;
                assert(h[k] != u);
            }
        }
        assert(!ht.contains(u));
        assert(first_index_of(ht, u) == ht.len()) by {
            lemma_first_index_bounds(ht, u);
            if first_index_of(ht, u) < ht.len() {
                assert(ht.contains(ht[first_index_of(ht, u)]));
            }
        }
    }
}

/// Entering a line, then another, then the first again gives the same history as
/// entering the other and then the first.
pub proof fn lemma_pushed_absorbs(h: Seq<Seq<char>>, u: Seq<char>, t: Seq<char>)
    requires
        h.no_duplicates(),
    ensures
        pushed(pushed(pushed(h, t), u), t) == pushed(pushed(h, u), t),
{
    lemma_without(h, t);
    lemma_without(h, u);
    if u == t {
        lemma_pushed_twice(h, t);
        lemma_pushed_twice(pushed(h, t), t);
    } else {
        // Left: h without t and u, then u, then t.
        let a = without(h, t);
        let b = without(a, u);
        lemma_without(a, u);
        lemma_without_push_other(a, t, u);
        assert(pushed(pushed(h, t), u) == b.push(t).push(u)) by {
            lemma_without(a.push(t), u);
        }
        assert(!b.contains(t));
        lemma_without_push_same(b, t);
        lemma_without_push_other(b.push(t), u, t);
        crate::text::lemma_no_duplicates_push(b, t);
        assert(!b.push(t).contains(u)) by {
            if b.push(t).contains(u) {
                let k = choose|k: int| 0 <= k < b.push(t).len() && b.push(t)[k] == u;
                if k < b.len() {
                    assert(b.contains(b[k]));
                }
            }
        }
        crate::text::lemma_no_duplicates_push(b.push(t), u);
        lemma_without(b.push(t).push(u), t);
        assert(pushed(b.push(t).push(u), t) == b.push(u).push(t));
        // Right: h without u and t, then u, then t.
        let c = without(h, u);
        let d = without(c, t);
        lemma_without(c, t);
        lemma_without_push_other(c, u, t);
        assert(pushed(pushed(h, u), t) == d.push(u).push(t)) by {
            lemma_without(c.push(u), t);
        }
        lemma_without_commutes(h, u, t);
    }
}

/// Reading lines into a history without duplicates leaves it without duplicates.
pub proof fn lemma_loaded_no_duplicates(h: Seq<Seq<char>>, lines: Seq<Seq<char>>)
    requires
        h.no_duplicates(),
    ensures
        loaded(h, lines).no_duplicates(),
    decreases lines.len(),
{
    if lines.len() > 0 {
        lemma_loaded_no_duplicates(h, lines.drop_last());
        lemma_without(loaded(h, lines.drop_last()), trimmed(lines.last()));
    }
}

/// Whether a line was entered just before lines are read makes no difference once
/// the line is entered again after them.
proof fn lemma_loaded_after_push(h: Seq<Seq<char>>, t: Seq<char>, lines: Seq<Seq<char>>)
    requires
        h.no_duplicates(),
    ensures
        pushed(loaded(pushed(h, t), lines), t) == pushed(loaded(h, lines), t),
    decreases lines.len(),
{
    lemma_without(h, t);
    if lines.len() == 0 {
        lemma_pushed_twice(h, t);
    } else {
        let rest = lines.drop_last();
        let u = trimmed(lines.last());
        lemma_loaded_after_push(h, t, rest);
        if u.len() > 0 {
            let a = loaded(pushed(h, t), rest);
            let b = loaded(h, rest);
            lemma_loaded_no_duplicates(pushed(h, t), rest);
            lemma_loaded_no_duplicates(h, rest);
            lemma_pushed_absorbs(a, u, t);
            lemma_pushed_absorbs(b, u, t);
        }
    }
}

/// Reading the same lines a second time changes nothing; nor does reading again the
/// last of the lines that were read.
pub proof fn lemma_load_is_idempotent(
    h: Seq<Seq<char>>,
    before: Seq<Seq<char>>,
    lines: Seq<Seq<char>>,
)
    requires
        h.no_duplicates(),
    ensures
        loaded(loaded(h, before + lines), lines) == loaded(h, before + lines),
    decreases lines.len(),
{
    if lines.len() == 0 {
        assert(before + lines =~= before);
    } else {
        let rest = lines.drop_last();
        let t = trimmed(lines.last());
        let all = before + lines;
        assert(all.drop_last() =~= before + rest);
        assert(all.last() == lines.last());
        let z = loaded(h, before + rest);
        lemma_load_is_idempotent(h, before, rest);
        lemma_loaded_no_duplicates(h, before + rest);
        if t.len() > 0 {
            lemma_loaded_after_push(z, t, rest);
        }
    }
}

/// Reading the same lines twice gives the same history as reading them once.
pub proof fn lemma_load_twice(h: Seq<Seq<char>>, lines: Seq<Seq<char>>)
    requires
        h.no_duplicates(),
    ensures
        loaded(loaded(h, lines), lines) == loaded(h, lines),
{
    assert(Seq::<Seq<char>>::empty() + lines =~= lines);
    lemma_load_is_idempotent(h, Seq::empty(), lines);
}

/// Enters `entry` into a list without duplicates.
fn push_unique(entries: &mut Vec<String>, entry: String)
    requires
        views(old(entries)@).no_duplicates(),
    ensures
        views(final(entries)@) == pushed(views(old(entries)@), entry@),
        views(final(entries)@).no_duplicates(),
{
    let ghost h = views(entries@);
    let mut i: usize = 0;
    while i < entries.len() && !str_eq(entries[i].as_str(), entry.as_str())
        invariant
            i <= entries.len(),
            h == views(entries@),
            forall|k: int| 0 <= k < i ==> h[k] != entry@,
        decreases entries.len() - i,
    {
        i += 1;
    }
    proof {
        if i < entries.len() {
            assert(h[i as int] == entry@);
        }
        lemma_first_index_is(h, entry@, i as int);
    }
    if i < entries.len() {
        proof {
            lemma_views_remove(entries@, i as int);
        }
        entries.remove(i);
    }
    let ghost mid = views(entries@);
    proof {
        lemma_views_push(entries@, entry);
        assert forall|k: int| 0 <= k < mid.len() implies mid[k] != entry@ by {
            if i < h.len() {
                if k < i {
                    assert(mid[k] == h[k]);
                } else {
                    assert(mid[k] == h[k + 1]);
                }
            } else {
                assert(mid[k] == h[k]);
            }
        }
        assert forall|a: int, b: int| 0 <= a < mid.len() && 0 <= b < mid.len() && a
            != b implies mid[a] != mid[b] by {
            if i < h.len() {
                let a2 = if a < i {
                    a
                } else {
                    a + 1
                };
                let b2 = if b < i {
                    b
                } else {
                    b + 1
                };
                assert(mid[a] == h[a2]);
                assert(mid[b] == h[b2]);
            }
        }
    }
    entries.push(entry);
}

/// The log of executed command lines, oldest first. No line occurs twice.
pub struct CommandHistory {
    entries: Vec<String>,
    is_dirty: bool,
}

impl View for CommandHistory {
    type V = Seq<Seq<char>>;

    closed spec fn view(&self) -> Seq<Seq<char>> {
        views(self.entries@)
    }
}

impl CommandHistory {
    /// Whether the history has changed since it was last loaded or saved.
    pub closed spec fn dirty(&self) -> bool {
        self.is_dirty
    }

    /// No line occurs twice.
    pub open spec fn well_formed(&self) -> bool {
        self@.no_duplicates()
    }

    /// An empty history.
    pub fn new() -> (h: Self)
        ensures
            h@ == Seq::<Seq<char>>::empty(),
            !h.dirty(),
            h.well_formed(),
    {
        let h = CommandHistory { entries: Vec::new(), is_dirty: false };
        assert(h@ =~= Seq::<Seq<char>>::empty());
        h
    }

    /// Enters a command line. A line that the history already holds moves to the end.
    pub fn push_entry(&mut self, entry: String)
        requires
            old(self).well_formed(),
        ensures
            final(self)@ == pushed(old(self)@, entry@),
            final(self).dirty(),
            final(self).well_formed(),
    {
        push_unique(&mut self.entries, entry);
        self.is_dirty = true;
    }

    /// The line at `index`, or the latest line where `index` lies beyond it.
    pub fn get_entry(&self, index: usize) -> (r: &str)
        requires
            self@.len() > 0,
        ensures
            r@ == self@[if index < self@.len() {
                index as int
            } else {
                self@.len() - 1
            }],
    {
        let idx = if index < self.entries.len() {
            index
        } else {
            self.entries.len() - 1
        };
        self.entries[idx].as_str()
    }

    /// The number of lines.
    pub fn size(&self) -> (n: usize)
        ensures
            n == self@.len(),
    {
        self.entries.len()
    }

    /// Drops the oldest lines so that at most `max_size` remain.
    pub fn trim(&mut self, max_size: usize)
        requires
            old(self).well_formed(),
        ensures
            final(self)@ == latest(old(self)@, max_size as int),
            final(self).dirty() == old(self).dirty(),
            final(self).well_formed(),
    {
        let n = self.entries.len();
        if n > max_size {
            let ghost h = self@;
            let keep = crate::text::clone_range(&self.entries, n - max_size, n);
            self.entries = keep;
            proof {
                assert(h.subrange(n - max_size, n as int) =~= h.skip(n - max_size));
                let r = self@;
                assert forall|a: int, b: int| 0 <= a < r.len() && 0 <= b < r.len() && a
                    != b implies r[a] != r[b] by {
                    assert(r[a] == h[a + n - max_size]);
                    assert(r[b] == h[b + n - max_size]);
                }
            }
        }
    }

    /// Forgets every line.
    pub fn clear(&mut self)
        ensures
            final(self)@ == Seq::<Seq<char>>::empty(),
            final(self).dirty(),
            final(self).well_formed(),
    {
        self.entries = Vec::new();
        self.is_dirty = true;
        assert(self@ =~= Seq::<Seq<char>>::empty());
    }

    /// Takes in the lines of a stored history, in the order of the file. The history
    /// then counts as saved.
    pub fn load(&mut self, lines: &Vec<String>)
        requires
            old(self).well_formed(),
        ensures
            final(self)@ == loaded(old(self)@, views(lines@)),
            !final(self).dirty(),
            final(self).well_formed(),
    {
        let mut i: usize = 0;
        assert(views(lines@).take(0) =~= Seq::<Seq<char>>::empty());
        while i < lines.len()
            invariant
                i <= lines.len(),
                self.well_formed(),
                self@ == loaded(old(self)@, views(lines@).take(i as int)),
            decreases lines.len() - i,
        {
            let line = trim(lines[i].as_str());
            proof {
                let t = views(lines@).take(i + 1);
                assert(t.drop_last() =~= views(lines@).take(i as int));
                assert(t.last() == lines@[i as int]@);
            }
            if !line.as_str().is_empty() {
                push_unique(&mut self.entries, line);
            }
            i += 1;
        }
        assert(views(lines@).take(lines.len() as int) =~= views(lines@));
        self.is_dirty = false;
    }

    /// The lines to store, oldest first, where the history has changed since it was
    /// last loaded or saved: its latest `max_size` lines, so that no more than
    /// `max_size` lines are stored. The history then counts as saved. `None`, and
    /// nothing changes, where it has not changed. The history itself keeps all its
    /// lines.
    pub fn save(&mut self, max_size: usize) -> (lines: Option<Vec<String>>)
        ensures
            final(self)@ == old(self)@,
            !final(self).dirty(),
            old(self).dirty() ==> lines is Some && views(lines->0@) == latest(
                old(self)@,
                max_size as int,
            ),
            !old(self).dirty() ==> lines is None,
    {
        if !self.is_dirty {
            return None;
        }
        self.is_dirty = false;
        let n = self.entries.len();
        let from: usize = if n > max_size {
            n - max_size
        } else {
            0
        };
        proof {
            assert(self@.subrange(from as int, n as int) =~= latest(self@, max_size as int));
        }
        Some(crate::text::clone_range(&self.entries, from, n))
    }

    /// Records that the lines handed out by `save` could not be stored.
    pub fn save_failed(&mut self)
        ensures
            final(self)@ == old(self)@,
            final(self).dirty(),
    {
        self.is_dirty = true;
    }

    /// The lines, oldest first.
    pub fn entries(&self) -> (r: &Vec<String>)
        ensures
            views(r@) == self@,
    {
        &self.entries
    }

    /// The search for a query of which `query_lower` is the lower-case form, over
    /// entries of which `lowered` holds the lower-case forms.
    pub fn fuzzy_match_lowered(&self, query_lower: &str, lowered: &Vec<String>) -> (r: Vec<
        String,
    >)
        requires
            lowered.len() == self@.len(),
        ensures
            views(r@) == ranked_with(self@, views(lowered@), query_lower@).map_values(
                |p: (Seq<char>, int)| p.0,
            ),
    {
        let mut names: Vec<String> = Vec::new();
        let mut scores: Vec<u128> = Vec::new();
        let mut i: usize = 0;
        let ghost h = self@;
        let ghost low = views(lowered@);
        let ghost q = query_lower@;
        proof {
            assert(h.take(0) =~= Seq::<Seq<char>>::empty());
            assert(views(names@) =~= ranked_with(h.take(0), low.take(0), q).map_values(
                |p: (Seq<char>, int)| p.0,
            ));
            assert(scores@.map_values(|s: u128| s as int) =~= ranked_with(
                h.take(0),
                low.take(0),
                q,
            ).map_values(|p: (Seq<char>, int)| p.1));
        }
        while i < self.entries.len()
            invariant
                i <= self.entries.len(),
                h == self@,
                low == views(lowered@),
                q == query_lower@,
                h.len() == low.len(),
                names.len() == scores.len(),
                views(names@) == ranked_with(h.take(i as int), low.take(i as int), q).map_values(
                    |p: (Seq<char>, int)| p.0,
                ),
                scores@.map_values(|s: u128| s as int) == ranked_with(
                    h.take(i as int),
                    low.take(i as int),
                    q,
                ).map_values(|p: (Seq<char>, int)| p.1),
            decreases self.entries.len() - i,
        {
            let score = compute_match_score(query_lower, lowered[i].as_str());
            let ghost before = ranked_with(h.take(i as int), low.take(i as int), q);
            let ghost bscores = before.map_values(|p: (Seq<char>, int)| p.1);
            proof {
                assert(h.take(i + 1).drop_last() =~= h.take(i as int));
                assert(low.take(i + 1).drop_last() =~= low.take(i as int));
                assert(h.take(i + 1).last() == h[i as int]);
                assert(low.take(i + 1).last() == lowered@[i as int]@);
            }
            if score > 0 {
                let mut p: usize = 0;
                while p < scores.len() && scores[p] >= score
                    invariant
                        p <= scores.len(),
                        scores@.map_values(|s: u128| s as int) == bscores,
                        forall|k: int| 0 <= k < p ==> bscores[k] >= score,
                    decreases scores.len() - p,
                {
                    assert(bscores[p as int] == scores@[p as int] as int);
                    p += 1;
                }
                proof {
                    if p < scores.len() {
                        assert(bscores[p as int] == scores@[p as int] as int);
                    }
                    lemma_rank_position_is(bscores, score as int, p as int);
                    let e = self.entries@[i as int];
                    assert(views(names@.insert(p as int, e)) =~= views(names@).insert(
                        p as int,
                        e@,
                    ));
                    let after = before.insert(p as int, (h[i as int], score as int));
                    assert(views(names@).insert(p as int, e@) =~= after.map_values(
                        |p: (Seq<char>, int)| p.0,
                    ));
                    let lhs = scores@.insert(p as int, score).map_values(|s: u128| s as int);
                    let rhs = after.map_values(|p: (Seq<char>, int)| p.1);
                    assert(lhs.len() == rhs.len());
                    assert forall|k: int| 0 <= k < lhs.len() implies lhs[k] == rhs[k] by {
                        if k < p {
                            assert(bscores[k] == scores@[k] as int);
                            assert(bscores[k] == before[k].1);
                        } else if k > p {
                            assert(bscores[k - 1] == scores@[k - 1] as int);
                            assert(bscores[k - 1] == before[k - 1].1);
                        }
                    }
                    assert(lhs =~= rhs);
                }
                names.insert(p, self.entries[i].clone());
                scores.insert(p, score);
            }
            i += 1;
        }
        proof {
            assert(h.take(h.len() as int) =~= h);
            assert(low.take(low.len() as int) =~= low);
        }
        names
    }

    /// The lines that match `query`, most relevant first. Case is ignored. For the
    /// empty query these are all lines, latest first.
    pub fn fuzzy_match(&self, query: &str) -> (r: Vec<String>)
        ensures
            views(r@) == search_result(self@, query@),
    {
        if query.is_empty() {
            let mut r: Vec<String> = Vec::new();
            let mut i: usize = self.entries.len();
            let ghost h = self@;
            while i > 0
                invariant
                    i <= self.entries.len(),
                    h == self@,
                    views(r@) == h.skip(i as int).reverse(),
                decreases i,
            {
                i -= 1;
                proof {
                    lemma_views_push(r@, self.entries@[i as int]);
                    assert(h.skip(i as int).reverse() =~= h.skip(i + 1).reverse().push(
                        h[i as int],
                    ));
                }
                r.push(self.entries[i].clone());
            }
            assert(h.skip(0) =~= h);
            return r;
        }
        let query_lower = query.to_lowercase();
        let mut lowered: Vec<String> = Vec::new();
        let mut i: usize = 0;
        while i < self.entries.len()
            invariant
                i <= self.entries.len(),
                lowered.len() == i,
                forall|k: int| 0 <= k < i ==> lowered@[k]@ == lowercase(self@[k]),
            decreases self.entries.len() - i,
        {
            lowered.push(self.entries[i].to_lowercase());
            i += 1;
        }
        proof {
            lemma_ranked_with(self@, views(lowered@), lowercase(query@));
        }
        self.fuzzy_match_lowered(query_lower.as_str(), &lowered)
    }

    /// A cursor over a snapshot of the lines, standing before them.
    pub fn create_iterator(&self) -> (it: WrappingIterator)
        ensures
            it@ == self@,
            it.position() == -1,
    {
        WrappingIterator { pos: None, entries: clone_strings(&self.entries) }
    }

    /// Gives `iter` a fresh snapshot of the lines and puts it before them.
    pub fn reassign_iterator(&self, iter: &mut WrappingIterator)
        ensures
            final(iter)@ == self@,
            final(iter).position() == -1,
    {
        iter.pos = None;
        iter.entries = clone_strings(&self.entries);
    }
}

/// `ranked`, with the lower-case form of each entry given in `low` instead of
/// computed.
pub open spec fn ranked_with(h: Seq<Seq<char>>, low: Seq<Seq<char>>, q: Seq<char>) -> Seq<
    (Seq<char>, int),
>
    decreases h.len(),
{
    if h.len() == 0 || low.len() != h.len() {
        Seq::empty()
    } else {
        let before = ranked_with(h.drop_last(), low.drop_last(), q);
        let score = match_score(q, low.last());
        if score > 0 {
            before.insert(
                rank_position(before.map_values(|p: (Seq<char>, int)| p.1), score),
                (h.last(), score),
            )
        } else {
            before
        }
    }
}

/// Where `low` holds the lower-case forms of the entries, `ranked_with` is `ranked`.
pub proof fn lemma_ranked_with(h: Seq<Seq<char>>, low: Seq<Seq<char>>, q: Seq<char>)
    requires
        low.len() == h.len(),
        forall|k: int| 0 <= k < h.len() ==> low[k] == lowercase(h[k]),
    ensures
        ranked_with(h, low, q) == ranked(h, q),
    decreases h.len(),
{
    if h.len() > 0 {
        lemma_ranked_with(h.drop_last(), low.drop_last(), q);
    }
}

/// A cursor over a snapshot of the history. Its position runs from -1, before the
/// lines, to the index of the latest line, and wraps round at both ends.
pub struct WrappingIterator {
    pos: Option<usize>,
    entries: Vec<String>,
}

impl View for WrappingIterator {
    type V = Seq<Seq<char>>;

    closed spec fn view(&self) -> Seq<Seq<char>> {
        views(self.entries@)
    }
}

impl WrappingIterator {
    /// The position: -1 before the lines, else the index of the line pointed at.
    pub closed spec fn position(&self) -> int {
        match self.pos {
            None => -1,
            Some(i) => i as int,
        }
    }

    /// The position lies between -1 and the index of the latest line.
    pub open spec fn well_formed(&self) -> bool {
        -1 <= self.position() < self@.len()
    }

    /// The line at position `p` of the snapshot `h`; the empty line at -1.
    pub open spec fn line_at(h: Seq<Seq<char>>, p: int) -> Seq<char> {
        if 0 <= p < h.len() {
            h[p]
        } else {
            Seq::empty()
        }
    }

    /// The position one step back from `p`, wrapping from -1 round to the latest line.
    pub open spec fn step_back(h: Seq<Seq<char>>, p: int) -> int {
        if h.len() == 0 {
            p
        } else if p <= -1 {
            h.len() - 1
        } else {
            p - 1
        }
    }

    /// The position one step on from `p`, wrapping from the latest line round to -1.
    pub open spec fn step_on(h: Seq<Seq<char>>, p: int) -> int {
        if h.len() == 0 {
            p
        } else if p + 1 >= h.len() {
            -1
        } else {
            p + 1
        }
    }

    /// A step back and a step on undo each other, in either order, from any
    /// position between -1 and the index of the latest line.
    pub proof fn lemma_steps_undo(h: Seq<Seq<char>>, p: int)
        requires
            -1 <= p < h.len(),
        ensures
            Self::step_on(h, Self::step_back(h, p)) == p,
            Self::step_back(h, Self::step_on(h, p)) == p,
            -1 <= Self::step_back(h, p) < h.len(),
            -1 <= Self::step_on(h, p) < h.len(),
    {
    }

    /// The line pointed at.
    fn line(&self) -> (r: String)
        requires
            self.well_formed(),
        ensures
            r@ == Self::line_at(self@, self.position()),
    {
        match self.pos {
            None => String::new(),
            Some(i) => self.entries[i].clone(),
        }
    }

    /// Steps back, towards older lines, and returns the line reached. On an empty
    /// snapshot nothing moves and the empty line is returned.
    pub fn prev(&mut self) -> (r: String)
        requires
            old(self).well_formed(),
        ensures
            final(self)@ == old(self)@,
            final(self).well_formed(),
            final(self).position() == Self::step_back(old(self)@, old(self).position()),
            r@ == Self::line_at(old(self)@, final(self).position()),
    {
        if self.entries.len() == 0 {
            return String::new();
        }
        self.pos = match self.pos {
            None => Some(self.entries.len() - 1),
            Some(i) => if i == 0 {
                None
            } else {
                Some(i - 1)
            },
        };
        self.line()
    }

    /// Steps on, towards newer lines, and returns the line reached. On an empty
    /// snapshot nothing moves and the empty line is returned.
    pub fn next(&mut self) -> (r: String)
        requires
            old(self).well_formed(),
        ensures
            final(self)@ == old(self)@,
            final(self).well_formed(),
            final(self).position() == Self::step_on(old(self)@, old(self).position()),
            r@ == Self::line_at(old(self)@, final(self).position()),
    {
        if self.entries.len() == 0 {
            return String::new();
        }
        self.pos = match self.pos {
            None => Some(0),
            Some(i) => if i + 1 >= self.entries.len() {
                None
            } else {
                Some(i + 1)
            },
        };
        self.line()
    }

    /// The line pointed at; the empty line before the lines.
    pub fn current(&self) -> (r: String)
        ensures
            r@ == Self::line_at(self@, self.position()),
    {
        match self.pos {
            None => String::new(),
            Some(i) => if i < self.entries.len() {
                self.entries[i].clone()
            } else {
                String::new()
            },
        }
    }

    /// Puts the cursor back before the lines.
    pub fn reset(&mut self)
        ensures
            final(self)@ == old(self)@,
            final(self).position() == -1,
    {
        self.pos = None;
    }
}

} // verus!

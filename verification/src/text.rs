//! Strings as sequences of characters: the small vocabulary of text operations
//! that the rest of the console is written in.

use vstd::prelude::*;

verus! {

/// `String::push` appends one character to the end of the string.
pub assume_specification[ String::push ](s: &mut String, ch: char)
    ensures
        final(s)@ == old(s)@.push(ch),
;

/// The lower-case form of a text, as the Unicode character database maps it.
pub uninterp spec fn lowercase(s: Seq<char>) -> Seq<char>;

/// `str::to_lowercase` returns the lower-case form of the string: a function of its
/// characters alone.
pub assume_specification[ str::to_lowercase ](s: &str) -> (r: String)
    ensures
        r@ == lowercase(s@),
;

/// The upper-case form of a text, as the Unicode character database maps it.
pub uninterp spec fn uppercase(s: Seq<char>) -> Seq<char>;

/// `str::to_uppercase` returns the upper-case form of the string: a function of its
/// characters alone.
pub assume_specification[ str::to_uppercase ](s: &str) -> (r: String)
    ensures
        r@ == uppercase(s@),
;

/// The character sequences of a list of strings.
pub open spec fn views(v: Seq<String>) -> Seq<Seq<char>> {
    Seq::new(v.len(), |i: int| v[i]@)
}

/// The views of a list extended by one string.
pub proof fn lemma_views_push(v: Seq<String>, s: String)
    ensures
        views(v.push(s)) == views(v).push(s@),
{
    assert(views(v.push(s)) =~= views(v).push(s@));
}

/// The views of a list with the string at position `i` taken out.
pub proof fn lemma_views_remove(v: Seq<String>, i: int)
    requires
        0 <= i < v.len(),
    ensures
        views(v.remove(i)) == views(v).remove(i),
{
    assert(views(v.remove(i)) =~= views(v).remove(i));
}

/// The characters of `s`, in order.
pub fn chars_of(s: &str) -> (v: Vec<char>)
    ensures
        v@ == s@,
{
    let mut v: Vec<char> = Vec::new();
    for c in it: s.chars()
        invariant
            v@ == it.seq().take(it.index() as int),
    {
        v.push(c);
    }
    v
}

/// The string made of the characters `v[from..to]`, in order.
pub fn string_of_range(v: &Vec<char>, from: usize, to: usize) -> (s: String)
    requires
        from <= to <= v.len(),
    ensures
        s@ == v@.subrange(from as int, to as int),
{
    let mut s = String::new();
    let mut i: usize = from;
    while i < to
        invariant
            from <= i <= to <= v.len(),
            s@ == v@.subrange(from as int, i as int),
        decreases to - i,
    {
        s.push(v[i]);
        i += 1;
        assert(v@.subrange(from as int, i as int) == v@.subrange(from as int, i - 1).push(
            v@[i - 1],
        ));
    }
    s
}

/// The string made of the characters of `v`, in order.
pub fn string_of(v: &Vec<char>) -> (s: String)
    ensures
        s@ == v@,
{
    assert(v@.subrange(0, v.len() as int) == v@);
    string_of_range(v, 0, v.len())
}

/// Whether two strings hold the same characters.
pub fn str_eq(a: &str, b: &str) -> (r: bool)
    ensures
        r == (a@ == b@),
{
    let x = chars_of(a);
    let y = chars_of(b);
    if x.len() != y.len() {
        return false;
    }
    let mut i: usize = 0;
    while i < x.len()
        invariant
            i <= x.len(),
            x.len() == y.len(),
            x@ == a@,
            y@ == b@,
            forall|k: int| 0 <= k < i ==> x@[k] == y@[k],
        decreases x.len() - i,
    {
        if x[i] != y[i] {
            return false;
        }
        i += 1;
    }
    assert(x@ =~= y@);
    true
}

/// Whether `s` begins with `prefix`.
pub fn starts_with(s: &str, prefix: &str) -> (r: bool)
    ensures
        r == prefix@.is_prefix_of(s@),
{
    let x = chars_of(s);
    let p = chars_of(prefix);
    if p.len() > x.len() {
        return false;
    }
    let mut i: usize = 0;
    while i < p.len()
        invariant
            i <= p.len() <= x.len(),
            x@ == s@,
            p@ == prefix@,
            forall|k: int| 0 <= k < i ==> x@[k] == p@[k],
        decreases p.len() - i,
    {
        if x[i] != p[i] {
            return false;
        }
        i += 1;
    }
    assert(p@ =~= x@.subrange(0, p@.len() as int));
    true
}

/// Whether `s` ends with `suffix`.
pub fn ends_with(s: &str, suffix: &str) -> (r: bool)
    ensures
        r == suffix@.is_suffix_of(s@),
{
    let x = chars_of(s);
    let p = chars_of(suffix);
    if p.len() > x.len() {
        return false;
    }
    let d: usize = x.len() - p.len();
    let mut i: usize = 0;
    while i < p.len()
        invariant
            i <= p.len() <= x.len(),
            d == x.len() - p.len(),
            x@ == s@,
            p@ == suffix@,
            forall|k: int| 0 <= k < i ==> x@[d + k] == p@[k],
        decreases p.len() - i,
    {
        if x[d + i] != p[i] {
            assert(x@.subrange(d as int, x@.len() as int)[i as int] == x@[d + i]);
            return false;
        }
        i += 1;
    }
    assert(p@ =~= x@.subrange(x@.len() - p@.len(), x@.len() as int));
    true
}

/// Whether the character `c` occurs in `s`.
pub fn contains_char(s: &str, c: char) -> (r: bool)
    ensures
        r == s@.contains(c),
{
    let x = chars_of(s);
    let mut i: usize = 0;
    while i < x.len()
        invariant
            i <= x.len(),
            x@ == s@,
            forall|k: int| 0 <= k < i ==> x@[k] != c,
        decreases x.len() - i,
    {
        if x[i] == c {
            return true;
        }
        i += 1;
    }
    false
}

/// Whether `s` occurs in the list `v`.
pub fn contains_string(v: &Vec<String>, s: &str) -> (r: bool)
    ensures
        r == views(v@).contains(s@),
{
    let mut i: usize = 0;
    while i < v.len()
        invariant
            i <= v.len(),
            forall|k: int| 0 <= k < i ==> views(v@)[k] != s@,
        decreases v.len() - i,
    {
        if str_eq(v[i].as_str(), s) {
            assert(views(v@)[i as int] == s@);
            return true;
        }
        i += 1;
    }
    false
}

/// A copy of the strings `v[from..to]`.
pub fn clone_range(v: &Vec<String>, from: usize, to: usize) -> (r: Vec<String>)
    requires
        from <= to <= v.len(),
    ensures
        views(r@) == views(v@).subrange(from as int, to as int),
{
    let mut r: Vec<String> = Vec::new();
    let mut i: usize = from;
    while i < to
        invariant
            from <= i <= to <= v.len(),
            views(r@) == views(v@).subrange(from as int, i as int),
        decreases to - i,
    {
        proof {
            lemma_views_push(r@, v@[i as int]);
        }
        r.push(v[i].clone());
        i += 1;
        assert(views(r@) =~= views(v@).subrange(from as int, i as int));
    }
    r
}

/// A copy of the list of strings `v`.
pub fn clone_strings(v: &Vec<String>) -> (r: Vec<String>)
    ensures
        views(r@) == views(v@),
{
    assert(views(v@).subrange(0, v.len() as int) == views(v@));
    clone_range(v, 0, v.len())
}

/// Unicode white space: the characters that `trim` removes from both ends.
pub open spec fn is_whitespace(c: char) -> bool {
    ||| '\u{9}' <= c <= '\u{d}'
    ||| c == ' '
    ||| c == '\u{85}'
    ||| c == '\u{a0}'
    ||| c == '\u{1680}'
    ||| '\u{2000}' <= c <= '\u{200a}'
    ||| c == '\u{2028}'
    ||| c == '\u{2029}'
    ||| c == '\u{202f}'
    ||| c == '\u{205f}'
    ||| c == '\u{3000}'
}

/// Whether `c` is white space.
pub fn is_whitespace_char(c: char) -> (r: bool)
    ensures
        r == is_whitespace(c),
{
    (c >= '\u{9}' && c <= '\u{d}') || c == ' ' || c == '\u{85}' || c == '\u{a0}' || c
        == '\u{1680}' || (c >= '\u{2000}' && c <= '\u{200a}') || c == '\u{2028}' || c
        == '\u{2029}' || c == '\u{202f}' || c == '\u{205f}' || c == '\u{3000}'
}

/// `s` without its leading white space.
pub open spec fn trim_start(s: Seq<char>) -> Seq<char>
    decreases s.len(),
{
    if s.len() > 0 && is_whitespace(s[0]) {
        trim_start(s.drop_first())
    } else {
        s
    }
}

/// `s` without its trailing white space.
pub open spec fn trim_end(s: Seq<char>) -> Seq<char>
    decreases s.len(),
{
    if s.len() > 0 && is_whitespace(s.last()) {
        trim_end(s.drop_last())
    } else {
        s
    }
}

/// `s` without its leading and trailing white space.
pub open spec fn trimmed(s: Seq<char>) -> Seq<char> {
    trim_end(trim_start(s))
}

/// Skipping `i` leading white-space characters does not change what remains after trimming.
pub proof fn lemma_trim_start_skip(s: Seq<char>, i: int)
    requires
        0 <= i <= s.len(),
        forall|k: int| 0 <= k < i ==> is_whitespace(s[k]),
    ensures
        trim_start(s) == trim_start(s.skip(i)),
    decreases i,
{
    if i == 0 {
        assert(s.skip(0) =~= s);
    } else {
        lemma_trim_start_skip(s.drop_first(), i - 1);
        assert(s.drop_first().skip(i - 1) =~= s.skip(i));
    }
}

/// Dropping trailing white-space characters does not change what remains after trimming.
pub proof fn lemma_trim_end_take(s: Seq<char>, j: int)
    requires
        0 <= j <= s.len(),
        forall|k: int| j <= k < s.len() ==> is_whitespace(s[k]),
    ensures
        trim_end(s) == trim_end(s.take(j)),
    decreases s.len() - j,
{
    if j == s.len() {
        assert(s.take(j) =~= s);
    } else {
        lemma_trim_end_take(s.drop_last(), j);
        assert(s.drop_last().take(j) =~= s.take(j));
    }
}

/// The trimmed characters of `s`.
pub fn trim_chars(s: &str) -> (r: Vec<char>)
    ensures
        r@ == trimmed(s@),
{
    let x = chars_of(s);
    let mut i: usize = 0;
    while i < x.len() && is_whitespace_char(x[i])
        invariant
            i <= x.len(),
            forall|k: int| 0 <= k < i ==> is_whitespace(x@[k]),
        decreases x.len() - i,
    {
        i += 1;
    }
    let mut j: usize = x.len();
    while j > i && is_whitespace_char(x[j - 1])
        invariant
            i <= j <= x.len(),
            forall|k: int| j <= k < x.len() ==> is_whitespace(x@[k]),
        decreases j,
    {
        j -= 1;
    }
    let mut r: Vec<char> = Vec::new();
    let mut k: usize = i;
    while k < j
        invariant
            i <= k <= j <= x.len(),
            r@ == x@.subrange(i as int, k as int),
        decreases j - k,
    {
        r.push(x[k]);
        k += 1;
        assert(x@.subrange(i as int, k as int) == x@.subrange(i as int, k - 1).push(x@[k - 1]));
    }
    proof {
        let t = x@.skip(i as int);
        lemma_trim_start_skip(x@, i as int);
        assert(trim_start(x@) == t);
        assert forall|k: int| j - i <= k < t.len() implies is_whitespace(t[k]) by {
            assert(t[k] == x@[k + i]);
        }
        lemma_trim_end_take(t, j - i);
        assert(t.take(j - i) =~= x@.subrange(i as int, j as int));
        let u = t.take(j - i);
        if u.len() > 0 {
            assert(u.last() == x@[j - 1]);
        }
        assert(trim_end(u) == u);
    }
    r
}

/// `s` without its leading and trailing white space.
pub fn trim(s: &str) -> (r: String)
    ensures
        r@ == trimmed(s@),
{
    let v = trim_chars(s);
    string_of(&v)
}

/// The position of the first item equal to `sep` in `s`, or the length of `s` if there
/// is none.
pub open spec fn first_index_of<A>(s: Seq<A>, sep: A) -> int
    decreases s.len(),
{
    if s.len() == 0 {
        0
    } else if s[0] == sep {
        0
    } else {
        1 + first_index_of(s.drop_first(), sep)
    }
}

/// The pieces of `s` between occurrences of `sep`. There is always at least one piece;
/// a piece is empty where two separators touch or one stands at an end.
pub open spec fn split_on(s: Seq<char>, sep: char) -> Seq<Seq<char>>
    decreases s.len(),
    via split_on_decreases
{
    let i = first_index_of(s, sep);
    if i < s.len() {
        seq![s.take(i)] + split_on(s.skip(i + 1), sep)
    } else {
        seq![s]
    }
}

/// What remains after the first separator is shorter than the whole.
#[via_fn]
proof fn split_on_decreases(s: Seq<char>, sep: char) {
    lemma_first_index_bounds(s, sep);
}

/// `first_index_of` lies within the sequence, no separator stands before it, and one
/// stands at it unless it is the length.
pub proof fn lemma_first_index_bounds<A>(s: Seq<A>, sep: A)
    ensures
        0 <= first_index_of(s, sep) <= s.len(),
        forall|k: int| 0 <= k < first_index_of(s, sep) ==> s[k] != sep,
        first_index_of(s, sep) < s.len() ==> s[first_index_of(s, sep)] == sep,
    decreases s.len(),
{
    if s.len() > 0 && s[0] != sep {
        let t = s.drop_first();
        lemma_first_index_bounds(t, sep);
        assert forall|k: int| 0 <= k < first_index_of(s, sep) implies s[k] != sep by {
            if k > 0 {
                assert(s[k] == t[k - 1]);
            }
        }
    }
}

/// The first index of `sep` is `i` when no separator stands before `i` and `i` is the
/// length or holds one.
pub proof fn lemma_first_index_is<A>(s: Seq<A>, sep: A, i: int)
    requires
        0 <= i <= s.len(),
        forall|k: int| 0 <= k < i ==> s[k] != sep,
        i < s.len() ==> s[i] == sep,
    ensures
        first_index_of(s, sep) == i,
{
    lemma_first_index_bounds(s, sep);
    let f = first_index_of(s, sep);
    if f < i {
        assert(s[f] == sep);
    } else if f > i {
        assert(s[i] != sep);
    }
}

/// The pieces of `s` between occurrences of `sep`.
pub fn split(s: &str, sep: char) -> (r: Vec<String>)
    ensures
        views(r@) == split_on(s@, sep),
{
    let x = chars_of(s);
    let mut r: Vec<String> = Vec::new();
    let mut start: usize = 0;
    let mut cur: usize = 0;
    proof {
        assert(x@.skip(0) =~= x@);
        assert(views(r@) + split_on(x@, sep) =~= split_on(x@, sep));
    }
    while cur < x.len()
        invariant
            start <= cur <= x.len(),
            x@ == s@,
            forall|k: int| start <= k < cur ==> x@[k] != sep,
            split_on(x@, sep) == views(r@) + split_on(x@.skip(start as int), sep),
        decreases x.len() - cur,
    {
        if x[cur] == sep {
            let piece = string_of_range(&x, start, cur);
            proof {
                let t = x@.skip(start as int);
                assert forall|k: int| 0 <= k < cur - start implies t[k] != sep by {
                    assert(t[k] == x@[start + k]);
                }
                lemma_first_index_is(t, sep, cur - start);
                assert(t.take(cur - start) =~= x@.subrange(start as int, cur as int));
                assert(t.skip(cur - start + 1) =~= x@.skip(cur + 1));
                lemma_views_push(r@, piece);
                assert(split_on(t, sep) == seq![piece@] + split_on(x@.skip(cur + 1), sep));
                assert(views(r@) + (seq![piece@] + split_on(x@.skip(cur + 1), sep)) =~= views(
                    r@,
                ).push(piece@) + split_on(x@.skip(cur + 1), sep));
            }
            r.push(piece);
            start = cur + 1;
        }
        cur += 1;
    }
    let piece = string_of_range(&x, start, x.len());
    proof {
        let t = x@.skip(start as int);
        assert forall|k: int| 0 <= k < t.len() implies t[k] != sep by {
            assert(t[k] == x@[start + k]);
        }
        lemma_first_index_is(t, sep, t.len() as int);
        assert(t =~= x@.subrange(start as int, x@.len() as int));
        lemma_views_push(r@, piece);
        assert(views(r@) + seq![t] =~= views(r@).push(piece@));
    }
    r.push(piece);
    r
}

/// The pieces of `parts` written one after another with `sep` between neighbours.
pub open spec fn join_on(parts: Seq<Seq<char>>, sep: Seq<char>) -> Seq<char>
    decreases parts.len(),
{
    if parts.len() == 0 {
        Seq::empty()
    } else if parts.len() == 1 {
        parts[0]
    } else {
        join_on(parts.drop_last(), sep) + sep + parts.last()
    }
}

/// The strings `parts[from..to]` written one after another with `sep` between neighbours.
pub fn join_range(parts: &Vec<String>, from: usize, to: usize, sep: &str) -> (r: String)
    requires
        from <= to <= parts.len(),
    ensures
        r@ == join_on(views(parts@).subrange(from as int, to as int), sep@),
{
    let mut r = String::new();
    let mut i: usize = from;
    while i < to
        invariant
            from <= i <= to <= parts.len(),
            r@ == join_on(views(parts@).subrange(from as int, i as int), sep@),
        decreases to - i,
    {
        if i > from {
            r.append(sep);
        }
        r.append(parts[i].as_str());
        proof {
            let a = views(parts@).subrange(from as int, i as int);
            let b = views(parts@).subrange(from as int, i + 1);
            assert(b.drop_last() =~= a);
            assert(b.last() == parts@[i as int]@);
            if i == from {
                assert(a.len() == 0);
                assert(b.len() == 1);
                assert(Seq::<char>::empty() + parts@[i as int]@ =~= parts@[i as int]@);
            }
        }
        i += 1;
    }
    r
}

/// The strings of `parts` written one after another with `sep` between neighbours.
pub fn join(parts: &Vec<String>, sep: &str) -> (r: String)
    ensures
        r@ == join_on(views(parts@), sep@),
{
    assert(views(parts@).subrange(0, parts.len() as int) =~= views(parts@));
    join_range(parts, 0, parts.len(), sep)
}

/// Whether `a` comes before `b`, or is `b`, in the order of a dictionary whose
/// alphabet is the characters by their code points.
pub open spec fn lex_le(a: Seq<char>, b: Seq<char>) -> bool
    decreases a.len(),
{
    if a.len() == 0 {
        true
    } else if b.len() == 0 {
        false
    } else if a[0] != b[0] {
        a[0] < b[0]
    } else {
        lex_le(a.drop_first(), b.drop_first())
    }
}

/// Whether `s` is in dictionary order.
pub open spec fn sorted(s: Seq<Seq<char>>) -> bool {
    forall|i: int, j: int| 0 <= i <= j < s.len() ==> lex_le(#[trigger] s[i], #[trigger] s[j])
}

/// Of two texts one comes before the other, or they are in order both ways.
pub proof fn lemma_lex_total(a: Seq<char>, b: Seq<char>)
    ensures
        lex_le(a, b) || lex_le(b, a),
    decreases a.len(),
{
    if a.len() > 0 && b.len() > 0 && a[0] == b[0] {
        lemma_lex_total(a.drop_first(), b.drop_first());
    }
}

/// Every text is in order with itself.
pub proof fn lemma_lex_reflexive(a: Seq<char>)
    ensures
        lex_le(a, a),
    decreases a.len(),
{
    if a.len() > 0 {
        lemma_lex_reflexive(a.drop_first());
    }
}

/// Dictionary order is transitive.
pub proof fn lemma_lex_transitive(a: Seq<char>, b: Seq<char>, c: Seq<char>)
    requires
        lex_le(a, b),
        lex_le(b, c),
    ensures
        lex_le(a, c),
    decreases a.len(),
{
    if a.len() > 0 {
        if a[0] == b[0] && b[0] == c[0] {
            lemma_lex_transitive(a.drop_first(), b.drop_first(), c.drop_first());
        }
    }
}

/// Two texts that are in order both ways are equal.
pub proof fn lemma_lex_antisymmetric(a: Seq<char>, b: Seq<char>)
    requires
        lex_le(a, b),
        lex_le(b, a),
    ensures
        a == b,
    decreases a.len(),
{
    if a.len() > 0 {
        lemma_lex_antisymmetric(a.drop_first(), b.drop_first());
        assert(a =~= seq![a[0]] + a.drop_first());
        assert(b =~= seq![b[0]] + b.drop_first());
    } else {
        assert(a =~= b);
    }
}

/// Passing over a common beginning does not change the order of two texts.
proof fn lemma_lex_skip(a: Seq<char>, b: Seq<char>, i: int)
    requires
        0 <= i <= a.len(),
        i <= b.len(),
        forall|k: int| 0 <= k < i ==> a[k] == b[k],
    ensures
        lex_le(a, b) == lex_le(a.skip(i), b.skip(i)),
    decreases i,
{
    if i == 0 {
        assert(a.skip(0) =~= a);
        assert(b.skip(0) =~= b);
    } else {
        assert forall|k: int| 0 <= k < i - 1 implies a.drop_first()[k] == b.drop_first()[k] by {
            assert(a.drop_first()[k] == a[k + 1]);
            assert(b.drop_first()[k] == b[k + 1]);
        }
        lemma_lex_skip(a.drop_first(), b.drop_first(), i - 1);
        assert(a.drop_first().skip(i - 1) =~= a.skip(i));
        assert(b.drop_first().skip(i - 1) =~= b.skip(i));
    }
}

/// Whether `a` comes before `b`, or is `b`, in dictionary order.
pub fn str_le(a: &str, b: &str) -> (r: bool)
    ensures
        r == lex_le(a@, b@),
{
    let x = chars_of(a);
    let y = chars_of(b);
    let mut i: usize = 0;
    while i < x.len() && i < y.len() && x[i] == y[i]
        invariant
            i <= x.len(),
            i <= y.len(),
            forall|k: int| 0 <= k < i ==> x@[k] == y@[k],
        decreases x.len() - i,
    {
        i += 1;
    }
    proof {
        lemma_lex_skip(x@, y@, i as int);
        if i < x.len() {
            assert(x@.skip(i as int)[0] == x@[i as int]);
        }
        if i < y.len() {
            assert(y@.skip(i as int)[0] == y@[i as int]);
        }
    }
    if i == x.len() {
        true
    } else if i == y.len() {
        false
    } else {
        x[i] < y[i]
    }
}

/// The place of `e` in the ordered list `r`: before the first item that comes after
/// it, or at the end.
pub open spec fn insert_position(r: Seq<Seq<char>>, e: Seq<char>) -> int
    decreases r.len(),
{
    if r.len() == 0 {
        0
    } else if !lex_le(r[0], e) {
        0
    } else {
        1 + insert_position(r.drop_first(), e)
    }
}

/// The items of `s` in dictionary order.
pub open spec fn sort_of(s: Seq<Seq<char>>) -> Seq<Seq<char>>
    decreases s.len(),
{
    if s.len() == 0 {
        Seq::empty()
    } else {
        let r = sort_of(s.drop_last());
        r.insert(insert_position(r, s.last()), s.last())
    }
}

/// `insert_position` lies within the list; what stands before it does not come
/// after `e`, and what stands at it does.
pub proof fn lemma_insert_position(r: Seq<Seq<char>>, e: Seq<char>)
    ensures
        0 <= insert_position(r, e) <= r.len(),
        forall|k: int| 0 <= k < insert_position(r, e) ==> lex_le(#[trigger] r[k], e),
        insert_position(r, e) < r.len() ==> !lex_le(r[insert_position(r, e)], e),
    decreases r.len(),
{
    if r.len() > 0 && lex_le(r[0], e) {
        let t = r.drop_first();
        lemma_insert_position(t, e);
        assert forall|k: int| 0 <= k < insert_position(r, e) implies lex_le(
            #[trigger] r[k],
            e,
        ) by {
            if k > 0 {
                assert(r[k] == t[k - 1]);
            }
        }
    }
}

/// The place is `p` when nothing before `p` comes after `e` and `p` is the end or
/// holds an item that does.
pub proof fn lemma_insert_position_is(r: Seq<Seq<char>>, e: Seq<char>, p: int)
    requires
        0 <= p <= r.len(),
        forall|k: int| 0 <= k < p ==> lex_le(#[trigger] r[k], e),
        p < r.len() ==> !lex_le(r[p], e),
    ensures
        insert_position(r, e) == p,
{
    lemma_insert_position(r, e);
    let q = insert_position(r, e);
    if q < p {
        assert(lex_le(r[q], e));
    } else if q > p {
        assert(lex_le(r[p], e));
    }
}

/// `sort_of` puts its items in dictionary order and neither adds nor loses one.
pub proof fn lemma_sort_of(s: Seq<Seq<char>>)
    ensures
        sorted(sort_of(s)),
        sort_of(s).to_multiset() == s.to_multiset(),
        sort_of(s).len() == s.len(),
    decreases s.len(),
{
    if s.len() > 0 {
        let before = sort_of(s.drop_last());
        let e = s.last();
        lemma_sort_of(s.drop_last());
        lemma_insert_position(before, e);
        let p = insert_position(before, e);
        let after = before.insert(p, e);
        assert forall|a: int, b: int| 0 <= a <= b < after.len() implies lex_le(
            #[trigger] after[a],
            #[trigger] after[b],
        ) by {
            if a == b {
                lemma_lex_reflexive(after[a]);
            } else if b < p {
                assert(after[a] == before[a] && after[b] == before[b]);
            } else if a < p && b == p {
                assert(after[a] == before[a]);
            } else if a < p && b > p {
                assert(after[a] == before[a] && after[b] == before[b - 1]);
            } else if a == p {
                assert(after[b] == before[b - 1]);
                lemma_lex_total(before[p], e);
                lemma_lex_transitive(e, before[p], before[b - 1]);
            } else {
                assert(after[a] == before[a - 1] && after[b] == before[b - 1]);
            }
        }
        vstd::seq_lib::to_multiset_insert(before, p, e);
        assert(s =~= s.drop_last().push(e));
        vstd::seq_lib::to_multiset_build(s.drop_last(), e);
    } else {
        assert(sort_of(s) =~= s);
    }
}

/// The strings of `v` in dictionary order.
pub fn sort_strings(v: &Vec<String>) -> (r: Vec<String>)
    ensures
        views(r@) == sort_of(views(v@)),
{
    let mut r: Vec<String> = Vec::new();
    let mut i: usize = 0;
    assert(views(r@) =~= sort_of(views(v@).take(0)));
    while i < v.len()
        invariant
            i <= v.len(),
            views(r@) == sort_of(views(v@).take(i as int)),
        decreases v.len() - i,
    {
        let e = v[i].clone();
        let ghost before = views(r@);
        let mut p: usize = 0;
        while p < r.len() && str_le(r[p].as_str(), e.as_str())
            invariant
                p <= r.len(),
                before == views(r@),
                forall|k: int| 0 <= k < p ==> lex_le(#[trigger] before[k], e@),
            decreases r.len() - p,
        {
            assert(before[p as int] == r@[p as int]@);
            p += 1;
        }
        proof {
            if p < r.len() {
                assert(before[p as int] == r@[p as int]@);
            }
            lemma_insert_position_is(before, e@, p as int);
            assert(views(r@.insert(p as int, e)) =~= before.insert(p as int, e@));
            let t = views(v@).take(i + 1);
            assert(t.drop_last() =~= views(v@).take(i as int));
            assert(t.last() == e@);
        }
        r.insert(p, e);
        i += 1;
    }
    assert(views(v@).take(v.len() as int) =~= views(v@));
    r
}

/// A list without duplicates stays so when an item that it lacks is added.
pub proof fn lemma_no_duplicates_push<A>(s: Seq<A>, x: A)
    requires
        s.no_duplicates(),
        !s.contains(x),
    ensures
        s.push(x).no_duplicates(),
{
    let t = s.push(x);
    assert forall|i: int, j: int| 0 <= i < t.len() && 0 <= j < t.len() && i != j implies t[i]
        != t[j] by {
        if i < s.len() {
            assert(s.contains(s[i]));
        }
        if j < s.len() {
            assert(s.contains(s[j]));
        }
    }
}

/// A list without duplicates stays so when an item is taken out, and then lacks
/// that item.
pub proof fn lemma_no_duplicates_remove<A>(s: Seq<A>, i: int)
    requires
        s.no_duplicates(),
        0 <= i < s.len(),
    ensures
        s.remove(i).no_duplicates(),
        !s.remove(i).contains(s[i]),
        forall|x: A| x != s[i] ==> (#[trigger] s.remove(i).contains(x) == s.contains(x)),
{
    let t = s.remove(i);
    assert forall|a: int, b: int| 0 <= a < t.len() && 0 <= b < t.len() && a != b implies t[a]
        != t[b] by {
        let a2 = if a < i {
            a
        } else {
            a + 1
        };
        let b2 = if b < i {
            b
        } else {
            b + 1
        };
        assert(t[a] == s[a2] && t[b] == s[b2]);
    }
    if t.contains(s[i]) {
        let k = choose|k: int| 0 <= k < t.len() && t[k] == s[i];
        let k2 = if k < i {
            k
        } else {
            k + 1
        };
        assert(t[k] == s[k2]);
    }
    assert forall|x: A| x != s[i] implies (#[trigger] t.contains(x) == s.contains(x)) by {
        if t.contains(x) {
            let k = choose|k: int| 0 <= k < t.len() && t[k] == x;
            let k2 = if k < i {
                k
            } else {
                k + 1
            };
            assert(s[k2] == x);
        }
        if s.contains(x) {
            let k = choose|k: int| 0 <= k < s.len() && s[k] == x;
            let k2 = if k < i {
                k
            } else {
                k - 1
            };
            assert(t[k2] == x);
        }
    }
}

/// The strings of `a` followed by the strings of `b` from position `from` on.
pub fn concat_strings(a: &Vec<String>, b: &Vec<String>, from: usize) -> (r: Vec<String>)
    requires
        from <= b.len(),
    ensures
        views(r@) == views(a@) + views(b@).skip(from as int),
{
    let mut r = clone_strings(a);
    let mut i: usize = from;
    assert(views(r@) =~= views(a@) + views(b@).subrange(from as int, i as int));
    while i < b.len()
        invariant
            from <= i <= b.len(),
            views(r@) == views(a@) + views(b@).subrange(from as int, i as int),
        decreases b.len() - i,
    {
        proof {
            lemma_views_push(r@, b@[i as int]);
            assert((views(a@) + views(b@).subrange(from as int, i as int)).push(b@[i as int]@)
                =~= views(a@) + views(b@).subrange(from as int, i + 1));
        }
        r.push(b[i].clone());
        i += 1;
    }
    assert(views(b@).subrange(from as int, b.len() as int) =~= views(b@).skip(from as int));
    r
}

} // verus!

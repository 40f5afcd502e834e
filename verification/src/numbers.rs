//! Number literals as the console reads them: which tokens are floating-point
//! literals, what integer a token denotes, and how an integer is written out.

use vstd::prelude::*;
use crate::text::{chars_of, string_of};

verus! {

/// A decimal digit.
pub open spec fn is_dec_digit(c: char) -> bool {
    '0' <= c <= '9'
}

/// The number of decimal digits that `s` begins with.
pub open spec fn digit_run(s: Seq<char>) -> int
    decreases s.len(),
{
    if s.len() > 0 && is_dec_digit(s[0]) {
        1 + digit_run(s.drop_first())
    } else {
        0
    }
}

/// An exponent: `e` or `E`, an optional sign, and one or more decimal digits.
pub open spec fn is_exponent(s: Seq<char>) -> bool {
    &&& s.len() >= 2
    &&& (s[0] == 'e' || s[0] == 'E')
    &&& {
        let digits = if s[1] == '+' || s[1] == '-' {
            s.skip(2)
        } else {
            s.skip(1)
        };
        digits.len() > 0 && digit_run(digits) == digits.len()
    }
}

/// An unsigned decimal number: digits with an optional point among, before or after
/// them (at least one digit in all), and an optional exponent.
pub open spec fn is_number(s: Seq<char>) -> bool {
    let whole = digit_run(s);
    let point = whole < s.len() && s[whole] == '.';
    let fraction = if point {
        digit_run(s.skip(whole + 1))
    } else {
        0
    };
    let end = if point {
        whole + 1 + fraction
    } else {
        whole
    };
    whole + fraction > 0 && (end == s.len() || is_exponent(s.skip(end)))
}

/// Whether `c` is the letter `lower` in either case.
pub open spec fn is_letter(c: char, lower: char, upper: char) -> bool {
    c == lower || c == upper
}

/// One of the words `inf`, `infinity` and `nan`, in any mix of upper and lower case.
pub open spec fn is_special_float(s: Seq<char>) -> bool {
    let inf = s.len() >= 3 && is_letter(s[0], 'i', 'I') && is_letter(s[1], 'n', 'N') && is_letter(
        s[2],
        'f',
        'F',
    );
    let inity = s.len() == 8 && is_letter(s[3], 'i', 'I') && is_letter(s[4], 'n', 'N')
        && is_letter(s[5], 'i', 'I') && is_letter(s[6], 't', 'T') && is_letter(s[7], 'y', 'Y');
    let nan = s.len() == 3 && is_letter(s[0], 'n', 'N') && is_letter(s[1], 'a', 'A') && is_letter(
        s[2],
        'n',
        'N',
    );
    (inf && (s.len() == 3 || inity)) || nan
}

/// `s` without a leading `+` or `-`.
pub open spec fn unsigned_part(s: Seq<char>) -> Seq<char> {
    if s.len() > 0 && (s[0] == '+' || s[0] == '-') {
        s.drop_first()
    } else {
        s
    }
}

/// A floating-point literal: an optional sign, then a decimal number or one of the
/// words for infinity and not-a-number.
pub open spec fn is_float_literal(s: Seq<char>) -> bool {
    is_special_float(unsigned_part(s)) || is_number(unsigned_part(s))
}

/// The run of digits from position `i` on continues the run that starts at `from`.
proof fn lemma_digit_run_step(s: Seq<char>, from: int, i: int)
    requires
        0 <= from <= i <= s.len(),
        forall|k: int| from <= k < i ==> is_dec_digit(s[k]),
    ensures
        digit_run(s.skip(from)) == (i - from) + digit_run(s.skip(i)),
    decreases i - from,
{
    if from < i {
        assert(s.skip(from)[0] == s[from]);
        assert(s.skip(from).drop_first() =~= s.skip(from + 1));
        lemma_digit_run_step(s, from + 1, i);
    }
}

/// The number of decimal digits that stand in `x` from position `from` on.
fn count_digits(x: &Vec<char>, from: usize) -> (n: usize)
    requires
        from <= x.len(),
    ensures
        n == digit_run(x@.skip(from as int)),
        from + n <= x.len(),
{
    let mut i: usize = from;
    while i < x.len() && x[i] >= '0' && x[i] <= '9'
        invariant
            from <= i <= x.len(),
            forall|k: int| from <= k < i ==> is_dec_digit(x@[k]),
        decreases x.len() - i,
    {
        i += 1;
    }
    proof {
        lemma_digit_run_step(x@, from as int, i as int);
        if i < x.len() {
            assert(x@.skip(i as int)[0] == x@[i as int]);
        }
    }
    i - from
}

/// Whether an exponent stands in `x` from position `from` to the end.
fn exponent_at(x: &Vec<char>, from: usize) -> (r: bool)
    requires
        from <= x.len(),
    ensures
        r == is_exponent(x@.skip(from as int)),
{
    let ghost s = x@.skip(from as int);
    if x.len() - from < 2 {
        return false;
    }
    assert(s[0] == x@[from as int]);
    assert(s[1] == x@[from + 1]);
    if x[from] != 'e' && x[from] != 'E' {
        return false;
    }
    let start: usize = if x[from + 1] == '+' || x[from + 1] == '-' {
        from + 2
    } else {
        from + 1
    };
    proof {
        assert(s.skip(2) =~= x@.skip(from + 2));
        assert(s.skip(1) =~= x@.skip(from + 1));
    }
    let n = count_digits(x, start);
    n > 0 && start + n == x.len()
}

/// Whether an unsigned decimal number stands in `x` from position `from` to the end.
fn number_at(x: &Vec<char>, from: usize) -> (r: bool)
    requires
        from <= x.len(),
    ensures
        r == is_number(x@.skip(from as int)),
{
    let ghost s = x@.skip(from as int);
    let whole = count_digits(x, from);
    let point = from + whole < x.len() && x[from + whole] == '.';
    proof {
        if from + whole < x.len() {
            assert(s[whole as int] == x@[from + whole]);
        }
        if point {
            assert(s.skip(whole + 1) =~= x@.skip(from + whole + 1));
        }
    }
    let fraction: usize = if point {
        count_digits(x, from + whole + 1)
    } else {
        0
    };
    let end: usize = if point {
        from + whole + 1 + fraction
    } else {
        from + whole
    };
    proof {
        assert(s.skip(end - from) =~= x@.skip(end as int));
    }
    if whole == 0 && fraction == 0 {
        return false;
    }
    end == x.len() || exponent_at(x, end)
}

/// Whether `c` is the letter `lower` in either case.
fn letter(c: char, lower: char, upper: char) -> (r: bool)
    ensures
        r == is_letter(c, lower, upper),
{
    c == lower || c == upper
}

/// Whether the characters `x` are a floating-point literal.
pub fn is_float_chars(x: &Vec<char>) -> (r: bool)
    ensures
        r == is_float_literal(x@),
{
    let from: usize = if x.len() > 0 && (x[0] == '+' || x[0] == '-') {
        1
    } else {
        0
    };
    let ghost s = unsigned_part(x@);
    proof {
        assert(s =~= x@.skip(from as int));
        assert(forall|k: int| 0 <= k < s.len() ==> s[k] == x@[from + k]);
    }
    let n = x.len() - from;
    let inf = n >= 3 && letter(x[from], 'i', 'I') && letter(x[from + 1], 'n', 'N') && letter(
        x[from + 2],
        'f',
        'F',
    );
    let inity = n == 8 && letter(x[from + 3], 'i', 'I') && letter(x[from + 4], 'n', 'N')
        && letter(x[from + 5], 'i', 'I') && letter(x[from + 6], 't', 'T') && letter(
        x[from + 7],
        'y',
        'Y',
    );
    let nan = n == 3 && letter(x[from], 'n', 'N') && letter(x[from + 1], 'a', 'A') && letter(
        x[from + 2],
        'n',
        'N',
    );
    if (inf && (n == 3 || inity)) || nan {
        return true;
    }
    number_at(x, from)
}

/// Whether `s` is a floating-point literal.
pub fn is_float_text(s: &str) -> (r: bool)
    ensures
        r == is_float_literal(s@),
{
    let x = chars_of(s);
    is_float_chars(&x)
}

/// What the digit `c` is worth: 0 to 9 for the decimal digits, 10 to 35 for the
/// letters in either case, and 36 for any other character.
pub open spec fn digit_value(c: char) -> int {
    if '0' <= c <= '9' {
        c as int - '0' as int
    } else if 'a' <= c <= 'z' {
        c as int - 'a' as int + 10
    } else if 'A' <= c <= 'Z' {
        c as int - 'A' as int + 10
    } else {
        36
    }
}

/// Whether every character of `s` is a digit in base `radix`.
pub open spec fn all_digits(s: Seq<char>, radix: int) -> bool {
    forall|i: int| 0 <= i < s.len() ==> digit_value(#[trigger] s[i]) < radix
}

/// The number that the digits of `s` write in base `radix`.
pub open spec fn digits_value(s: Seq<char>, radix: int) -> int
    decreases s.len(),
{
    if s.len() == 0 {
        0
    } else {
        digits_value(s.drop_last(), radix) * radix + digit_value(s.last())
    }
}

/// The integer that `s` writes in base `radix`: an optional sign and one or more
/// digits. `None` where `s` is not of that form or the integer does not fit in 64
/// bits with a sign.
pub open spec fn integer_value(s: Seq<char>, radix: int) -> Option<int> {
    let body = unsigned_part(s);
    let value = if s.len() > 0 && s[0] == '-' {
        -digits_value(body, radix)
    } else {
        digits_value(body, radix)
    };
    if body.len() > 0 && all_digits(body, radix) && i64::MIN <= value <= i64::MAX {
        Some(value)
    } else {
        None
    }
}

/// The value of a prefix of a digit string is at most the value of the whole, and
/// neither is negative.
proof fn lemma_digits_value_grows(s: Seq<char>, radix: int, i: int)
    requires
        radix >= 1,
        0 <= i <= s.len(),
    ensures
        0 <= digits_value(s.take(i), radix) <= digits_value(s, radix),
    decreases s.len(),
{
    if s.len() == 0 {
        assert(s.take(i) =~= s);
    } else if i == s.len() {
        assert(s.take(i) =~= s);
        lemma_digits_value_grows(s.drop_last(), radix, i - 1);
        assert(s.drop_last().take(i - 1) =~= s.take(i - 1));
        let v = digits_value(s.drop_last(), radix);
        lemma_digits_value_grows(s.drop_last(), radix, s.len() - 1);
        assert(s.drop_last().take(s.len() - 1) =~= s.drop_last());
        assert(v >= 0);
        assert(v * radix >= 0) by (nonlinear_arith)
            requires
                v >= 0,
                radix >= 1,
        ;
    } else {
        lemma_digits_value_grows(s.drop_last(), radix, i);
        assert(s.drop_last().take(i) =~= s.take(i));
        let v = digits_value(s.drop_last(), radix);
        lemma_digits_value_grows(s.drop_last(), radix, s.len() - 1);
        assert(s.drop_last().take(s.len() - 1) =~= s.drop_last());
        assert(v * radix >= v) by (nonlinear_arith)
            requires
                v >= 0,
                radix >= 1,
        ;
    }
}

/// What the digit `c` is worth.
fn value_of_digit(c: char) -> (v: u32)
    ensures
        v == digit_value(c),
{
    if c >= '0' && c <= '9' {
        c as u32 - '0' as u32
    } else if c >= 'a' && c <= 'z' {
        c as u32 - 'a' as u32 + 10
    } else if c >= 'A' && c <= 'Z' {
        c as u32 - 'A' as u32 + 10
    } else {
        36
    }
}

/// The integer that the characters of `x` from position `from` on write in base
/// `radix`.
pub fn parse_integer(x: &Vec<char>, from: usize, radix: u32) -> (r: Option<i64>)
    requires
        from <= x.len(),
        2 <= radix <= 36,
    ensures
        r is Some == integer_value(x@.skip(from as int), radix as int) is Some,
        r is Some ==> r->0 == integer_value(x@.skip(from as int), radix as int)->0,
{
    let ghost s = x@.skip(from as int);
    let ghost body = unsigned_part(s);
    let negative = from < x.len() && x[from] == '-';
    let start: usize = if from < x.len() && (x[from] == '-' || x[from] == '+') {
        from + 1
    } else {
        from
    };
    proof {
        if from < x.len() {
            assert(s[0] == x@[from as int]);
        }
        assert(body =~= x@.skip(start as int));
    }
    if start == x.len() {
        return None;
    }
    let limit: u128 = 9223372036854775808;
    let mut acc: u128 = 0;
    let mut i: usize = start;
    assert(body.take(0) =~= Seq::<char>::empty());
    while i < x.len()
        invariant
            start <= i <= x.len(),
            2 <= radix <= 36,
            limit == 9223372036854775808,
            s == x@.skip(from as int),
            body == unsigned_part(s),
            body == x@.skip(start as int),
            acc == digits_value(body.take(i - start), radix as int),
            acc <= limit,
            forall|k: int| 0 <= k < i - start ==> digit_value(#[trigger] body[k]) < radix,
        decreases x.len() - i,
    {
        let d = value_of_digit(x[i]);
        assert(body[i - start] == x@[i as int]);
        if d >= radix {
            return None;
        }
        assert(acc * radix <= 9223372036854775808 * 36) by (nonlinear_arith)
            requires
                0 <= acc <= 9223372036854775808,
                0 <= radix <= 36,
        ;
        acc = acc * (radix as u128) + (d as u128);
        proof {
            let t = body.take(i - start + 1);
            assert(t.drop_last() =~= body.take(i - start));
            assert(t.last() == body[i - start]);
        }
        if acc > limit {
            proof {
                lemma_digits_value_grows(body, radix as int, i - start + 1);
            }
            return None;
        }
        i += 1;
    }
    proof {
        assert(body.take(body.len() as int) =~= body);
    }
    if negative {
        if acc == limit {
            Some(i64::MIN)
        } else {
            Some(-(acc as i64))
        }
    } else if acc == limit {
        None
    } else {
        Some(acc as i64)
    }
}

/// The character that writes the digit `d`.
pub open spec fn digit_char(d: int) -> char {
    if d == 0 {
        '0'
    } else if d == 1 {
        '1'
    } else if d == 2 {
        '2'
    } else if d == 3 {
        '3'
    } else if d == 4 {
        '4'
    } else if d == 5 {
        '5'
    } else if d == 6 {
        '6'
    } else if d == 7 {
        '7'
    } else if d == 8 {
        '8'
    } else {
        '9'
    }
}

/// The decimal digits of `n`, without leading zeros.
pub open spec fn decimal_digits(n: nat) -> Seq<char>
    decreases n,
{
    if n < 10 {
        seq![digit_char(n as int)]
    } else {
        decimal_digits(n / 10).push(digit_char((n % 10) as int))
    }
}

/// The integer `v` written in decimal, with a minus sign where it is negative.
pub open spec fn decimal(v: int) -> Seq<char> {
    if v < 0 {
        seq!['-'] + decimal_digits((-v) as nat)
    } else {
        decimal_digits(v as nat)
    }
}

/// The character that writes the digit `d`.
fn char_of_digit(d: u128) -> (c: char)
    requires
        d < 10,
    ensures
        c == digit_char(d as int),
{
    if d == 0 {
        '0'
    } else if d == 1 {
        '1'
    } else if d == 2 {
        '2'
    } else if d == 3 {
        '3'
    } else if d == 4 {
        '4'
    } else if d == 5 {
        '5'
    } else if d == 6 {
        '6'
    } else if d == 7 {
        '7'
    } else if d == 8 {
        '8'
    } else {
        '9'
    }
}

/// Appends the decimal digits of `n` to `out`.
fn push_digits(out: &mut Vec<char>, n: u128)
    ensures
        final(out)@ == old(out)@ + decimal_digits(n as nat),
    decreases n,
{
    if n < 10 {
        out.push(char_of_digit(n));
        assert(out@ =~= old(out)@ + decimal_digits(n as nat));
    } else {
        push_digits(out, n / 10);
        out.push(char_of_digit(n % 10));
        assert(out@ =~= old(out)@ + decimal_digits(n as nat));
    }
}

/// The integer `v` written in decimal.
pub fn int_to_string(v: i64) -> (r: String)
    ensures
        r@ == decimal(v as int),
{
    let mut out: Vec<char> = Vec::new();
    if v < 0 {
        out.push('-');
        let magnitude: u128 = (-(v as i128)) as u128;
        push_digits(&mut out, magnitude);
    } else {
        push_digits(&mut out, v as u128);
        assert(out@ =~= decimal_digits(v as nat));
    }
    string_of(&out)
}

/// The count `n` written in decimal.
pub fn count_to_string(n: usize) -> (r: String)
    ensures
        r@ == decimal(n as int),
{
    let mut out: Vec<char> = Vec::new();
    push_digits(&mut out, n as u128);
    assert(out@ =~= decimal_digits(n as nat));
    string_of(&out)
}

} // verus!

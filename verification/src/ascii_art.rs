//! Banner lettering: each supported character is drawn two lines high from block
//! elements.

use vstd::prelude::*;
use crate::text::{chars_of, lowercase};

verus! {

/// The two rows of the drawing of `c`, upper row first, or `None` where `c` has none.
pub open spec fn glyph(c: char) -> Option<(&'static str, &'static str)> {
    match c {
        'a' => Some(("▒▄▀█", "░█▀█")),
        'b' => Some(("░█▄▄", "▒█▄█")),
        'c' => Some(("░▄▀▀", "░▀▄▄")),
        'd' => Some(("▒█▀▄", "░█▄▀")),
        'e' => Some(("░██▀", "▒█▄▄")),
        'f' => Some(("░█▀▀", "░█▀░")),
        'g' => Some(("▒▄▀▀", "░▀▄█")),
        'h' => Some(("░█▄█", "▒█▒█")),
        'i' => Some(("░█", "░█")),
        'j' => Some(("░░▒█", "░▀▄█")),
        'k' => Some(("░█▄▀", "░█▒█")),
        'l' => Some(("░█▒░", "▒█▄▄")),
        'm' => Some(("▒█▀▄▀█", "░█▒▀▒█")),
        'n' => Some(("░█▄░█", "░█▒▀█")),
        'o' => Some(("░█▀█", "▒█▄█")),
        'p' => Some(("▒█▀█", "░█▀▀")),
        'q' => Some(("░▄▀▄", "░▀▄█")),
        'r' => Some(("▒█▀█", "░█▀▄")),
        's' => Some(("░▄▀", "▒▄█")),
        't' => Some(("░▀█▀", "░▒█▒")),
        'u' => Some(("░█░█", "▒█▄█")),
        'v' => Some(("░█░█", "▒▀▄▀")),
        'w' => Some(("▒█░█░█", "░▀▄▀▄▀")),
        'x' => Some(("░▀▄▀", "░█▒█")),
        'y' => Some(("░▀▄▀", "░▒█▒")),
        'z' => Some(("░▀█", "▒█▄")),
        ' ' => Some(("░", "░")),
        '_' => Some(("░░░", "▒▄▄")),
        ',' => Some(("░▒", "░█")),
        '.' => Some(("░░", "░▄")),
        '!' => Some(("░█", "░▄")),
        '-' => Some(("░▒░", "░▀▀")),
        '?' => Some(("░▀▀▄", "░▒█▀")),
        '\'' => Some(("░▀", "░░")),
        ':' => Some(("░▄░", "▒▄▒")),
        '0' => Some(("░▄▀▄", "░▀▄▀")),
        '1' => Some(("░▄█", "░░█")),
        '2' => Some(("░▀█", "░█▄")),
        '3' => Some(("░▀██", "░▄▄█")),
        '4' => Some(("░█▄", "░░█")),
        '5' => Some(("░█▀", "░▄█")),
        '6' => Some(("░█▀", "░██")),
        '7' => Some(("░▀█", "░█░")),
        '8' => Some(("░█▄█", "░█▄█")),
        '9' => Some(("░██", "░▄█")),
        _ => None,
    }
}

/// The two rows drawn in place of a character that has no drawing.
pub open spec fn unsupported_glyph() -> (&'static str, &'static str) {
    ("░▒░", "▒░▒")
}

/// Row `row` (0 for the upper, otherwise the lower) of what is drawn for `c`.
pub open spec fn glyph_row(c: char, row: int) -> Seq<char> {
    let g = match glyph(c) {
        Some(g) => g,
        None => unsupported_glyph(),
    };
    if row == 0 {
        g.0@
    } else {
        g.1@
    }
}

/// Row `row` of the drawing of the characters of `s`, side by side.
pub open spec fn art_row(s: Seq<char>, row: int) -> Seq<char>
    decreases s.len(),
{
    if s.len() == 0 {
        Seq::empty()
    } else {
        art_row(s.drop_last(), row) + glyph_row(s.last(), row)
    }
}

/// Whether every character of `s` has a drawing.
pub open spec fn all_supported(s: Seq<char>) -> bool {
    forall|i: int| 0 <= i < s.len() ==> glyph(#[trigger] s[i]) is Some
}

/// The two rows of the drawing of `c`, upper row first, or `None` where `c` has none.
pub fn boxed_map(c: char) -> (r: Option<(&'static str, &'static str)>)
    ensures
        r == glyph(c),
{
    match c {
        'a' => Some(("▒▄▀█", "░█▀█")),
        'b' => Some(("░█▄▄", "▒█▄█")),
        'c' => Some(("░▄▀▀", "░▀▄▄")),
        'd' => Some(("▒█▀▄", "░█▄▀")),
        'e' => Some(("░██▀", "▒█▄▄")),
        'f' => Some(("░█▀▀", "░█▀░")),
        'g' => Some(("▒▄▀▀", "░▀▄█")),
        'h' => Some(("░█▄█", "▒█▒█")),
        'i' => Some(("░█", "░█")),
        'j' => Some(("░░▒█", "░▀▄█")),
        'k' => Some(("░█▄▀", "░█▒█")),
        'l' => Some(("░█▒░", "▒█▄▄")),
        'm' => Some(("▒█▀▄▀█", "░█▒▀▒█")),
        'n' => Some(("░█▄░█", "░█▒▀█")),
        'o' => Some(("░█▀█", "▒█▄█")),
        'p' => Some(("▒█▀█", "░█▀▀")),
        'q' => Some(("░▄▀▄", "░▀▄█")),
        'r' => Some(("▒█▀█", "░█▀▄")),
        's' => Some(("░▄▀", "▒▄█")),
        't' => Some(("░▀█▀", "░▒█▒")),
        'u' => Some(("░█░█", "▒█▄█")),
        'v' => Some(("░█░█", "▒▀▄▀")),
        'w' => Some(("▒█░█░█", "░▀▄▀▄▀")),
        'x' => Some(("░▀▄▀", "░█▒█")),
        'y' => Some(("░▀▄▀", "░▒█▒")),
        'z' => Some(("░▀█", "▒█▄")),
        ' ' => Some(("░", "░")),
        '_' => Some(("░░░", "▒▄▄")),
        ',' => Some(("░▒", "░█")),
        '.' => Some(("░░", "░▄")),
        '!' => Some(("░█", "░▄")),
        '-' => Some(("░▒░", "░▀▀")),
        '?' => Some(("░▀▀▄", "░▒█▀")),
        '\'' => Some(("░▀", "░░")),
        ':' => Some(("░▄░", "▒▄▒")),
        '0' => Some(("░▄▀▄", "░▀▄▀")),
        '1' => Some(("░▄█", "░░█")),
        '2' => Some(("░▀█", "░█▄")),
        '3' => Some(("░▀██", "░▄▄█")),
        '4' => Some(("░█▄", "░░█")),
        '5' => Some(("░█▀", "░▄█")),
        '6' => Some(("░█▀", "░██")),
        '7' => Some(("░▀█", "░█░")),
        '8' => Some(("░█▄█", "░█▄█")),
        '9' => Some(("░██", "░▄█")),
        _ => None,
    }
}

/// The two-line drawing of text that is already in lower case.
pub fn boxed_art_of_lowered(lowered: &str) -> (lines: Vec<String>)
    ensures
        lines.len() == 2,
        lines[0]@ == art_row(lowered@, 0),
        lines[1]@ == art_row(lowered@, 1),
{
    let x = chars_of(lowered);
    let mut upper = String::new();
    let mut lower = String::new();
    let mut i: usize = 0;
    while i < x.len()
        invariant
            i <= x.len(),
            upper@ == art_row(x@.take(i as int), 0),
            lower@ == art_row(x@.take(i as int), 1),
        decreases x.len() - i,
    {
        let art = match boxed_map(x[i]) {
            Some(g) => g,
            None => ("░▒░", "▒░▒"),
        };
        upper.append(art.0);
        lower.append(art.1);
        proof {
            let t = x@.take(i + 1);
            assert(t.drop_last() =~= x@.take(i as int));
            assert(t.last() == x@[i as int]);
        }
        i += 1;
    }
    assert(x@.take(x.len() as int) =~= x@);
    let mut lines: Vec<String> = Vec::new();
    lines.push(upper);
    lines.push(lower);
    lines
}

/// The two-line drawing of `text`, which is put into lower case first. A character
/// without a drawing is shown as a placeholder.
pub fn str_to_boxed_art(text: &str) -> (lines: Vec<String>)
    ensures
        lines.len() == 2,
        lines[0]@ == art_row(lowercase(text@), 0),
        lines[1]@ == art_row(lowercase(text@), 1),
{
    let lowered = text.to_lowercase();
    boxed_art_of_lowered(lowered.as_str())
}

/// Whether every character of text that is already in lower case has a drawing.
pub fn is_lowered_art_supported(lowered: &str) -> (r: bool)
    ensures
        r == all_supported(lowered@),
{
    let x = chars_of(lowered);
    let mut i: usize = 0;
    while i < x.len()
        invariant
            i <= x.len(),
            x@ == lowered@,
            forall|k: int| 0 <= k < i ==> glyph(#[trigger] x@[k]) is Some,
        decreases x.len() - i,
    {
        if boxed_map(x[i]).is_none() {
            return false;
        }
        i += 1;
    }
    true
}

/// Whether every character of `text`, put into lower case, has a drawing.
pub fn is_boxed_art_supported(text: &str) -> (r: bool)
    ensures
        r == all_supported(lowercase(text@)),
{
    let lowered = text.to_lowercase();
    is_lowered_art_supported(lowered.as_str())
}

} // verus!

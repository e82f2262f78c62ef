use vstd::prelude::*;

use crate::text::{chars_of, trim, trim_bounds, upper, upper_is1, upper_is2};

verus! {

/// The element symbol as the lookups read it: trimmed, in ASCII upper case.
pub open spec fn symbol(element: Seq<char>) -> Seq<char> {
    upper(trim(element))
}

/// How many bonds an atom of `element` may take part in.
pub open spec fn max_valence_of(element: Seq<char>) -> nat {
    let u = symbol(element);
    if u == seq!['H'] {
        1
    } else if u == seq!['C'] {
        4
    } else if u == seq!['N'] {
        3
    } else if u == seq!['O'] {
        2
    } else if u == seq!['F'] || u == seq!['C', 'L'] || u == seq!['B', 'R'] || u == seq!['I'] {
        1
    } else if u == seq!['P'] {
        5
    } else if u == seq!['S'] {
        6
    } else {
        4
    }
}

/// The display shade of an element.
#[derive(Debug, Clone, Copy, PartialEq, Eq, Structural)]
pub enum Shade {
    White,
    DarkGray,
    Blue,
    Red,
    LightGray,
}

pub open spec fn shade_of(element: Seq<char>) -> Shade {
    let u = symbol(element);
    if u == seq!['H'] {
        Shade::White
    } else if u == seq!['C'] {
        Shade::DarkGray
    } else if u == seq!['N'] {
        Shade::Blue
    } else if u == seq!['O'] {
        Shade::Red
    } else {
        Shade::LightGray
    }
}

/// The valence capacity of `element`, looked up case-insensitively.
pub fn max_valence(element: &str) -> (r: usize)
    ensures
        r == max_valence_of(element@),
        1 <= r <= 6,
{
    let s = chars_of(element);
    let (lo, hi) = trim_bounds(&s);
    if upper_is1(&s, lo, hi, 'H') {
        1
    } else if upper_is1(&s, lo, hi, 'C') {
        4
    } else if upper_is1(&s, lo, hi, 'N') {
        3
    } else if upper_is1(&s, lo, hi, 'O') {
        2
    } else if upper_is1(&s, lo, hi, 'F') || upper_is2(&s, lo, hi, 'C', 'L') || upper_is2(
        &s,
        lo,
        hi,
        'B',
        'R',
    ) || upper_is1(&s, lo, hi, 'I') {
        1
    } else if upper_is1(&s, lo, hi, 'P') {
        5
    } else if upper_is1(&s, lo, hi, 'S') {
        6
    } else {
        4
    }
}

/// The display shade of `element`, looked up case-insensitively.
pub fn element_shade(element: &str) -> (r: Shade)
    ensures
        r == shade_of(element@),
{
    let s = chars_of(element);
    let (lo, hi) = trim_bounds(&s);
    if upper_is1(&s, lo, hi, 'H') {
        Shade::White
    } else if upper_is1(&s, lo, hi, 'C') {
        Shade::DarkGray
    } else if upper_is1(&s, lo, hi, 'N') {
        Shade::Blue
    } else if upper_is1(&s, lo, hi, 'O') {
        Shade::Red
    } else {
        Shade::LightGray
    }
}

} // verus!

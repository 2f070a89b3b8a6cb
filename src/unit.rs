//! Units of a polymer: a letter's identity ignoring case is its type, its case
//! is its polarity.
use vstd::prelude::*;

verus! {

/// The type of a unit: an upper-case ASCII letter folds onto its lower-case
/// form; every other character is a type of its own.
pub open spec fn unit_type(c: char) -> int {
    if 65 <= (c as u32) <= 90 {
        (c as int) + 32
    } else {
        c as int
    }
}

/// Two units react when they have the same type and opposite polarity.
pub open spec fn reacts(a: char, b: char) -> bool {
    a != b && unit_type(a) == unit_type(b)
}

/// A type has at most two units, so a unit reacting with two others reacts
/// with the same partner twice.
pub proof fn lemma_reaction_partner_unique(a: char, x: char, y: char)
    requires
        reacts(a, x),
        reacts(x, y),
    ensures
        a == y,
{
}

/// Computes the type of a unit.
pub fn type_of(c: char) -> (r: u32)
    ensures
        r == unit_type(c),
{
    let n = c as u32;
    if 65 <= n && n <= 90 {
        n + 32
    } else {
        n
    }
}

/// Decides whether two units react.
pub fn units_react(a: char, b: char) -> (r: bool)
    ensures
        r == reacts(a, b),
{
    a != b && type_of(a) == type_of(b)
}

} // verus!

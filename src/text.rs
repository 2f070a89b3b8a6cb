//! Polymers written as text: one character per unit.
use vstd::prelude::*;
use crate::unit::{unit_type, type_of};
use crate::reduction::{reduced_form, is_reduced, reduce};

verus! {

/// Two texts react as wholes: they differ, but not once case is folded.
pub open spec fn texts_react(a: Seq<char>, b: Seq<char>) -> bool {
    &&& a != b
    &&& a.len() == b.len()
    &&& forall|i: int| 0 <= i < a.len() ==> unit_type(#[trigger] a[i]) == unit_type(b[i])
}

/// The units of a text, in order.
pub fn units_of(s: &str) -> (r: Vec<char>)
    ensures
        r@ == s@,
{
    broadcast use vstd::string::axiom_spec_iter;
    let mut r: Vec<char> = Vec::new();
    for c in it: s.chars()
        invariant
            it.seq() == s@,
            r@ == it.seq().take(it.index()),
    {
        assert(it.seq().take(it.index() + 1) =~= r@.push(c));
        r.push(c);
    }
    assert(s@.take(s@.len() as int) =~= s@);
    r
}

/// Relies on String::push: the character is appended at the end.
#[verifier::external_body]
fn push_char(s: &mut String, c: char)
    ensures
        final(s)@ == old(s)@.push(c),
{
    s.push(c);
}

/// The text that spells out a sequence of units.
pub fn text_of(units: &[char]) -> (r: String)
    ensures
        r@ == units@,
{
    let mut r = String::new();
    let mut i: usize = 0;
    while i < units.len()
        invariant
            i <= units@.len(),
            r@ == units@.take(i as int),
        decreases units@.len() - i,
    {
        assert(units@.take(i + 1) =~= r@.push(units@[i as int]));
        push_char(&mut r, units[i]);
        i += 1;
    }
    assert(units@.take(i as int) =~= units@);
    r
}

/// Fully reduces a polymer written as text.
pub fn run(contents: String) -> (r: String)
    ensures
        r@ == reduced_form(contents@),
        is_reduced(r@),
{
    let units = units_of(contents.as_str());
    let reduced = reduce(units.as_slice());
    text_of(reduced.as_slice())
}

/// Decides whether two texts react: they differ, yet match letter for letter
/// once case is ignored. Two one-letter texts react exactly when their units
/// do.
pub fn can_react(a: &str, b: &str) -> (r: bool)
    ensures
        r == texts_react(a@, b@),
{
    let x = units_of(a);
    let y = units_of(b);
    if x.len() != y.len() {
        return false;
    }
    let mut same = true;
    let mut i: usize = 0;
    while i < x.len()
        invariant
            x@ == a@,
            y@ == b@,
            x@.len() == y@.len(),
            i <= x@.len(),
            same == (forall|j: int| 0 <= j < i ==> x@[j] == y@[j]),
            forall|j: int| 0 <= j < i ==> unit_type(#[trigger] x@[j]) == unit_type(y@[j]),
        decreases x@.len() - i,
    {
        if type_of(x[i]) != type_of(y[i]) {
            return false;
        }
        same = same && x[i] == y[i];
        i += 1;
    }
    if same {
        assert(a@ =~= b@);
    }
    !same
}

} // verus!

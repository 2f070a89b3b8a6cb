//! The reduction engine: repeated annihilation of adjacent reacting units,
//! computed in one pass over a stack of settled units.
use vstd::prelude::*;
use crate::unit::{reacts, units_react, lemma_reaction_partner_unique};

verus! {

/// No two adjacent units of `s` react.
pub open spec fn is_reduced(s: Seq<char>) -> bool {
    forall|i: int| 0 <= i < s.len() - 1 ==> !reacts(#[trigger] s[i], s[i + 1])
}

/// One unit arriving on a stack of settled units: it annihilates with the top
/// when the two react, and is pushed otherwise.
pub open spec fn push_unit(stack: Seq<char>, v: char) -> Seq<char> {
    if stack.len() > 0 && reacts(stack.last(), v) {
        stack.drop_last()
    } else {
        stack.push(v)
    }
}

/// The units of `c`, arriving one by one from the left, on top of `stack`.
pub open spec fn settle(stack: Seq<char>, c: Seq<char>) -> Seq<char>
    decreases c.len(),
{
    if c.len() == 0 {
        stack
    } else {
        push_unit(settle(stack, c.drop_last()), c.last())
    }
}

/// The fully reduced form of a polymer.
pub open spec fn reduced_form(p: Seq<char>) -> Seq<char> {
    settle(Seq::empty(), p)
}

/// `p` without the adjacent pair that starts at `i`.
pub open spec fn remove_pair(p: Seq<char>, i: int) -> Seq<char> {
    p.take(i) + p.skip(i + 2)
}

/// The units at `i` and `i + 1` of `p` exist and react.
pub open spec fn can_eliminate(p: Seq<char>, i: int) -> bool {
    0 <= i && i + 1 < p.len() && reacts(p[i], p[i + 1])
}

/// Removes reacting pairs one after another, each named by the position of
/// its first unit in the polymer as it then stands; `None` when a position
/// names a pair that does not react.
pub open spec fn eliminate(p: Seq<char>, order: Seq<int>) -> Option<Seq<char>>
    decreases order.len(),
{
    if order.len() == 0 {
        Some(p)
    } else if can_eliminate(p, order[0]) {
        eliminate(remove_pair(p, order[0]), order.drop_first())
    } else {
        None
    }
}

proof fn lemma_prefix_reduced(s: Seq<char>)
    requires
        is_reduced(s),
        s.len() > 0,
    ensures
        is_reduced(s.drop_last()),
{
    let q = s.drop_last();
    assert forall|i: int| 0 <= i < q.len() - 1 implies !reacts(#[trigger] q[i], q[i + 1]) by {
        assert(q[i] == s[i] && q[i + 1] == s[i + 1]);
    }
}

proof fn lemma_push_unit_reduced(stack: Seq<char>, v: char)
    requires
        is_reduced(stack),
    ensures
        is_reduced(push_unit(stack, v)),
{
    if stack.len() > 0 && reacts(stack.last(), v) {
        lemma_prefix_reduced(stack);
    } else {
        let r = stack.push(v);
        assert forall|i: int| 0 <= i < r.len() - 1 implies !reacts(#[trigger] r[i], r[i + 1]) by {
            if i < stack.len() - 1 {
                assert(r[i] == stack[i] && r[i + 1] == stack[i + 1]);
            }
        }
    }
}

/// Settling units on a reduced stack leaves a reduced stack.
pub proof fn lemma_settle_reduced(stack: Seq<char>, c: Seq<char>)
    requires
        is_reduced(stack),
    ensures
        is_reduced(settle(stack, c)),
    decreases c.len(),
{
    if c.len() > 0 {
        lemma_settle_reduced(stack, c.drop_last());
        lemma_push_unit_reduced(settle(stack, c.drop_last()), c.last());
    }
}

/// Settling removes units in pairs and never adds more than arrive.
pub proof fn lemma_settle_length(stack: Seq<char>, c: Seq<char>)
    ensures
        settle(stack, c).len() <= stack.len() + c.len(),
        (stack.len() + c.len() - settle(stack, c).len()) % 2 == 0,
    decreases c.len(),
{
    if c.len() > 0 {
        lemma_settle_length(stack, c.drop_last());
    }
}

/// Settling `a + b` is settling `a`, then `b` on what `a` left.
pub proof fn lemma_settle_append(stack: Seq<char>, a: Seq<char>, b: Seq<char>)
    ensures
        settle(stack, a + b) == settle(settle(stack, a), b),
    decreases b.len(),
{
    if b.len() == 0 {
        assert(a + b =~= a);
    } else {
        lemma_settle_append(stack, a, b.drop_last());
        assert((a + b).drop_last() =~= a + b.drop_last());
        assert((a + b).last() == b.last());
    }
}

/// A reacting pair arriving on a reduced stack leaves it as it was.
pub proof fn lemma_push_pair(stack: Seq<char>, x: char, y: char)
    requires
        is_reduced(stack),
        reacts(x, y),
    ensures
        push_unit(push_unit(stack, x), y) == stack,
{
    if stack.len() > 0 && reacts(stack.last(), x) {
        lemma_reaction_partner_unique(stack.last(), x, y);
        let s1 = stack.drop_last();
        if s1.len() > 0 {
            assert(s1.last() == stack[stack.len() - 2]);
        }
        assert(s1.push(y) =~= stack);
    } else {
        let s1 = stack.push(x);
        assert(s1.drop_last() =~= stack);
    }
}

/// A polymer in which no adjacent pair reacts is its own reduced form.
pub proof fn lemma_no_reaction_fixed_point(p: Seq<char>)
    requires
        is_reduced(p),
    ensures
        reduced_form(p) == p,
    decreases p.len(),
{
    if p.len() > 0 {
        let q = p.drop_last();
        lemma_prefix_reduced(p);
        lemma_no_reaction_fixed_point(q);
        if q.len() > 0 {
            assert(q.last() == p[p.len() - 2]);
        }
        assert(q.push(p.last()) =~= p);
    }
}

/// Reducing a reduced polymer changes nothing.
pub proof fn lemma_reduce_idempotent(p: Seq<char>)
    ensures
        reduced_form(reduced_form(p)) == reduced_form(p),
{
    lemma_settle_reduced(Seq::empty(), p);
    lemma_no_reaction_fixed_point(reduced_form(p));
}

/// The reduced form is no longer than the polymer, and the two lengths differ
/// by an even number.
pub proof fn lemma_reduce_length(p: Seq<char>)
    ensures
        reduced_form(p).len() <= p.len(),
        (p.len() - reduced_form(p).len()) % 2 == 0,
{
    lemma_settle_length(Seq::empty(), p);
}

/// Removing one reacting adjacent pair leaves the reduced form unchanged.
pub proof fn lemma_cancel_pair(p: Seq<char>, i: int)
    requires
        can_eliminate(p, i),
    ensures
        reduced_form(remove_pair(p, i)) == reduced_form(p),
{
    let e = Seq::<char>::empty();
    let a = p.take(i);
    let b = p.skip(i + 2);
    let ab = a.push(p[i]).push(p[i + 1]);
    assert(p =~= ab + b);
    assert(remove_pair(p, i) =~= a + b);
    lemma_settle_append(e, ab, b);
    lemma_settle_append(e, a, b);
    assert(ab.drop_last() =~= a.push(p[i]));
    assert(a.push(p[i]).drop_last() =~= a);
    assert(settle(e, a.push(p[i])) == push_unit(settle(e, a), p[i]));
    assert(settle(e, ab) == push_unit(settle(e, a.push(p[i])), p[i + 1]));
    lemma_settle_reduced(e, a);
    lemma_push_pair(settle(e, a), p[i], p[i + 1]);
}

/// Every legal sequence of eliminations keeps the reduced form.
pub proof fn lemma_eliminate_keeps_reduced_form(p: Seq<char>, order: Seq<int>)
    requires
        eliminate(p, order) is Some,
    ensures
        reduced_form(eliminate(p, order)->0) == reduced_form(p),
    decreases order.len(),
{
    if order.len() > 0 {
        lemma_eliminate_keeps_reduced_form(remove_pair(p, order[0]), order.drop_first());
        lemma_cancel_pair(p, order[0]);
    }
}

/// Confluence: whatever the order in which reacting pairs are removed, once
/// none is left the polymer is its reduced form.
pub proof fn lemma_confluence(p: Seq<char>, order: Seq<int>)
    requires
        eliminate(p, order) is Some,
        is_reduced(eliminate(p, order)->0),
    ensures
        eliminate(p, order)->0 == reduced_form(p),
{
    lemma_eliminate_keeps_reduced_form(p, order);
    lemma_no_reaction_fixed_point(eliminate(p, order)->0);
}

/// An order of eliminations that removes some reacting pair for as long as
/// one is left.
pub open spec fn exhaustive_order(p: Seq<char>) -> Seq<int>
    decreases p.len(),
{
    if exists|i: int| can_eliminate(p, i) {
        let i = choose|i: int| can_eliminate(p, i);
        seq![i] + exhaustive_order(remove_pair(p, i))
    } else {
        Seq::empty()
    }
}

/// The reduced form is reachable: some legal order of eliminations leads from
/// `p` to it.
pub proof fn lemma_reduced_form_reachable(p: Seq<char>)
    ensures
        eliminate(p, exhaustive_order(p)) == Some(reduced_form(p)),
    decreases p.len(),
{
    if exists|i: int| can_eliminate(p, i) {
        let i = choose|i: int| can_eliminate(p, i);
        let rest = exhaustive_order(remove_pair(p, i));
        lemma_reduced_form_reachable(remove_pair(p, i));
        lemma_cancel_pair(p, i);
        let o = exhaustive_order(p);
        assert(o[0] == i);
        assert(o.drop_first() =~= rest);
    } else {
        assert forall|k: int| 0 <= k < p.len() - 1 implies !reacts(#[trigger] p[k], p[k + 1]) by {
            assert(!can_eliminate(p, k));
        }
        lemma_no_reaction_fixed_point(p);
    }
}

/// Fully reduces a polymer in one left-to-right pass, keeping the settled
/// units on a stack.
pub fn reduce(polymer: &[char]) -> (r: Vec<char>)
    ensures
        r@ == reduced_form(polymer@),
        is_reduced(r@),
        exists|order: Seq<int>| eliminate(polymer@, order) == Some(r@),
        r@.len() <= polymer@.len(),
        (polymer@.len() - r@.len()) % 2 == 0,
{
    let mut stack: Vec<char> = Vec::new();
    let mut i: usize = 0;
    while i < polymer.len()
        invariant
            i <= polymer@.len(),
            stack@ == settle(Seq::empty(), polymer@.take(i as int)),
        decreases polymer@.len() - i,
    {
        let v = polymer[i];
        assert(polymer@.take(i + 1).drop_last() =~= polymer@.take(i as int));
        let n = stack.len();
        if n > 0 && units_react(stack[n - 1], v) {
            let _ = stack.pop();
        } else {
            stack.push(v);
        }
        i += 1;
    }
    assert(polymer@.take(i as int) =~= polymer@);
    proof {
        lemma_settle_reduced(Seq::empty(), polymer@);
        lemma_reduce_length(polymer@);
        lemma_reduced_form_reachable(polymer@);
    }
    stack
}

} // verus!

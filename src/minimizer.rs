//! The unit-removal minimizer: for each letter type, the reduced length of
//! the polymer once every unit of that type is stripped, and the shortest.
use vstd::prelude::*;
use crate::unit::{unit_type, type_of};
use crate::reduction::{
    reduced_form, push_unit, reduce, lemma_settle_reduced, lemma_push_pair,
    lemma_reduce_length,
};

verus! {

/// The type of the lower-case letter `a`.
pub const FIRST_TYPE: u32 = 97;

/// How many letter types there are.
pub const TYPE_COUNT: u32 = 26;

/// `p` without every unit of type `t`, in either polarity.
pub open spec fn without_type(p: Seq<char>, t: int) -> Seq<char>
    decreases p.len(),
{
    if p.len() == 0 {
        p
    } else if unit_type(p.last()) == t {
        without_type(p.drop_last(), t)
    } else {
        without_type(p.drop_last(), t).push(p.last())
    }
}

/// The length of the reduced form of `p` once type `t` is stripped.
pub open spec fn stripped_length(p: Seq<char>, t: int) -> nat {
    reduced_form(without_type(p, t)).len()
}

/// The shortest stripped length over the first `n` letter types (at least one).
pub open spec fn shortest_stripped(p: Seq<char>, n: nat) -> nat
    decreases n,
{
    if n <= 1 {
        stripped_length(p, FIRST_TYPE as int)
    } else {
        let best = shortest_stripped(p, (n - 1) as nat);
        let here = stripped_length(p, FIRST_TYPE + n - 1);
        if here < best {
            here
        } else {
            best
        }
    }
}

proof fn lemma_without_type_length(p: Seq<char>, t: int)
    ensures
        without_type(p, t).len() <= p.len(),
    decreases p.len(),
{
    if p.len() > 0 {
        lemma_without_type_length(p.drop_last(), t);
    }
}

/// Stripping a type before or after reducing gives the same reduced form.
pub proof fn lemma_strip_commutes(p: Seq<char>, t: int)
    ensures
        reduced_form(without_type(p, t)) == reduced_form(without_type(reduced_form(p), t)),
    decreases p.len(),
{
    if p.len() > 0 {
        let e = Seq::<char>::empty();
        let q = p.drop_last();
        let v = p.last();
        let rq = reduced_form(q);
        let wq = without_type(q, t);
        lemma_strip_commutes(q, t);
        lemma_settle_reduced(e, q);
        assert(p =~= q.push(v));
        assert(wq.push(v).drop_last() =~= wq);
        assert(reduced_form(wq.push(v)) == push_unit(reduced_form(wq), v));
        if rq.len() > 0 && crate::unit::reacts(rq.last(), v) {
            let r = rq.drop_last();
            let w = rq.last();
            let wr = without_type(r, t);
            assert(rq =~= r.push(w));
            assert(r.push(w).drop_last() =~= r);
            if unit_type(v) != t {
                assert(without_type(rq, t) == wr.push(w));
                assert(wr.push(w).drop_last() =~= wr);
                assert(reduced_form(wr.push(w)) == push_unit(reduced_form(wr), w));
                lemma_settle_reduced(e, wr);
                lemma_push_pair(reduced_form(wr), w, v);
            } else {
                assert(without_type(rq, t) == wr);
            }
        } else {
            let wrq = without_type(rq, t);
            assert(rq.push(v).drop_last() =~= rq);
            if unit_type(v) != t {
                assert(without_type(rq.push(v), t) == wrq.push(v));
                assert(wrq.push(v).drop_last() =~= wrq);
                assert(reduced_form(wrq.push(v)) == push_unit(reduced_form(wrq), v));
            } else {
                assert(without_type(rq.push(v), t) == wrq);
            }
        }
    }
}

/// Stripping a type never makes the reduced form longer.
pub proof fn lemma_strip_never_lengthens(p: Seq<char>, t: int)
    ensures
        stripped_length(p, t) <= reduced_form(p).len(),
{
    lemma_strip_commutes(p, t);
    lemma_reduce_length(without_type(reduced_form(p), t));
    lemma_without_type_length(reduced_form(p), t);
}

proof fn lemma_shortest_at_most_first(p: Seq<char>, n: nat)
    ensures
        shortest_stripped(p, n) <= stripped_length(p, FIRST_TYPE as int),
    decreases n,
{
    if n > 1 {
        lemma_shortest_at_most_first(p, (n - 1) as nat);
    }
}

/// The minimizer's best length is never above the reduced length of the
/// polymer itself.
pub proof fn lemma_minimize_bound(p: Seq<char>)
    ensures
        shortest_stripped(p, TYPE_COUNT as nat) <= reduced_form(p).len(),
{
    lemma_shortest_at_most_first(p, TYPE_COUNT as nat);
    lemma_strip_never_lengthens(p, FIRST_TYPE as int);
}

/// Copies the polymer without the units of type `t`.
pub fn strip_type(polymer: &[char], t: u32) -> (r: Vec<char>)
    ensures
        r@ == without_type(polymer@, t as int),
{
    let mut r: Vec<char> = Vec::new();
    let mut i: usize = 0;
    while i < polymer.len()
        invariant
            i <= polymer@.len(),
            r@ == without_type(polymer@.take(i as int), t as int),
        decreases polymer@.len() - i,
    {
        let v = polymer[i];
        assert(polymer@.take(i + 1).drop_last() =~= polymer@.take(i as int));
        if type_of(v) != t {
            r.push(v);
        }
        i += 1;
    }
    assert(polymer@.take(i as int) =~= polymer@);
    r
}

/// For each letter type, strips it and reduces what is left; returns the
/// lower-case letter of a type with the shortest result, and that length.
pub fn minimize(polymer: &[char]) -> (r: (char, usize))
    ensures
        'a' <= r.0 <= 'z',
        r.1 == stripped_length(polymer@, r.0 as int),
        r.1 == shortest_stripped(polymer@, TYPE_COUNT as nat),
        forall|t: int| FIRST_TYPE <= t < FIRST_TYPE + TYPE_COUNT ==> r.1 <= stripped_length(polymer@, t),
{
    let mut best_type: char = 'a';
    let mut best: usize = 0;
    let mut k: u8 = 0;
    while k < 26
        invariant
            k <= 26,
            'a' <= best_type <= 'z',
            k > 0 ==> best == stripped_length(polymer@, best_type as int),
            k > 0 ==> best == shortest_stripped(polymer@, k as nat),
            forall|t: int| FIRST_TYPE <= t < FIRST_TYPE + k ==> best <= stripped_length(polymer@, t),
        decreases 26 - k,
    {
        let c = (97 + k) as char;
        let t = c as u32;
        assert(t == FIRST_TYPE + k);
        let stripped = strip_type(polymer, t);
        let reduced = reduce(stripped.as_slice());
        let len = reduced.len();
        if k == 0 || len < best {
            best = len;
            best_type = c;
        }
        k += 1;
    }
    (best_type, best)
}

} // verus!

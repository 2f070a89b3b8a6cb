//! A pairwise walk over a buffer of bytes: each step yields a unit and the
//! one after it, the last unit being followed by a single end marker `0`.
use vstd::prelude::*;

verus! {

/// The bytes still to walk, the next one on top (at the end of the vector).
pub struct Pairs {
    pub pairs: Vec<u8>,
}

impl Pairs {
    /// A walk over `pairs` from its first byte.
    pub fn new(pairs: Vec<u8>) -> (r: Pairs)
        ensures
            r.pairs@ == pairs@.reverse(),
    {
        let mut v: Vec<u8> = Vec::new();
        let mut i: usize = pairs.len();
        while i > 0
            invariant
                i <= pairs@.len(),
                v@ == pairs@.skip(i as int).reverse(),
            decreases i,
        {
            i -= 1;
            assert(pairs@.skip(i as int).reverse() =~= v@.push(pairs@[i as int]));
            v.push(pairs[i]);
        }
        assert(pairs@.skip(0) =~= pairs@);
        Pairs { pairs: v }
    }

    /// How many bytes are still to walk.
    pub fn len(&self) -> (r: usize)
        ensures
            r == self.pairs@.len(),
    {
        self.pairs.len()
    }

    /// The next unit and the one after it (the end marker `0` after the last
    /// unit), advancing by one; `None` once the end marker has been walked.
    pub fn next(&mut self) -> (r: Option<(u8, u8)>)
        ensures
            old(self).pairs@.len() == 0 ==> r is None && final(self).pairs@ == old(self).pairs@,
            old(self).pairs@.len() >= 2 ==> r == Some(
                (old(self).pairs@.last(), old(self).pairs@[old(self).pairs@.len() - 2]),
            ) && final(self).pairs@ == old(self).pairs@.drop_last(),
            old(self).pairs@.len() == 1 ==> r == Some((old(self).pairs@[0], 0u8))
                && final(self).pairs@ == (if old(self).pairs@[0] == 0 {
                Seq::<u8>::empty()
            } else {
                seq![0u8]
            }),
    {
        let a = match self.pairs.pop() {
            Some(a) => a,
            None => {
                return None;
            },
        };
        let n = self.pairs.len();
        if n > 0 {
            let b = self.pairs[n - 1];
            Some((a, b))
        } else {
            if a != 0 {
                self.pairs.push(0);
            }
            Some((a, 0))
        }
    }
}

} // verus!

//! The pair generator: every unordered pair of the texts of a corpus, each
//! exactly once, as pairs of positions in the corpus.

use vstd::prelude::*;
use crate::error::RunError;

verus! {

/// The pairs `(first, second)`, `(first, second + 1)`, and so on up to
/// `(first, units - 1)`.
pub open spec fn row_from(first: usize, second: usize, units: usize) -> Seq<(usize, usize)> {
    Seq::new((units - second) as nat, |k: int| (first, (second + k) as usize))
}

/// The pairs whose smaller position is at least `first`, row by row.
pub open spec fn rows_from(first: usize, units: usize) -> Seq<(usize, usize)>
    decreases units - first,
{
    if first + 1 >= units {
        Seq::empty()
    } else {
        row_from(first, (first + 1) as usize, units) + rows_from((first + 1) as usize, units)
    }
}

/// Every pair of positions in a corpus of `units` texts, the smaller
/// position first, in the order in which the generator yields them.
pub open spec fn all_pairs(units: usize) -> Seq<(usize, usize)> {
    rows_from(0, units)
}

/// The number of unordered pairs among `units` texts.
pub open spec fn pair_count(units: nat) -> nat {
    (units * (units - 1) / 2) as nat
}

proof fn lemma_rows_count(first: usize, units: usize)
    requires
        first <= units,
    ensures
        rows_from(first, units).len() == pair_count((units - first) as nat),
    decreases units - first,
{
    let left = (units - first) as int;
    if first + 1 >= units {
        assert(left * (left - 1) / 2 == 0) by (nonlinear_arith)
            requires
                0 <= left <= 1,
        ;
    } else {
        lemma_rows_count((first + 1) as usize, units);
        assert(left - 1 + (left - 1) * (left - 2) / 2 == left * (left - 1) / 2)
            by (nonlinear_arith)
            requires
                left >= 2,
        ;
    }
}

proof fn lemma_rows_members(first: usize, units: usize, k: int)
    requires
        first <= units,
        0 <= k < rows_from(first, units).len(),
    ensures
        first <= rows_from(first, units)[k].0 < rows_from(first, units)[k].1 < units,
    decreases units - first,
{
    if first + 1 < units {
        let row = row_from(first, (first + 1) as usize, units);
        if k >= row.len() {
            lemma_rows_members((first + 1) as usize, units, k - row.len());
        }
    }
}

proof fn lemma_rows_distinct(first: usize, units: usize, j: int, k: int)
    requires
        first <= units,
        0 <= j < k < rows_from(first, units).len(),
    ensures
        rows_from(first, units)[j] != rows_from(first, units)[k],
    decreases units - first,
{
    if first + 1 < units {
        let row = row_from(first, (first + 1) as usize, units);
        if j >= row.len() {
            lemma_rows_distinct((first + 1) as usize, units, j - row.len(), k - row.len());
        } else if k >= row.len() {
            lemma_rows_members((first + 1) as usize, units, k - row.len());
        }
    }
}

proof fn lemma_rows_complete(first: usize, units: usize, a: usize, b: usize)
    requires
        first <= a < b < units,
    ensures
        rows_from(first, units).contains((a, b)),
    decreases units - first,
{
    let row = row_from(first, (first + 1) as usize, units);
    let rest = rows_from((first + 1) as usize, units);
    if a == first {
        let k = b - first - 1;
        assert(row[k] == (a, b));
        assert(rows_from(first, units)[k] == (a, b));
    } else {
        lemma_rows_complete((first + 1) as usize, units, a, b);
        let k = choose|k: int| 0 <= k < rest.len() && rest[k] == (a, b);
        assert(rows_from(first, units)[row.len() + k] == (a, b));
    }
}

/// A corpus of `units` texts has `units * (units - 1) / 2` pairs.
pub proof fn lemma_pair_count(units: usize)
    ensures
        all_pairs(units).len() == pair_count(units as nat),
{
    lemma_rows_count(0, units);
}

/// No pair joins a text with itself: the positions of a pair are in
/// ascending order and within the corpus.
pub proof fn lemma_no_self_pairs(units: usize, k: int)
    requires
        0 <= k < all_pairs(units).len(),
    ensures
        all_pairs(units)[k].0 < all_pairs(units)[k].1 < units,
{
    lemma_rows_members(0, units, k);
}

/// No pair occurs twice, in either order of its positions.
pub proof fn lemma_no_duplicate_pairs(units: usize, j: int, k: int)
    requires
        0 <= j < all_pairs(units).len(),
        0 <= k < all_pairs(units).len(),
        j != k,
    ensures
        all_pairs(units)[j] != all_pairs(units)[k],
        all_pairs(units)[j] != (all_pairs(units)[k].1, all_pairs(units)[k].0),
{
    if j < k {
        lemma_rows_distinct(0, units, j, k);
    } else {
        lemma_rows_distinct(0, units, k, j);
    }
    lemma_rows_members(0, units, j);
    lemma_rows_members(0, units, k);
}

/// Every two distinct texts are paired.
pub proof fn lemma_every_pair_occurs(units: usize, a: usize, b: usize)
    requires
        a < b < units,
    ensures
        all_pairs(units).contains((a, b)),
{
    lemma_rows_complete(0, units, a, b);
}

/// The generator: walks the pairs of a corpus in the order of
/// [`all_pairs`], holding the pair that it yields next.
#[derive(Clone, Copy, Debug)]
pub struct Pairs {
    first: usize,
    second: usize,
    units: usize,
}

impl Pairs {
    #[verifier::type_invariant]
    closed spec fn wf(self) -> bool {
        self.first < self.second <= self.units
    }

    /// The pairs that are still to come, in order.
    pub closed spec fn remaining(self) -> Seq<(usize, usize)> {
        if self.second >= self.units {
            Seq::empty()
        } else {
            row_from(self.first, self.second, self.units) + rows_from(
                (self.first + 1) as usize,
                self.units,
            )
        }
    }

    /// A generator of all pairs of a corpus of `units` texts; a corpus of
    /// fewer than two texts is refused.
    pub fn new(units: usize) -> (r: Result<Pairs, RunError>)
        ensures
            match r {
                Ok(pairs) => units >= 2 && pairs.remaining() == all_pairs(units),
                Err(e) => units < 2 && e == RunError::InsufficientInput,
            },
    {
        if units < 2 {
            Err(RunError::InsufficientInput)
        } else {
            Ok(Pairs { first: 0, second: 1, units })
        }
    }

    /// How many pairs are still to come.
    pub fn len(&self) -> (count: u128)
        ensures
            count == self.remaining().len(),
    {
        proof {
            use_type_invariant(self);
            lemma_rows_count((self.first + 1) as usize, self.units);
        }
        if self.second >= self.units {
            0
        } else {
            let later: u128 = (self.units - self.first - 1) as u128;
            assert(later * (later - 1) <= 0xFFFF_FFFF_FFFF_FFFE_0000_0000_0000_0001)
                by (nonlinear_arith)
                requires
                    1 <= later <= 0xFFFF_FFFF_FFFF_FFFF,
            ;
            (self.units - self.second) as u128 + later * (later - 1) / 2
        }
    }

    /// Yields the next pair, or nothing once every pair has been yielded.
    pub fn next(&mut self) -> (r: Option<(usize, usize)>)
        ensures
            match r {
                Some(pair) => old(self).remaining().len() > 0 && pair == old(self).remaining()[0]
                    && final(self).remaining() == old(self).remaining().skip(1),
                None => old(self).remaining().len() == 0 && *final(self) == *old(self),
            },
    {
        proof {
            use_type_invariant(&*self);
        }
        if self.second >= self.units {
            return None;
        }
        let pair = (self.first, self.second);
        let ghost before = *self;
        if self.second + 1 < self.units {
            *self = Pairs { first: self.first, second: self.second + 1, units: self.units };
        } else {
            *self = Pairs { first: self.first + 1, second: self.first + 2, units: self.units };
        }
        assert(self.remaining() =~= before.remaining().skip(1));
        Some(pair)
    }
}

} // verus!

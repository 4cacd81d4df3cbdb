//! The pair walk of the fuzzy title scan: every pair of photos `i < j` is
//! offered for scoring once, in lexicographic order, and the pairs whose
//! score (a percentage) reaches the threshold are kept.

use vstd::prelude::*;
use crate::phash::pair_before;

verus! {

/// Two photos whose titles matched, with the score of the match.
#[derive(Debug, Clone, Copy, PartialEq, Eq, Structural)]
pub struct ScoredPair {
    pub index_a: usize,
    pub index_b: usize,
    pub score: u32,
}

/// The walk over the pairs of `n` items: `(i, j)` is the pair to score
/// next, and `pairs` holds the pairs kept so far.
pub struct PairScan {
    pub n: usize,
    pub i: usize,
    pub j: usize,
    pub threshold: u32,
    pub pairs: Vec<ScoredPair>,
}

/// The pair after `(i, j)` among the pairs of `n` items.
pub open spec fn successor(n: int, i: int, j: int) -> (int, int) {
    if j + 1 < n {
        (i, j + 1)
    } else {
        (i + 1, i + 2)
    }
}

/// Whether `(a, b)` is a pair of `n` items.
pub open spec fn is_pair(n: int, a: int, b: int) -> bool {
    0 <= a < b < n
}

impl PairScan {
    /// The walk's invariant: the cursor is a pair (or past the last one),
    /// and the kept pairs are pairs before the cursor, in increasing order,
    /// each with a score at the threshold or above.
    pub open spec fn wf(&self) -> bool {
        &&& self.i < self.j
        &&& self.i + 1 < self.n ==> self.j < self.n
        &&& forall|k: int|
            0 <= k < self.pairs@.len() ==> {
                let p = #[trigger] self.pairs@[k];
                &&& is_pair(self.n as int, p.index_a as int, p.index_b as int)
                &&& pair_before(
                    p.index_a as int,
                    p.index_b as int,
                    self.i as int,
                    self.j as int,
                )
                &&& p.score >= self.threshold
            }
        &&& forall|k: int, l: int|
            0 <= k < l < self.pairs@.len() ==> pair_before(
                #[trigger] self.pairs@[k].index_a as int,
                self.pairs@[k].index_b as int,
                #[trigger] self.pairs@[l].index_a as int,
                self.pairs@[l].index_b as int,
            )
    }

    /// Whether every pair has been offered.
    pub open spec fn is_done(&self) -> bool {
        self.i + 1 >= self.n
    }

    /// A walk over the pairs of `n` items that keeps scores of at least
    /// `threshold`, starting at `(0, 1)`.
    pub fn new(n: usize, threshold: u32) -> (s: Self)
        ensures
            s.wf(),
            s.n == n,
            s.i == 0,
            s.j == 1,
            s.threshold == threshold,
            s.pairs@.len() == 0,
    {
        PairScan { n, i: 0, j: 1, threshold, pairs: Vec::new() }
    }

    /// The pair to score next, or `None` when every pair has been offered.
    pub fn next_pair(&self) -> (r: Option<(usize, usize)>)
        requires
            self.wf(),
        ensures
            match r {
                Some((a, b)) => !self.is_done() && a == self.i && b == self.j && is_pair(
                    self.n as int,
                    a as int,
                    b as int,
                ),
                None => self.is_done(),
            },
    {
        if self.n > 0 && self.i < self.n - 1 {
            Some((self.i, self.j))
        } else {
            None
        }
    }

    /// Takes the score of the current pair: keeps the pair when the score
    /// reaches the threshold, then moves to the next pair.
    pub fn record(&mut self, score: u32)
        requires
            old(self).wf(),
            !old(self).is_done(),
        ensures
            final(self).wf(),
            final(self).n == old(self).n,
            final(self).threshold == old(self).threshold,
            (final(self).i as int, final(self).j as int) == successor(
                old(self).n as int,
                old(self).i as int,
                old(self).j as int,
            ),
            final(self).pairs@ == if score >= old(self).threshold {
                old(self).pairs@.push(
                    ScoredPair { index_a: old(self).i, index_b: old(self).j, score },
                )
            } else {
                old(self).pairs@
            },
    {
        if score >= self.threshold {
            let p = ScoredPair { index_a: self.i, index_b: self.j, score };
            self.pairs.push(p);
        }
        if self.j + 1 < self.n {
            self.j = self.j + 1;
        } else {
            self.i = self.i + 1;
            self.j = self.i + 1;
        }
    }

    /// The pairs kept.
    pub fn into_pairs(self) -> (v: Vec<ScoredPair>)
        ensures
            v@ == self.pairs@,
    {
        self.pairs
    }
}

/// The walk skips no pair: the successor of a pair `(i, j)` comes after it,
/// and no pair of the `n` items lies strictly between them.
pub proof fn lemma_successor_is_next(n: int, i: int, j: int, a: int, b: int)
    requires
        is_pair(n, i, j),
        is_pair(n, a, b),
        pair_before(i, j, a, b),
    ensures
        pair_before(i, j, successor(n, i, j).0, successor(n, i, j).1),
        !pair_before(a, b, successor(n, i, j).0, successor(n, i, j).1),
{
}

} // verus!

//! A growable set of small indices, stored as 64-bit words.
use vstd::prelude::*;

verus! {

/// The bit for index `k` of one word.
pub open spec fn word_bit(w: u64, k: u64) -> bool {
    (w >> k) & 1u64 == 1u64
}

pub proof fn lemma_set_bit(w: u64, k: u64, j: u64)
    requires
        k < 64,
        j < 64,
    ensures
        word_bit(w | (1u64 << k), j) == (j == k || word_bit(w, j)),
{
    assert(((w | (1u64 << k)) >> j) & 1u64 == 1u64 <==> (j == k || (w >> j) & 1u64 == 1u64))
        by (bit_vector)
        requires
            k < 64,
            j < 64,
    ;
}

pub proof fn lemma_zero_word(j: u64)
    requires
        j < 64,
    ensures
        !word_bit(0u64, j),
{
    assert((0u64 >> j) & 1u64 != 1u64) by (bit_vector);
}

proof fn lemma_insert_bit(before: Seq<u64>, after: Seq<u64>, i: int, j: int)
    requires
        0 <= i,
        i / 64 < before.len(),
        after == before.update(i / 64, before[i / 64] | (1u64 << ((i % 64) as u64))),
    ensures
        (0 <= j && j < 64 * after.len() && word_bit(after[j / 64], (j % 64) as u64)) == (j == i || (0
            <= j && j < 64 * before.len() && word_bit(before[j / 64], (j % 64) as u64))),
{
    assert(i < 64 * before.len()) by (nonlinear_arith)
        requires
            i / 64 < before.len(),
            0 <= i,
    ;
    if 0 <= j && j < 64 * after.len() {
        lemma_set_bit(before[i / 64], (i % 64) as u64, (j % 64) as u64);
        assert(j == 64 * (j / 64) + j % 64) by (nonlinear_arith);
        assert(i == 64 * (i / 64) + i % 64) by (nonlinear_arith);
    }
}

/// A set of indices in which each index is one bit of `words`.
pub struct BitSet {
    pub words: Vec<u64>,
}

impl BitSet {
    /// Whether index `i` is in the set.
    pub open spec fn has(&self, i: int) -> bool {
        0 <= i && i < 64 * self.words@.len() && word_bit(self.words@[i / 64], (i % 64) as u64)
    }

    /// The empty set.
    pub fn new() -> (r: BitSet)
        ensures
            forall|i: int| !r.has(i),
    {
        BitSet { words: Vec::new() }
    }

    /// Whether index `i` is in the set.
    pub fn contains(&self, i: usize) -> (r: bool)
        ensures
            r == self.has(i as int),
    {
        let w = i / 64;
        if w >= self.words.len() {
            false
        } else {
            let k = (i % 64) as u64;
            (self.words[w] >> k) & 1u64 == 1u64
        }
    }

    /// Adds index `i`; every other index keeps its membership.
    pub fn insert(&mut self, i: usize)
        ensures
            forall|j: int| final(self).has(j) == (j == i || old(self).has(j)),
    {
        let w = i / 64;
        while self.words.len() <= w
            invariant
                forall|j: int| self.has(j) == old(self).has(j),
            decreases w + 1 - self.words.len(),
        {
            let ghost before = *self;
            self.words.push(0u64);
            assert forall|j: int| self.has(j) == before.has(j) by {
                if 0 <= j && j < 64 * self.words@.len() {
                    if j / 64 == before.words@.len() {
                        lemma_zero_word((j % 64) as u64);
                    }
                }
            }
        }
        let k = (i % 64) as u64;
        let ghost before = *self;
        let old_word = self.words[w];
        self.words.set(w, old_word | (1u64 << k));
        assert forall|j: int| #[trigger] self.has(j) == (j == i || before.has(j)) by {
            lemma_insert_bit(before.words@, self.words@, i as int, j);
        }
    }
}

} // verus!

//! An allocation bitmap: one bit per inode or per data block.
use crate::seqs;
use vstd::prelude::*;

verus! {

/// The bits of the items in use are set.
pub struct Bitmap {
    bits: Vec<bool>,
}

/// The property of a bit that its item is free.
pub open spec fn is_clear() -> spec_fn(bool) -> bool {
    |bit: bool| !bit
}

/// How many items of a bitmap are free.
pub open spec fn clear_count(bits: Seq<bool>) -> nat {
    seqs::count_where(bits, is_clear())
}

/// The least free item of a bitmap, or its length if none is free.
pub open spec fn first_clear(bits: Seq<bool>) -> int {
    seqs::first_index(bits, is_clear())
}

impl View for Bitmap {
    type V = Seq<bool>;

    closed spec fn view(&self) -> Seq<bool> {
        self.bits@
    }
}

impl Bitmap {
    /// A bitmap of `n` free items.
    pub fn new(n: usize) -> (map: Self)
        ensures
            map@ == Seq::new(n as nat, |i: int| false),
    {
        let mut bits: Vec<bool> = Vec::new();
        let mut i: usize = 0;
        while i < n
            invariant
                i <= n,
                bits@ == Seq::new(i as nat, |j: int| false),
            decreases n - i,
        {
            bits.push(false);
            i = i + 1;
            assert(bits@ =~= Seq::new(i as nat, |j: int| false));
        }
        Bitmap { bits }
    }

    /// How many items there are.
    pub fn len(&self) -> (n: usize)
        ensures
            n == self@.len(),
    {
        self.bits.len()
    }

    /// Whether item `i` is in use.
    pub fn is_used(&self, i: usize) -> (used: bool)
        requires
            i < self@.len(),
        ensures
            used == self@[i as int],
    {
        self.bits[i]
    }

    /// The least free item, or the number of items if none is free.
    pub fn first_clear(&self) -> (i: usize)
        ensures
            i == first_clear(self@),
            i <= self@.len(),
    {
        let mut i: usize = 0;
        while i < self.bits.len() && self.bits[i]
            invariant
                i <= self.bits@.len(),
                forall|j: int| 0 <= j < i ==> self@[j],
            decreases self.bits@.len() - i,
        {
            i = i + 1;
        }
        proof {
            seqs::lemma_first_index_is(self@, is_clear(), i as int);
        }
        i
    }

    /// Takes the least free item.
    pub fn alloc_bit(&mut self) -> (item: Option<usize>)
        ensures
            match item {
                Some(i) => {
                    &&& i == first_clear(old(self)@)
                    &&& i < old(self)@.len()
                    &&& !old(self)@[i as int]
                    &&& final(self)@ == old(self)@.update(i as int, true)
                },
                None => {
                    &&& first_clear(old(self)@) == old(self)@.len()
                    &&& final(self)@ == old(self)@
                },
            },
    {
        let i: usize = self.first_clear();
        if i == self.bits.len() {
            return None;
        }
        proof {
            seqs::lemma_first_index(self@, is_clear());
        }
        self.bits[i] = true;
        Some(i)
    }

    /// Gives item `i` back.
    pub fn dealloc_bit(&mut self, i: usize)
        requires
            i < old(self)@.len(),
            old(self)@[i as int],
        ensures
            final(self)@ == old(self)@.update(i as int, false),
    {
        self.bits[i] = false;
    }

    /// How many items are free.
    pub fn count_clear(&self) -> (n: usize)
        ensures
            n == clear_count(self@),
    {
        let mut n: usize = 0;
        let mut i: usize = 0;
        while i < self.bits.len()
            invariant
                n <= i <= self.bits@.len(),
                n == clear_count(self.bits@.take(i as int)),
            decreases self.bits@.len() - i,
        {
            proof {
                assert(self.bits@.take(i as int + 1) =~= self.bits@.take(i as int).push(
                    self.bits@[i as int],
                ));
                seqs::lemma_count_push(
                    self.bits@.take(i as int),
                    is_clear(),
                    self.bits@[i as int],
                );
            }
            if !self.bits[i] {
                n = n + 1;
            }
            i = i + 1;
        }
        assert(self.bits@.take(i as int) =~= self.bits@);
        n
    }
}

} // verus!

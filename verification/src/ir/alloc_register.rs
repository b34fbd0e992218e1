//! Virtual register allocation.
use vstd::prelude::*;

verus! {

/// Bit `i` of `bits` is set.
pub open spec fn bit_set(bits: u64, i: int) -> bool {
    0 <= i < 64 && (bits >> (i as u64)) & 1 == 1
}

/// The 64 bits of `bits`, lowest first.
pub open spec fn bits_view(bits: u64) -> Seq<bool> {
    Seq::new(64, |i: int| bit_set(bits, i))
}

/// Number of `true` in `v`.
pub open spec fn count_true(v: Seq<bool>) -> nat
    decreases v.len(),
{
    if v.len() == 0 {
        0
    } else {
        count_true(v.drop_last()) + if v.last() {
            1nat
        } else {
            0nat
        }
    }
}

proof fn lemma_count_true_update(v: Seq<bool>, i: int, b: bool)
    requires
        0 <= i < v.len(),
    ensures
        count_true(v.update(i, b)) == count_true(v) - (if v[i] {
            1int
        } else {
            0int
        }) + (if b {
            1int
        } else {
            0int
        }),
    decreases v.len(),
{
    let w = v.update(i, b);
    if i == v.len() - 1 {
        assert(w.drop_last() =~= v.drop_last());
    } else {
        lemma_count_true_update(v.drop_last(), i, b);
        assert(w.drop_last() =~= v.drop_last().update(i, b));
    }
}

proof fn lemma_count_true_le(v: Seq<bool>)
    ensures
        count_true(v) <= v.len(),
    decreases v.len(),
{
    if v.len() > 0 {
        lemma_count_true_le(v.drop_last());
    }
}

proof fn lemma_bit_or(bits: u64, i: u64, j: u64)
    requires
        i < 64,
        j < 64,
    ensures
        ((bits | (1u64 << i)) >> j) & 1 == 1 <==> (j == i || (bits >> j) & 1 == 1),
{
    assert(((bits | (1u64 << i)) >> j) & 1 == 1 <==> (j == i || (bits >> j) & 1 == 1))
        by (bit_vector)
        requires
            i < 64,
            j < 64,
    ;
}

proof fn lemma_bit_clear(bits: u64, i: u64, j: u64)
    requires
        i < 64,
        j < 64,
    ensures
        ((bits & !(1u64 << i)) >> j) & 1 == 1 <==> (j != i && (bits >> j) & 1 == 1),
{
    assert(((bits & !(1u64 << i)) >> j) & 1 == 1 <==> (j != i && (bits >> j) & 1 == 1))
        by (bit_vector)
        requires
            i < 64,
            j < 64,
    ;
}

proof fn lemma_bit_and(bits: u64, i: u64)
    requires
        i < 64,
    ensures
        (bits & (1u64 << i)) != 0 <==> (bits >> i) & 1 == 1,
{
    assert((bits & (1u64 << i)) != 0 <==> (bits >> i) & 1 == 1) by (bit_vector)
        requires
            i < 64,
    ;
}

/// Virtual register allocator over 64 registers.
pub struct RegisterAlloc {
    bitset: u64,
}

impl Default for RegisterAlloc {
    fn default() -> (r: Self)
        ensures
            r@ == Seq::new(64, |i: int| false),
    {
        proof {
            assert forall|i: int| 0 <= i < 64 implies !bit_set(0u64, i) by {
                let j = i as u64;
                assert((0u64 >> j) & 1 == 0) by (bit_vector);
            }
        }
        let r = RegisterAlloc { bitset: 0 };
        assert(r@ =~= Seq::new(64, |i: int| false));
        r
    }
}

impl View for RegisterAlloc {
    type V = Seq<bool>;

    /// Which of the 64 registers are allocated.
    closed spec fn view(&self) -> Seq<bool> {
        bits_view(self.bitset)
    }
}

impl RegisterAlloc {
    /// Raw bit set of allocated registers (bit `i` for register `i`).
    pub fn bitset(&self) -> (r: u64)
        ensures
            bits_view(r) == self@,
    {
        self.bitset
    }

    /// Returns number of allocated registers.
    pub fn len(&self) -> (r: u32)
        ensures
            r == count_true(self@),
    {
        let mut n: u32 = 0;
        let mut i: u64 = 0;
        while i < 64
            invariant
                i <= 64,
                n == count_true(self@.subrange(0, i as int)),
                n <= i,
            decreases 64 - i,
        {
            let ghost prefix = self@.subrange(0, i as int);
            assert(self@.subrange(0, i + 1).drop_last() =~= prefix);
            if (self.bitset >> i) & 1 == 1 {
                n = n + 1;
            }
            i = i + 1;
        }
        assert(self@.subrange(0, 64) =~= self@);
        n
    }

    /// Allocate the lowest free register.
    pub fn allocate(&mut self) -> (r: usize)
        requires
            exists|i: int| 0 <= i < 64 && !old(self)@[i],
        ensures
            r < 64,
            !old(self)@[r as int],
            forall|i: int| 0 <= i < r ==> old(self)@[i],
            final(self)@ == old(self)@.update(r as int, true),
    {
        let min = self.min();
        self.set(min, true);
        min
    }

    /// Free register being used.
    pub fn free(&mut self, index: usize)
        requires
            index < 64,
            old(self)@[index as int],
        ensures
            final(self)@ == old(self)@.update(index as int, false),
    {
        self.set(index, false);
    }

    /// Lowest free register.
    pub fn min(&self) -> (r: usize)
        requires
            exists|i: int| 0 <= i < 64 && !self@[i],
        ensures
            r < 64,
            !self@[r as int],
            forall|i: int| 0 <= i < r ==> self@[i],
    {
        let mut b: usize = 0;
        while b < 64
            invariant
                b <= 64,
                forall|i: int| 0 <= i < b ==> self@[i],
                exists|i: int| 0 <= i < 64 && !self@[i],
            decreases 64 - b,
        {
            if !self.get(b) {
                return b;
            }
            b = b + 1;
        }
        b
    }

    /// Register `index` is allocated.
    pub fn get(&self, index: usize) -> (r: bool)
        requires
            index < 64,
        ensures
            r == self@[index as int],
    {
        let bit: u64 = 1u64 << (index as u64);
        proof {
            lemma_bit_and(self.bitset, index as u64);
        }
        (self.bitset & bit) != 0
    }

    /// Mark register `index` as allocated or free. Always returns `true`.
    pub fn set(&mut self, index: usize, value: bool) -> (r: bool)
        requires
            index < 64,
        ensures
            r,
            final(self)@ == old(self)@.update(index as int, value),
    {
        let bit: u64 = 1u64 << (index as u64);
        let ghost old_bits = self.bitset;
        let old = (self.bitset | bit) != 0;
        assert(old) by {
            let i = index as u64;
            assert(i < 64 ==> (old_bits | (1u64 << i)) != 0) by (bit_vector);
        }
        if value {
            self.bitset = self.bitset | bit;
            proof {
                assert forall|j: int| 0 <= j < 64 implies bit_set(self.bitset, j) == (j == index
                    || bit_set(old_bits, j)) by {
                    lemma_bit_or(old_bits, index as u64, j as u64);
                }
                assert forall|j: int| 0 <= j < 64 implies #[trigger] bits_view(self.bitset)[j]
                    == bits_view(old_bits).update(index as int, value)[j] by {
                    lemma_bit_or(old_bits, index as u64, j as u64);
                    assert(self.bitset == old_bits | (1u64 << (index as u64)));
                }
                assert(bits_view(self.bitset) =~= bits_view(old_bits).update(index as int, value));
            }
        } else {
            self.bitset = self.bitset & !bit;
            proof {
                assert forall|j: int| 0 <= j < 64 implies bit_set(self.bitset, j) == (j != index
                    && bit_set(old_bits, j)) by {
                    lemma_bit_clear(old_bits, index as u64, j as u64);
                }
                assert forall|j: int| 0 <= j < 64 implies #[trigger] bits_view(self.bitset)[j]
                    == bits_view(old_bits).update(index as int, value)[j] by {
                    lemma_bit_clear(old_bits, index as u64, j as u64);
                    assert(self.bitset == old_bits & !(1u64 << (index as u64)));
                }
                assert(bits_view(self.bitset) =~= bits_view(old_bits).update(index as int, value));
            }
        }
        old
    }
}

/// Allocating a register and freeing it again gives back the allocator as it
/// was, and the number of allocated registers goes up by one in between.
pub proof fn lemma_alloc_free(before: Seq<bool>, r: int)
    requires
        before.len() == 64,
        0 <= r < 64,
        !before[r],
    ensures
        before.update(r, true).update(r, false) == before,
        count_true(before.update(r, true)) == count_true(before) + 1,
{
    assert(before.update(r, true).update(r, false) =~= before);
    lemma_count_true_update(before, r, true);
}

/// The allocator tracks 64 registers.
pub proof fn lemma_view_len(a: &RegisterAlloc)
    ensures
        a@.len() == 64,
{
}

} // verus!

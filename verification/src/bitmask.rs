//! Bitmasks over an ordered flag list: bit `j` of a mask says whether flag `j`
//! is active in the variant that the mask stands for.

use vstd::arithmetic::div_mod::{
    lemma_basic_div, lemma_div_denominator, lemma_fundamental_div_mod_converse,
};
use vstd::arithmetic::power2::{
    lemma2_to64, lemma_pow2_adds, lemma_pow2_pos, lemma_pow2_strictly_increases,
    lemma_pow2_unfold, pow2,
};
use vstd::bits::lemma_usize_shr_is_div;
use vstd::prelude::*;

verus! {

/// The most flags one declaration may carry.
///
/// The number of variants doubles with every flag; four flags give sixteen
/// copies of the template, which is still small enough to read through.
pub const MAX_FLAGS: usize = 4;

/// Whether a declaration with `count` flags can be expanded.
pub open spec fn valid_flag_count(count: nat) -> bool {
    1 <= count <= MAX_FLAGS
}

/// Whether bit `j` of `mask` is set.
pub open spec fn bit_at(mask: nat, j: nat) -> bool {
    (mask / pow2(j)) % 2 == 1
}

/// The masks of `n` flags in the order in which their variants are emitted.
pub open spec fn all_masks(n: nat) -> Seq<nat> {
    Seq::new(pow2(n), |m: int| m as nat)
}

/// No bit is set in the mask 0.
pub proof fn lemma_zero_mask_is_clear(j: nat)
    ensures
        !bit_at(0, j),
{
    lemma_pow2_pos(j);
    lemma_basic_div(0, pow2(j) as int);
}

/// Every one of the lowest `n` bits is set in the mask `2^n - 1`.
pub proof fn lemma_full_mask_is_set(n: nat, j: nat)
    requires
        j < n,
    ensures
        pow2(n) >= 1,
        bit_at((pow2(n) - 1) as nat, j),
{
    let low = pow2(j) as int;
    let high = pow2((n - j) as nat) as int;
    lemma_pow2_pos(n);
    lemma_pow2_pos(j);
    lemma_pow2_adds(j, (n - j) as nat);
    lemma_pow2_unfold((n - j) as nat);
    assert(pow2(n) - 1 == (high - 1) * low + (low - 1)) by (nonlinear_arith)
        requires
            pow2(n) == low * high,
    ;
    lemma_fundamental_div_mod_converse(pow2(n) - 1, low, high - 1, low - 1);
}

/// Bit `j + 1` of a mask is bit `j` of its half.
pub proof fn lemma_bit_of_half(mask: nat, j: nat)
    ensures
        bit_at(mask, j + 1) == bit_at(mask / 2, j),
{
    lemma_pow2_pos(j);
    lemma_pow2_unfold(j + 1);
    lemma_div_denominator(mask as int, 2, pow2(j) as int);
}

/// Two different masks of `n` flags differ in one of the lowest `n` bits.
/// The bit handed back is the lowest in which they differ.
pub proof fn lemma_masks_differ(a: nat, b: nat, n: nat) -> (j: nat)
    requires
        a != b,
        a < pow2(n),
        b < pow2(n),
    ensures
        j < n,
        bit_at(a, j) != bit_at(b, j),
        forall|k: nat| k < j ==> bit_at(a, k) == bit_at(b, k),
    decreases n,
{
    lemma2_to64();
    if n == 0 {
        0
    } else if a % 2 != b % 2 {
        0
    } else {
        lemma_pow2_unfold(n);
        let below = lemma_masks_differ(a / 2, b / 2, (n - 1) as nat);
        lemma_bit_of_half(a, below);
        lemma_bit_of_half(b, below);
        assert forall|k: nat| k < below + 1 implies bit_at(a, k) == bit_at(b, k) by {
            if k > 0 {
                let lower = (k - 1) as nat;
                lemma_bit_of_half(a, lower);
                lemma_bit_of_half(b, lower);
                assert(bit_at(a / 2, lower) == bit_at(b / 2, lower));
            } else {
                assert(a / 1 == a && b / 1 == b);
            }
        }
        below + 1
    }
}

/// Tests bit `j` of `mask`. Positions beyond the width of `usize` hold no bit.
pub fn bit_is_set(mask: usize, j: usize) -> (set: bool)
    ensures
        set == bit_at(mask as nat, j as nat),
{
    if j >= usize::BITS as usize {
        proof {
            lemma2_to64();
            if j > usize::BITS {
                lemma_pow2_strictly_increases(usize::BITS as nat, j as nat);
            }
            lemma_basic_div(mask as int, pow2(j as nat) as int);
        }
        false
    } else {
        let shifted: usize = mask >> j;
        proof {
            lemma_usize_shr_is_div(mask, j);
            assert((shifted & 1 == 1) == (shifted % 2 == 1)) by (bit_vector);
        }
        shifted & 1 == 1
    }
}

/// The number of variants that `n` flags give: two to the power of `n`.
pub fn variant_count(n: usize) -> (count: usize)
    requires
        n <= MAX_FLAGS,
    ensures
        count == pow2(n as nat),
{
    proof {
        lemma2_to64();
        assert(1usize << 0usize == 1usize) by (bit_vector);
        assert(1usize << 1usize == 2usize) by (bit_vector);
        assert(1usize << 2usize == 4usize) by (bit_vector);
        assert(1usize << 3usize == 8usize) by (bit_vector);
        assert(1usize << 4usize == 16usize) by (bit_vector);
    }
    1usize << n
}

/// A walk over the masks of `n` flags in ascending order, each exactly once.
///
/// The walk holds no more than a position; `new` starts another one.
pub struct Bitmasks {
    next: usize,
    end: usize,
}

impl Bitmasks {
    #[verifier::type_invariant]
    spec fn in_range(&self) -> bool {
        self.next <= self.end
    }

    /// The masks that are still to come, in the order in which they come.
    pub closed spec fn remaining(&self) -> Seq<nat> {
        Seq::new((self.end - self.next) as nat, |i: int| (self.next + i) as nat)
    }

    /// Starts a walk over all masks of `n` flags.
    pub fn new(n: usize) -> (walk: Bitmasks)
        requires
            n <= MAX_FLAGS,
        ensures
            walk.remaining() == all_masks(n as nat),
    {
        let end: usize = variant_count(n);
        let walk = Bitmasks { next: 0, end };
        assert(walk.remaining() =~= all_masks(n as nat));
        walk
    }

    /// Hands out the next mask, or `None` once the walk is over.
    pub fn next_mask(&mut self) -> (mask: Option<usize>)
        ensures
            old(self).remaining().len() == 0 ==> mask is None && final(self).remaining()
                == old(self).remaining(),
            old(self).remaining().len() > 0 ==> mask == Some(old(self).remaining()[0] as usize)
                && final(self).remaining() == old(self).remaining().drop_first(),
    {
        proof {
            use_type_invariant(&*self);
        }
        if self.next < self.end {
            let mask: usize = self.next;
            self.next = self.next + 1;
            assert(self.remaining() =~= old(self).remaining().drop_first());
            Some(mask)
        } else {
            None
        }
    }
}

} // verus!

//! Integer facts the allocator relies on: powers of two, rounding up to an
//! alignment, and the absolute value of a draw.
use vstd::arithmetic::power2::{
    lemma2_to64, lemma_pow2_pos, lemma_pow2_strictly_increases, lemma_pow2_unfold, pow2,
};
use vstd::prelude::*;

verus! {

/// `a` is a power of two.
pub open spec fn is_pow2(a: int) -> bool {
    exists|k: nat| pow2(k) == a
}

/// The smallest multiple of `a` that is at least `x`.
pub open spec fn align_up(x: int, a: int) -> int {
    if x % a == 0 {
        x
    } else {
        x + (a - x % a)
    }
}

/// |x|.
pub open spec fn abs(x: int) -> int {
    if x < 0 {
        -x
    } else {
        x
    }
}

/// A power of two is positive.
pub proof fn lemma_is_pow2_positive(a: int)
    requires
        is_pow2(a),
    ensures
        a >= 1,
{
    let k = choose|k: nat| pow2(k) == a;
    lemma_pow2_pos(k);
}

/// Twice a power of two that fits in a `usize` is at most `usize::MAX + 1`.
pub proof fn lemma_pow2_fits(a: int)
    requires
        is_pow2(a),
        a <= usize::MAX,
    ensures
        1 <= a,
        2 * a <= usize::MAX + 1,
{
    let k = choose|k: nat| pow2(k) == a;
    lemma_pow2_pos(k);
    lemma2_to64();
    let w: nat = if usize::MAX == 0xffff_ffff { 32 } else { 64 };
    assert(pow2(w) == usize::MAX + 1);
    if k >= w {
        if k > w {
            lemma_pow2_strictly_increases(w, k);
        }
    }
    lemma_pow2_unfold(k + 1);
    if k + 1 < w {
        lemma_pow2_strictly_increases(k + 1, w);
    }
}

/// What `align_up` gives is a multiple of `a`, no less than `x`, and less
/// than `x + a`.
pub proof fn lemma_align_up(x: int, a: int)
    requires
        0 <= x,
        0 < a,
    ensures
        align_up(x, a) % a == 0,
        x <= align_up(x, a) < x + a,
{
    assert(0 <= x % a < a);
    if x % a != 0 {
        vstd::arithmetic::div_mod::lemma_fundamental_div_mod(x, a);
        vstd::arithmetic::div_mod::lemma_mod_multiples_vanish(x / a + 1, 0, a);
        assert(align_up(x, a) == a * (x / a + 1)) by (nonlinear_arith)
            requires
                x == a * (x / a) + x % a,
                align_up(x, a) == x + (a - x % a),
        ;
        vstd::arithmetic::div_mod::lemma_mod_multiples_basic(x / a + 1, a);
    }
}

/// 2^n, for an `n` whose power fits in a `usize`.
pub fn pow2_usize(n: usize) -> (r: usize)
    requires
        pow2(n as nat) <= usize::MAX,
    ensures
        r == pow2(n as nat),
{
    let mut r: usize = 1;
    let mut i: usize = 0;
    proof {
        lemma2_to64();
    }
    while i < n
        invariant
            i <= n,
            pow2(n as nat) <= usize::MAX,
            r == pow2(i as nat),
        decreases n - i,
    {
        proof {
            lemma_pow2_unfold((i + 1) as nat);
            if i + 1 < n {
                lemma_pow2_strictly_increases((i + 1) as nat, n as nat);
            }
        }
        r = r * 2;
        i = i + 1;
    }
    r
}

} // verus!

use vstd::arithmetic::power2::{lemma2_to64, lemma2_to64_rest, lemma_pow2_unfold, pow2};
use vstd::prelude::*;

verus! {

/// Number of bits kept per axis in a key.
pub const KEY_BITS: u32 = 21;

/// Number of cells along one axis at key depth: `2^KEY_BITS`.
pub const CELLS_PER_AXIS: u32 = 2097152;

/// The key made of the low `n` bits of `x`, `y` and `z`, interleaved so that
/// bit `i` of `x` lands at bit `3i`, of `y` at `3i + 1` and of `z` at `3i + 2`.
pub open spec fn interleave(x: nat, y: nat, z: nat, n: nat) -> nat
    decreases n,
{
    if n == 0 {
        0
    } else {
        (x % 2) + 2 * (y % 2) + 4 * (z % 2) + 8 * interleave(x / 2, y / 2, z / 2, (n - 1) as nat)
    }
}

/// An interleaving of `n` bits per axis fits in `3n` bits.
pub proof fn lemma_interleave_bound(x: nat, y: nat, z: nat, n: nat)
    ensures
        interleave(x, y, z, n) < pow2(3 * n),
    decreases n,
{
    if n > 0 {
        lemma_interleave_bound(x / 2, y / 2, z / 2, (n - 1) as nat);
        lemma_pow2_unfold(3 * n);
        lemma_pow2_unfold((3 * n - 1) as nat);
        lemma_pow2_unfold((3 * n - 2) as nat);
        let prev = interleave(x / 2, y / 2, z / 2, (n - 1) as nat);
        let p = pow2((3 * n - 3) as nat);
        assert(3 * ((n - 1) as nat) == (3 * n - 3) as nat);
        assert(pow2(3 * n) == 8 * p);
        assert((x % 2) + 2 * (y % 2) + 4 * (z % 2) + 8 * prev < 8 * p) by (nonlinear_arith)
            requires
                prev < p,
                x % 2 < 2,
                y % 2 < 2,
                z % 2 < 2,
        ;
    } else {
        lemma2_to64();
    }
}

/// Encodes three cell indices of `KEY_BITS` bits each into one Morton key.
pub fn encode(x: u32, y: u32, z: u32) -> (r: u64)
    requires
        x < CELLS_PER_AXIS,
        y < CELLS_PER_AXIS,
        z < CELLS_PER_AXIS,
    ensures
        r == interleave(x as nat, y as nat, z as nat, KEY_BITS as nat),
{
    let ghost total = interleave(x as nat, y as nat, z as nat, KEY_BITS as nat);
    proof {
        lemma_interleave_bound(x as nat, y as nat, z as nat, KEY_BITS as nat);
        lemma2_to64();
        lemma2_to64_rest();
    }
    let mut xs: u32 = x;
    let mut ys: u32 = y;
    let mut zs: u32 = z;
    let mut key: u64 = 0;
    let mut mult: u64 = 1;
    let mut i: u32 = 0;
    while i < KEY_BITS
        invariant
            i <= KEY_BITS,
            mult == pow2(3 * i as nat),
            total < pow2(63),
            key < mult,
            key + mult * interleave(xs as nat, ys as nat, zs as nat, (KEY_BITS - i) as nat) == total,
        decreases KEY_BITS - i,
    {
        let ghost rest = interleave(xs as nat / 2, ys as nat / 2, zs as nat / 2, (KEY_BITS - i - 1) as nat);
        let low: u64 = (xs % 2) as u64 + 2 * (ys % 2) as u64 + 4 * (zs % 2) as u64;
        proof {
            lemma2_to64_rest();
            lemma_pow2_unfold(3 * i as nat + 1);
            lemma_pow2_unfold(3 * i as nat + 2);
            lemma_pow2_unfold(3 * i as nat + 3);
            assert(3 * (i + 1) as nat == 3 * i as nat + 3);
            assert(key + mult * (low + 8 * rest) == total);
            assert(mult * (low + 8 * rest) == mult * low + (mult * 8) * rest) by (nonlinear_arith);
            assert(low < 8);
            assert(mult * low + mult <= mult * 8) by (nonlinear_arith)
                requires low < 8;
            assert((mult * 8) * rest >= 0) by (nonlinear_arith);
            assert(key + mult * low <= total);
            if i + 1 < KEY_BITS {
                vstd::arithmetic::power2::lemma_pow2_strictly_increases(3 * (i + 1) as nat, 63);
            }
            assert(mult * 8 <= pow2(63));
        }
        key = key + mult * low;
        mult = mult * 8;
        xs = xs / 2;
        ys = ys / 2;
        zs = zs / 2;
        i = i + 1;
    }
    assert((KEY_BITS - i) as nat == 0);
    assert(interleave(xs as nat, ys as nat, zs as nat, 0) == 0);
    assert(mult * 0 == 0);
    key
}

} // verus!

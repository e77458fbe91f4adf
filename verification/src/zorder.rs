//! The Z-order (Morton) curve: the bits of `x` and `y` interleaved into one
//! index, `x` in the even positions and `y` in the odd ones.

use vstd::prelude::*;
use vstd::arithmetic::power2::{lemma2_to64, lemma_pow2_pos, lemma_pow2_unfold, pow2};
use vstd::arithmetic::div_mod::{
    lemma_div_denominator, lemma_fundamental_div_mod, lemma_fundamental_div_mod_converse,
    lemma_small_mod,
};
use vstd::bits::{lemma_u32_shr_is_div, lemma_u64_shr_is_div};

verus! {

/// The index whose lowest `2 * bits` bits are the lowest `bits` bits of `x`
/// and `y`, interleaved: bit `i` of `x` at position `2 * i`, bit `i` of `y`
/// at position `2 * i + 1`.
pub open spec fn interleave(x: nat, y: nat, bits: nat) -> nat
    decreases bits,
{
    if bits == 0 {
        0
    } else {
        (x % 2) + 2 * (y % 2) + 4 * interleave(x / 2, y / 2, (bits - 1) as nat)
    }
}

/// The pair whose lowest `bits` bits are the even and the odd bits of `z`.
pub open spec fn deinterleave(z: nat, bits: nat) -> (nat, nat)
    decreases bits,
{
    if bits == 0 {
        (0, 0)
    } else {
        let rest = deinterleave(z / 4, (bits - 1) as nat);
        ((z % 2) + 2 * rest.0, ((z / 2) % 2) + 2 * rest.1)
    }
}

/// The Z-order index of a 32-bit coordinate pair.
pub open spec fn zorder_of(x: u32, y: u32) -> nat {
    interleave(x as nat, y as nat, 32)
}

/// The coordinate pair of a 64-bit Z-order index.
pub open spec fn xy_of(z: u64) -> (nat, nat) {
    deinterleave(z as nat, 32)
}

/// An interleaving of `bits` bits per coordinate stays below `4^bits`.
pub proof fn lemma_interleave_bound(x: nat, y: nat, bits: nat)
    ensures
        interleave(x, y, bits) < pow2(2 * bits),
    decreases bits,
{
    if bits == 0 {
        lemma2_to64();
    } else {
        lemma_interleave_bound(x / 2, y / 2, (bits - 1) as nat);
        lemma_pow2_unfold(2 * bits);
        lemma_pow2_unfold((2 * bits - 1) as nat);
    }
}

/// Each half of a de-interleaving of `bits` bits stays below `2^bits`.
pub proof fn lemma_deinterleave_bound(z: nat, bits: nat)
    ensures
        deinterleave(z, bits).0 < pow2(bits),
        deinterleave(z, bits).1 < pow2(bits),
    decreases bits,
{
    if bits == 0 {
        lemma2_to64();
    } else {
        lemma_deinterleave_bound(z / 4, (bits - 1) as nat);
        lemma_pow2_unfold(bits);
    }
}

/// De-interleaving undoes interleaving on the bits that were interleaved.
pub proof fn lemma_deinterleave_interleave(x: nat, y: nat, bits: nat)
    ensures
        deinterleave(interleave(x, y, bits), bits) == (x % pow2(bits), y % pow2(bits)),
    decreases bits,
{
    if bits == 0 {
        lemma2_to64();
    } else {
        let k = (bits - 1) as nat;
        lemma_deinterleave_interleave(x / 2, y / 2, k);
        lemma_mod_halves(x, k);
        lemma_mod_halves(y, k);
    }
}

/// Splits a remainder by a product: `x % (a * p)` is `x % a` plus `a` times
/// the remainder of `x / a` by `p`.
proof fn lemma_mod_split(x: int, a: int, p: int)
    requires
        0 <= x,
        0 < a,
        0 < p,
    ensures
        x % (a * p) == (x % a) + a * ((x / a) % p),
{
    let h = x / a;
    let b = x % a;
    let q = h / p;
    let r = h % p;
    lemma_fundamental_div_mod(x, a);
    lemma_fundamental_div_mod(h, p);
    assert(x == q * (a * p) + (a * r + b) && 0 <= a * r + b < a * p) by (nonlinear_arith)
        requires
            x == a * h + b,
            h == p * q + r,
            0 <= b < a,
            0 <= r < p,
    ;
    assert(a * p != 0) by (nonlinear_arith)
        requires
            0 < a,
            0 < p,
    ;
    lemma_fundamental_div_mod_converse(x, a * p, q, a * r + b);
}

/// The remainder by `2^(k+1)` is the lowest bit plus twice the remainder of
/// the half by `2^k`.
proof fn lemma_mod_halves(x: nat, k: nat)
    ensures
        x % pow2(k + 1) == (x % 2) + 2 * ((x / 2) % pow2(k)),
{
    lemma_pow2_unfold(k + 1);
    lemma_pow2_pos(k);
    lemma_mod_split(x as int, 2, pow2(k) as int);
}

/// Interleaving undoes de-interleaving on the bits that were taken apart.
pub proof fn lemma_interleave_deinterleave(z: nat, bits: nat)
    ensures
        interleave(deinterleave(z, bits).0, deinterleave(z, bits).1, bits) == z % pow2(2 * bits),
    decreases bits,
{
    if bits == 0 {
        lemma2_to64();
    } else {
        let k = (bits - 1) as nat;
        lemma_interleave_deinterleave(z / 4, k);
        lemma_pow2_unfold(2 * bits);
        lemma_pow2_unfold((2 * bits - 1) as nat);
        lemma_pow2_pos(2 * k);
        lemma_mod_split(z as int, 4, pow2(2 * k) as int);
    }
}

/// The index 0 stands for the pair (0, 0).
pub proof fn lemma_deinterleave_zero(bits: nat)
    ensures
        deinterleave(0, bits) == (0nat, 0nat),
    decreases bits,
{
    if bits > 0 {
        lemma_deinterleave_zero((bits - 1) as nat);
    }
}

/// The first `4^k` indices are those of the square of side `2^k` at the
/// origin: an index below `4^k` stands for a pair below `2^k`.
pub proof fn lemma_deinterleave_square(z: nat, k: nat, bits: nat)
    requires
        z < pow2(2 * k),
        k <= bits,
    ensures
        deinterleave(z, bits).0 < pow2(k),
        deinterleave(z, bits).1 < pow2(k),
    decreases k,
{
    if k == 0 {
        lemma2_to64();
        lemma_deinterleave_zero(bits);
    } else {
        lemma_pow2_unfold(2 * k);
        lemma_pow2_unfold((2 * k - 1) as nat);
        lemma_pow2_unfold(k);
        lemma_deinterleave_square(z / 4, (k - 1) as nat, (bits - 1) as nat);
    }
}

/// The last index of the square of side `2^k` at the origin, `4^k - 1`, is
/// that of its far corner.
pub proof fn lemma_interleave_corner(k: nat, bits: nat)
    requires
        k <= bits,
    ensures
        pow2(k) >= 1,
        pow2(2 * k) >= 1,
        interleave((pow2(k) - 1) as nat, (pow2(k) - 1) as nat, bits) == pow2(2 * k) - 1,
    decreases bits,
{
    if k == 0 {
        lemma2_to64();
        lemma_interleave_zero(bits);
    } else {
        lemma_pow2_unfold(2 * k);
        lemma_pow2_unfold((2 * k - 1) as nat);
        lemma_pow2_unfold(k);
        lemma_interleave_corner((k - 1) as nat, (bits - 1) as nat);
    }
}

/// The pair (0, 0) has the index 0.
pub proof fn lemma_interleave_zero(bits: nat)
    ensures
        interleave(0, 0, bits) == 0,
    decreases bits,
{
    if bits > 0 {
        lemma_interleave_zero((bits - 1) as nat);
    }
}

/// The pairs of the square of side `2^k` at the origin have the first `4^k`
/// indices: a pair below `2^k` has an index below `4^k`.
pub proof fn lemma_interleave_square(x: nat, y: nat, k: nat, bits: nat)
    requires
        x < pow2(k),
        y < pow2(k),
        k <= bits,
    ensures
        interleave(x, y, bits) < pow2(2 * k),
    decreases k,
{
    if k == 0 {
        lemma2_to64();
        lemma_interleave_zero(bits);
    } else {
        lemma_pow2_unfold(2 * k);
        lemma_pow2_unfold((2 * k - 1) as nat);
        lemma_pow2_unfold(k);
        lemma_interleave_square(x / 2, y / 2, (k - 1) as nat, (bits - 1) as nat);
    }
}

/// The Z-order index grows with both coordinates: a pair that is no larger
/// in either coordinate has no larger index. So the far corner of a
/// rectangle at the origin has the largest index of the rectangle.
pub proof fn lemma_interleave_monotonic(x: nat, y: nat, a: nat, b: nat, bits: nat)
    requires
        x <= a < pow2(bits),
        y <= b < pow2(bits),
    ensures
        interleave(x, y, bits) <= interleave(a, b, bits),
    decreases bits,
{
    if bits > 0 {
        let k = (bits - 1) as nat;
        lemma_pow2_unfold(bits);
        lemma_interleave_monotonic(x / 2, y / 2, a / 2, b / 2, k);
        if interleave(x / 2, y / 2, k) == interleave(a / 2, b / 2, k) {
            lemma_deinterleave_interleave(x / 2, y / 2, k);
            lemma_deinterleave_interleave(a / 2, b / 2, k);
            lemma_small_mod(x / 2, pow2(k));
            lemma_small_mod(y / 2, pow2(k));
            lemma_small_mod(a / 2, pow2(k));
            lemma_small_mod(b / 2, pow2(k));
        }
    }
}

/// The Z-order codec loses nothing: decoding the index of a 32-bit pair
/// gives the pair back.
pub proof fn lemma_zorder_roundtrip(x: u32, y: u32)
    ensures
        zorder_of(x, y) <= u64::MAX,
        xy_of(zorder_of(x, y) as u64) == (x as nat, y as nat),
{
    lemma2_to64();
    lemma_interleave_bound(x as nat, y as nat, 32);
    lemma_deinterleave_interleave(x as nat, y as nat, 32);
}

/// Encoding is the inverse of decoding too: the pair of a 64-bit index fits
/// in 32 bits each and encodes to that index.
pub proof fn lemma_xy_roundtrip(z: u64)
    ensures
        xy_of(z).0 <= u32::MAX,
        xy_of(z).1 <= u32::MAX,
        zorder_of(xy_of(z).0 as u32, xy_of(z).1 as u32) == z as nat,
{
    lemma2_to64();
    lemma_deinterleave_bound(z as nat, 32);
    lemma_interleave_deinterleave(z as nat, 32);
    assert((z as nat) % 0x1_0000_0000_0000_0000 == z as nat);
}

/// Interleaves the bits of `x` and `y` into their Z-order index.
pub fn xy_to_zorder(x: u32, y: u32) -> (res: u64)
    ensures
        res as nat == zorder_of(x, y),
{
    let mut res: u64 = 0;
    let mut i: u32 = 32;
    proof {
        lemma2_to64();
    }
    while i > 0
        invariant
            i <= 32,
            res as nat == interleave(
                (x as nat) / pow2(i as nat),
                (y as nat) / pow2(i as nat),
                (32 - i) as nat,
            ),
        decreases i,
    {
        let j: u32 = i - 1;
        let xb: u64 = ((x >> j) % 2) as u64;
        let yb: u64 = ((y >> j) % 2) as u64;
        proof {
            let k = (32 - i) as nat;
            let xq = (x as nat) / pow2(j as nat);
            let yq = (y as nat) / pow2(j as nat);
            lemma_u32_shr_is_div(x, j);
            lemma_u32_shr_is_div(y, j);
            lemma_pow2_unfold(i as nat);
            lemma_pow2_pos(j as nat);
            lemma_div_denominator(x as int, pow2(j as nat) as int, 2);
            lemma_div_denominator(y as int, pow2(j as nat) as int, 2);
            lemma_interleave_bound(xq, yq, k + 1);
            assert(pow2(2 * (k + 1)) <= pow2(64)) by {
                if 2 * (k + 1) < 64 {
                    vstd::arithmetic::power2::lemma_pow2_strictly_increases(2 * (k + 1), 64);
                }
            }
            assert(pow2(64) == 0x1_0000_0000_0000_0000) by {
                lemma2_to64();
            }
        }
        res = res * 4 + xb + 2 * yb;
        i = j;
    }
    proof {
        assert((x as nat) / pow2(0) == x as nat);
        assert((y as nat) / pow2(0) == y as nat);
    }
    res
}

/// Takes a Z-order index apart into the pair it stands for.
pub fn zorder_to_xy(zorder: u64) -> (res: (u32, u32))
    ensures
        (res.0 as nat, res.1 as nat) == xy_of(zorder),
{
    let mut x: u32 = 0;
    let mut y: u32 = 0;
    let mut i: u32 = 32;
    proof {
        lemma2_to64();
    }
    while i > 0
        invariant
            i <= 32,
            (x as nat, y as nat) == deinterleave(
                (zorder as nat) / pow2(2 * (i as nat)),
                (32 - i) as nat,
            ),
        decreases i,
    {
        let j: u32 = i - 1;
        let xb: u32 = ((zorder >> (2 * j) as u64) % 2) as u32;
        let yb: u32 = ((zorder >> (2 * j + 1) as u64) % 2) as u32;
        proof {
            let k = (32 - i) as nat;
            let w = (zorder as nat) / pow2(2 * (j as nat));
            lemma_u64_shr_is_div(zorder, (2 * j) as u64);
            lemma_u64_shr_is_div(zorder, (2 * j + 1) as u64);
            lemma_pow2_unfold(2 * (i as nat));
            lemma_pow2_unfold((2 * (j as nat) + 1) as nat);
            lemma_pow2_pos(2 * (j as nat));
            lemma_div_denominator(zorder as int, pow2(2 * (j as nat)) as int, 2);
            lemma_div_denominator(zorder as int, pow2(2 * (j as nat)) as int, 4);
            lemma_deinterleave_bound(w / 4, k);
            assert(pow2(k + 1) <= pow2(32)) by {
                if k + 1 < 32 {
                    vstd::arithmetic::power2::lemma_pow2_strictly_increases(k + 1, 32);
                }
            }
            lemma2_to64();
        }
        x = 2 * x + xb;
        y = 2 * y + yb;
        i = j;
    }
    proof {
        assert((zorder as nat) / pow2(0) == zorder as nat);
    }
    (x, y)
}

} // verus!

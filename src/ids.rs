use vstd::arithmetic::power2::{lemma2_to64, lemma_pow2_strictly_increases, lemma_pow2_unfold, pow2};
use vstd::prelude::*;

use crate::constants::{X_SIZE, Y_SIZE, Z_SIZE};

verus! {

/// Bits needed to tell `max_value` values apart: the least `b` with `2^b >= max_value`.
pub fn num_bits_needed(max_value: usize) -> (r: usize)
    ensures
        pow2(r as nat) >= max_value,
        r == 0 || pow2((r - 1) as nat) < max_value,
{
    let mut bits: usize = 0;
    let mut reach: u128 = 1;
    proof {
        lemma2_to64();
    }
    while reach < max_value as u128
        invariant
            reach == pow2(bits as nat),
            bits == 0 || pow2((bits - 1) as nat) < max_value,
            bits + 1 <= reach,
            1 <= reach <= 2 * max_value + 1,
        decreases 2 * max_value + 1 - reach,
    {
        proof {
            lemma_pow2_unfold((bits + 1) as nat);
        }
        reach = reach * 2;
        bits = bits + 1;
    }
    bits
}

/// The bit width `num_bits_needed` gives for `n`, pinned to its value.
proof fn lemma_width(n: int, b: nat, w: nat)
    requires
        pow2(b) >= n,
        b == 0 || pow2((b - 1) as nat) < n,
        w >= 1,
        pow2((w - 1) as nat) < n <= pow2(w),
    ensures
        b == w,
{
    if b < w {
        if b < (w - 1) as nat {
            lemma_pow2_strictly_increases(b, (w - 1) as nat);
        }
    } else if b > w {
        lemma_pow2_strictly_increases(w, (b - 1) as nat);
    }
}

/// A unique id for a cell of the default lattice: `x`, `y` and `z` packed into
/// adjacent bit fields, each as wide as its extent needs (5, 5 and 4 bits).
pub fn generateXyzId(x: usize, y: usize, z: usize) -> (r: usize)
    requires
        x < X_SIZE,
        y < Y_SIZE,
        z < Z_SIZE,
    ensures
        r == (x * 32 + y) * 16 + z,
{
    let x_bits = num_bits_needed(X_SIZE as usize);
    let y_bits = num_bits_needed(Y_SIZE as usize);
    let z_bits = num_bits_needed(Z_SIZE as usize);
    proof {
        lemma2_to64();
        lemma_width(X_SIZE as int, x_bits as nat, 5);
        lemma_width(Y_SIZE as int, y_bits as nat, 5);
        lemma_width(Z_SIZE as int, z_bits as nat, 4);
    }
    let (a, b, c) = (x as u64, y as u64, z as u64);
    let shift_y = z_bits as u64;
    let shift_x = (y_bits + z_bits) as u64;
    let id = (a << shift_x) | (b << shift_y) | c;
    assert(id == (a * 32 + b) * 16 + c) by (bit_vector)
        requires
            id == (a << shift_x) | (b << shift_y) | c,
            shift_x == 9,
            shift_y == 4,
            a < 31,
            b < 31,
            c < 15,
    ;
    id as usize
}

} // verus!

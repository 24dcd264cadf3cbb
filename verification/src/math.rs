//! Integer helpers for texture dimensions, row strides and byte offsets.

use vstd::prelude::*;
use vstd::arithmetic::div_mod::lemma_fundamental_div_mod_converse;
use vstd::arithmetic::power2::{lemma2_to64, lemma_pow2_strictly_increases, lemma_pow2_unfold, pow2};

verus! {

/// `power` is the smallest power of two that is at least `value`: it is
/// two to some exponent `e`, and the next smaller power of two, if there is
/// one, is below `value`.
pub open spec fn is_next_pow2(value: nat, power: nat) -> bool {
    exists|e: nat| #[trigger]
        pow2(e) == power && value <= power && (e > 0 ==> pow2((e - 1) as nat) < value)
}

/// No power of two lies between `value` and its next power of two: every
/// power of two that is at least `value` is at least `power`.
pub proof fn lemma_next_pow2_is_least(value: nat, power: nat, other: nat)
    requires
        is_next_pow2(value, power),
        value <= pow2(other),
    ensures
        power <= pow2(other),
{
    let e = choose|e: nat| #[trigger]
        pow2(e) == power && value <= power && (e > 0 ==> pow2((e - 1) as nat) < value);
    if other < e {
        if other < e - 1 {
            lemma_pow2_strictly_increases(other, (e - 1) as nat);
        }
    }
    if e < other {
        lemma_pow2_strictly_increases(e, other);
    }
}

/// The smallest power of two that is at least `value`; one for zero.
pub fn next_pow2_u32(value: u32) -> (power: u32)
    requires
        value <= 0x8000_0000,
    ensures
        is_next_pow2(value as nat, power as nat),
        value <= power <= 0x8000_0000,
{
    let mut power: u32 = 1;
    let ghost mut e: nat = 0;
    proof {
        lemma2_to64();
    }
    while power < value
        invariant
            value <= 0x8000_0000,
            e <= 31,
            power == pow2(e),
            e > 0 ==> pow2((e - 1) as nat) < value,
            pow2(31) == 0x8000_0000,
        decreases 31 - e,
    {
        proof {
            if e < 30 {
                lemma_pow2_strictly_increases(e + 1, 31);
            }
            lemma_pow2_unfold(e + 1);
        }
        power = power * 2;
        proof {
            e = e + 1;
        }
    }
    proof {
        if e < 31 {
            lemma_pow2_strictly_increases(e, 31);
        }
    }
    power
}

/// The smallest multiple of four that is at least `n`.
pub open spec fn round_up_to_four(n: nat) -> nat {
    ((n + 3) / 4 * 4) as nat
}

/// Rounding up to a multiple of four adds at most three.
pub proof fn lemma_round_up_to_four(n: nat)
    ensures
        round_up_to_four(n) % 4 == 0,
        n <= round_up_to_four(n) <= n + 3,
        n % 4 == 0 ==> round_up_to_four(n) == n,
{
}

/// Rounds `n` up to the next multiple of four.
pub fn align_to_four(n: usize) -> (r: usize)
    requires
        round_up_to_four(n as nat) <= usize::MAX,
    ensures
        r == round_up_to_four(n as nat),
{
    let rem: usize = n % 4;
    if rem == 0 {
        n
    } else {
        n + (4 - rem)
    }
}

/// In a grid of `rows` rows of `stride` cells each, the cell `col` of row
/// `row` has the linear index `row * stride + col`; that index lies inside
/// the grid and gives the row and the column back.
pub proof fn lemma_grid_index(rows: int, stride: int, row: int, col: int)
    requires
        0 <= row < rows,
        0 <= col < stride,
    ensures
        0 <= row * stride <= row * stride + col < rows * stride,
        row * stride + stride <= rows * stride,
        (row * stride + col) / stride == row,
        (row * stride + col) % stride == col,
{
    assert(0 <= row * stride && row * stride + stride <= rows * stride) by (nonlinear_arith)
        requires
            0 <= row < rows,
            0 < stride,
    ;
    lemma_fundamental_div_mod_converse(row * stride + col, stride, row, col);
}

/// A linear index into a grid of `rows` rows of `stride` cells splits into
/// a row below `rows` and a column below `stride`.
pub proof fn lemma_grid_cell(rows: int, stride: int, index: int)
    requires
        0 <= stride,
        0 <= index < rows * stride,
    ensures
        0 < stride,
        0 <= index / stride < rows,
        0 <= index % stride < stride,
        index == (index / stride) * stride + index % stride,
{
    assert(0 < stride) by (nonlinear_arith)
        requires
            0 <= stride,
            0 < rows * stride,
    ;
    let q = index / stride;
    let r = index % stride;
    assert(index == q * stride + r && 0 <= r < stride) by (nonlinear_arith)
        requires
            0 < stride,
            q == index / stride,
            r == index % stride,
    ;
    assert(0 <= q < rows) by (nonlinear_arith)
        requires
            0 < stride,
            0 <= r < stride,
            index == q * stride + r,
            0 <= index < rows * stride,
    ;
}

/// Row `row` of a grid of `rows` rows of `stride` cells each starts and
/// ends inside the grid.
pub proof fn lemma_grid_row(rows: int, stride: int, row: int)
    requires
        0 <= row < rows,
        0 <= stride,
    ensures
        0 <= row * stride,
        row * stride + stride <= rows * stride,
{
    assert(0 <= row * stride && row * stride + stride <= rows * stride) by (nonlinear_arith)
        requires
            0 <= row < rows,
            0 <= stride,
    ;
}

} // verus!

//! Wrapping 64-bit arithmetic: specification of truncating division and
//! remainder, and lemmas relating `i64` wrap-around to mathematical integers.

use vstd::prelude::*;

verus! {

use vstd::arithmetic::div_mod::{
    lemma_div_is_ordered_by_denominator, lemma_div_nonincreasing, lemma_div_pos_is_pos,
    lemma_fundamental_div_mod, lemma_mod_division_less_than_divisor, lemma_mod_multiples_vanish,
    lemma_small_mod,
};
use vstd::wrapping::i64_specs;

/// Division of mathematical integers that truncates toward zero, as the `/`
/// operator on `i64` does (for a nonzero divisor).
pub open spec fn trunc_div(x: int, d: int) -> int {
    if x == 0 {
        0
    } else if x > 0 && d > 0 {
        x / d
    } else if x < 0 && d < 0 {
        (x * -1) / (d * -1)
    } else if x < 0 {
        ((x * -1) / d) * -1
    } else {
        (x / (d * -1)) * -1
    }
}

/// Remainder of mathematical integers with the sign of the dividend, as the
/// `%` operator on `i64` does (for a nonzero divisor).
pub open spec fn trunc_rem(x: int, d: int) -> int {
    if x == 0 {
        0
    } else if x > 0 && d > 0 {
        x % d
    } else if x < 0 && d < 0 {
        ((x * -1) % (d * -1)) * -1
    } else if x < 0 {
        ((x * -1) % d) * -1
    } else {
        x % (d * -1)
    }
}

/// Truncating division of `i64` values stays within `i64`'s range for every
/// nonzero divisor, except for the single overflowing case `i64::MIN / -1`.
pub proof fn lemma_trunc_div_in_range(x: int, d: int)
    requires
        i64::MIN <= x <= i64::MAX,
        i64::MIN <= d <= i64::MAX,
        d != 0,
        !(x == i64::MIN && d == -1),
    ensures
        i64::MIN <= trunc_div(x, d) <= i64::MAX,
{
    let a = if x < 0 { x * -1 } else { x };
    let b = if d < 0 { d * -1 } else { d };
    if x != 0 {
        lemma_div_pos_is_pos(a, b);
        lemma_div_nonincreasing(a, b);
        if x < 0 && d < 0 {
            // the one positive case whose dividend magnitude can reach 2^63:
            // the divisor's magnitude is then at least 2, halving the quotient
            if a == 0x8000_0000_0000_0000 {
                assert(b >= 2);
                lemma_div_is_ordered_by_denominator(a, 2, b);
                assert(a / 2 == 0x4000_0000_0000_0000);
            }
        }
    }
}

/// The remainder with truncating division of `i64` values always stays
/// within `i64`'s range for a nonzero divisor.
pub proof fn lemma_trunc_rem_in_range(x: int, d: int)
    requires
        i64::MIN <= x <= i64::MAX,
        i64::MIN <= d <= i64::MAX,
        d != 0,
    ensures
        i64::MIN <= trunc_rem(x, d) <= i64::MAX,
{
    let a = if x < 0 { x * -1 } else { x };
    let b = if d < 0 { d * -1 } else { d };
    lemma_mod_division_less_than_divisor(a, b);
}

/// An integer already within `i64`'s range is unchanged by wrap-around.
pub proof fn lemma_crop_in_range(x: int)
    requires
        i64::MIN <= x <= i64::MAX,
    ensures
        i64_specs::signed_crop(x) == x,
{
    if x >= 0 {
        lemma_small_mod(x as nat, 0x1_0000_0000_0000_0000);
    } else {
        lemma_mod_multiples_vanish(1, x, 0x1_0000_0000_0000_0000);
        lemma_small_mod((x + 0x1_0000_0000_0000_0000) as nat, 0x1_0000_0000_0000_0000);
    }
}

/// Wrap-around ignores any multiple of `2^64` added to its argument.
pub proof fn lemma_crop_add_multiple(x: int, k: int)
    ensures
        i64_specs::signed_crop(x + k * 0x1_0000_0000_0000_0000) == i64_specs::signed_crop(x),
{
    lemma_mod_multiples_vanish(k, x, 0x1_0000_0000_0000_0000);
}

/// Adding to an already wrapped value and wrapping again equals wrapping the
/// mathematical sum directly.
pub proof fn lemma_crop_unwrap_add(x: int, y: int)
    ensures
        i64_specs::signed_crop(i64_specs::signed_crop(x) + y) == i64_specs::signed_crop(x + y),
{
    lemma_fundamental_div_mod(x, 0x1_0000_0000_0000_0000);
    lemma_mod_division_less_than_divisor(x, 0x1_0000_0000_0000_0000);
    let q = x / 0x1_0000_0000_0000_0000;
    if x % 0x1_0000_0000_0000_0000 > i64::MAX as int {
        assert(i64_specs::signed_crop(x) + y == (x + y) + (-q - 1) * 0x1_0000_0000_0000_0000);
        lemma_crop_add_multiple(x + y, -q - 1);
    } else {
        assert(i64_specs::signed_crop(x) + y == (x + y) + (-q) * 0x1_0000_0000_0000_0000);
        lemma_crop_add_multiple(x + y, -q);
    }
}

/// Folding one more decimal digit into a wrapped accumulator equals wrapping
/// the exact base-10 value: the wrap-around may be taken after every step or
/// once at the end, with the same outcome.
pub proof fn lemma_crop_digit_step(v: int, d: int)
    ensures
        i64_specs::signed_crop(i64_specs::signed_crop(v) * 10 + d) == i64_specs::signed_crop(
            v * 10 + d,
        ),
{
    let c = i64_specs::signed_crop(v) as int;
    lemma_fundamental_div_mod(v, 0x1_0000_0000_0000_0000);
    lemma_mod_division_less_than_divisor(v, 0x1_0000_0000_0000_0000);
    let q = v / 0x1_0000_0000_0000_0000;
    if v % 0x1_0000_0000_0000_0000 > i64::MAX as int {
        assert(c * 10 + d == (v * 10 + d) + (-10 * q - 10) * 0x1_0000_0000_0000_0000);
        lemma_crop_add_multiple(v * 10 + d, -10 * q - 10);
    } else {
        assert(c * 10 + d == (v * 10 + d) + (-10 * q) * 0x1_0000_0000_0000_0000);
        lemma_crop_add_multiple(v * 10 + d, -10 * q);
    }
}

} // verus!

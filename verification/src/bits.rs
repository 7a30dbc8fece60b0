//! Shifts, masks and blocks of addresses, read as arithmetic.

use vstd::arithmetic::div_mod::{
    lemma_fundamental_div_mod, lemma_fundamental_div_mod_converse, lemma_small_mod,
};
use vstd::arithmetic::power2::{
    lemma2_to64, lemma2_to64_rest, lemma_pow2_adds, lemma_pow2_pos, lemma_pow2_strictly_increases,
    lemma_pow2_unfold, pow2,
};
use vstd::bits::{
    lemma_u128_shr_is_div, lemma_u32_pow2_no_overflow, lemma_u32_shl_is_mul, lemma_u32_shr_is_div,
};
use vstd::prelude::*;

verus! {

/// The numbers with one quotient are a range.
pub proof fn lemma_block_is_range(first: nat, address: nat, size: nat)
    requires
        size > 0,
        first % size == 0,
    ensures
        first <= address < first + size <==> address / size == first / size,
{
    lemma_fundamental_div_mod(first as int, size as int);
    lemma_fundamental_div_mod(address as int, size as int);
    if first <= address < first + size {
        assert(size * (first / size) == (first / size) * size) by (nonlinear_arith);
        lemma_fundamental_div_mod_converse(
            address as int,
            size as int,
            (first / size) as int,
            address - first,
        );
    }
}

/// Powers of two below the width of an IPv6 address fit in it.
proof fn lemma_u128_pow2_fits(k: nat)
    requires
        k < 128,
    ensures
        0 < pow2(k) <= u128::MAX,
{
    lemma_pow2_pos(k);
    lemma_u128_width();
    lemma_pow2_strictly_increases(k, 128);
}

/// Shifting left multiplies by a power of two, where nothing is shifted out.
proof fn lemma_u128_shl_is_mul(x: u128, k: u128)
    requires
        k < 128,
        x * pow2(k as nat) <= u128::MAX,
    ensures
        x << k == x * pow2(k as nat),
    decreases k,
{
    if k == 0 {
        assert(pow2(0) == 1) by {
            lemma2_to64();
        }
        assert(x << k == x) by (bit_vector)
            requires
                k == 0,
        ;
        assert(x * pow2(k as nat) == x) by (nonlinear_arith)
            requires
                pow2(k as nat) == 1,
        ;
    } else {
        let j: u128 = (k - 1) as u128;
        lemma_pow2_unfold(k as nat);
        assert(x * pow2(k as nat) == 2 * (x * pow2(j as nat))) by (nonlinear_arith)
            requires
                pow2(k as nat) == 2 * pow2(j as nat),
        ;
        lemma_u128_shl_is_mul(x, j);
        let half: u128 = x << j;
        assert(x << k == 2 * half) by (bit_vector)
            requires
                0 < k < 128,
                j == k - 1,
                half == x << j,
                2 * half <= 0xffff_ffff_ffff_ffff_ffff_ffff_ffff_ffffu128,
        ;
    }
}

/// Shifting the low bits out and back in rounds down to a multiple of a power of two.
proof fn lemma_u32_round_down(x: u32, k: u32)
    requires
        k < 32,
    ensures
        (x >> k) << k == x - x as nat % pow2(k as nat),
{
    let q: u32 = x >> k;
    lemma_pow2_pos(k as nat);
    lemma_u32_shr_is_div(x, k);
    lemma_fundamental_div_mod(x as int, pow2(k as nat) as int);
    assert(q * pow2(k as nat) == pow2(k as nat) * q) by (nonlinear_arith);
    lemma_u32_shl_is_mul(q, k);
}

/// Shifting the low bits out and back in rounds down to a multiple of a power of two.
proof fn lemma_u128_round_down(x: u128, k: u128)
    requires
        k < 128,
    ensures
        (x >> k) << k == x - x as nat % pow2(k as nat),
{
    let q: u128 = x >> k;
    lemma_pow2_pos(k as nat);
    lemma_u128_shr_is_div(x, k);
    lemma_fundamental_div_mod(x as int, pow2(k as nat) as int);
    assert(q * pow2(k as nat) == pow2(k as nat) * q) by (nonlinear_arith);
    lemma_u128_shl_is_mul(q, k);
}

/// Shifting a one by `host` bits counts the values of `host` bits.
pub proof fn lemma_u32_pow2(host: u8)
    requires
        host < 32,
    ensures
        1u32 << host == pow2(host as nat),
{
    lemma_u32_pow2_no_overflow(host as nat);
    lemma_u32_shl_is_mul(1, host as u32);
}

/// An address of `32` bits takes all numbers below a power of two.
pub proof fn lemma_u32_width()
    ensures
        pow2(32) == u32::MAX + 1,
{
    lemma2_to64();
}

/// Clearing the `host` low bits rounds down to a multiple of their number of values, and any
/// value of those bits can then be put in their place.
pub proof fn lemma_u32_replace_host(x: u32, host: u8, low: u32, h: u32)
    requires
        host <= 32,
        low == pow2(host as nat) - 1,
        h <= low,
    ensures
        (x & !low) | h == x - x as nat % pow2(host as nat) + h,
{
    if host == 32 {
        lemma_u32_width();
        lemma_small_mod(x as nat, pow2(32));
        assert((x & !low) | h == h) by (bit_vector)
            requires
                low == u32::MAX,
        ;
    } else {
        let k: u32 = host as u32;
        lemma_u32_pow2(host);
        lemma_u32_round_down(x, k);
        assert((x & !low) | h == ((x >> k) << k) + h) by (bit_vector)
            requires
                k < 32,
                low == (1u32 << k) - 1,
                h <= low,
        ;
    }
}

/// Shifting `k` low bits out and back in clears them.
proof fn lemma_u32_clear_low(x: u32, n: u32, k: u32)
    requires
        0 < n < 32,
        k + n == 32,
    ensures
        (x >> k) << k == x & !(u32::MAX >> n),
{
    assert((x >> k) << k == x & !(u32::MAX >> n)) by (bit_vector)
        requires
            0 < n < 32,
            k < 32,
            k + n == 32,
    ;
}

/// Shifting the `net` high bits out of `rand` leaves the rest, and these can be put behind the
/// `net` high bits of `x`.
pub proof fn lemma_u32_join(x: u32, rand: u32, net: u8)
    requires
        0 < net < 32,
    ensures
        ((x >> (32 - net)) << (32 - net)) | ((rand << net) >> net) == x - x as nat % pow2(
            (32 - net) as nat,
        ) + rand as nat % pow2((32 - net) as nat),
{
    let k: u32 = (32 - net) as u32;
    let n: u32 = net as u32;
    lemma_u32_round_down(x, k);
    lemma_u32_round_down(rand, k);
    let a: u32 = (x >> k) << k;
    let b: u32 = (rand << n) >> n;
    let c: u32 = (rand >> k) << k;
    let low: u32 = u32::MAX >> n;
    lemma_u32_clear_low(x, n, k);
    lemma_u32_clear_low(rand, n, k);
    assert(b == rand & low) by (bit_vector)
        requires
            n < 32,
            b == (rand << n) >> n,
            low == u32::MAX >> n,
    ;
    assert(a | b == a + b && rand == b + c) by (bit_vector)
        requires
            a == x & !low,
            b == rand & low,
            c == rand & !low,
    ;
}

/// Shifting a one by `host` bits counts the values of `host` bits.
pub proof fn lemma_u128_pow2(host: u8)
    requires
        host < 128,
    ensures
        1u128 << host == pow2(host as nat),
{
    lemma_u128_pow2_fits(host as nat);
    lemma_u128_shl_is_mul(1, host as u128);
}

/// An address of `128` bits takes all numbers below a power of two.
pub proof fn lemma_u128_width()
    ensures
        pow2(128) == u128::MAX + 1,
{
    lemma2_to64_rest();
    lemma_pow2_adds(64, 64);
}

/// Clearing the `host` low bits rounds down to a multiple of their number of values, and any
/// value of those bits can then be put in their place.
pub proof fn lemma_u128_replace_host(x: u128, host: u8, low: u128, h: u128)
    requires
        host <= 128,
        low == pow2(host as nat) - 1,
        h <= low,
    ensures
        (x & !low) | h == x - x as nat % pow2(host as nat) + h,
{
    if host == 128 {
        lemma_u128_width();
        lemma_small_mod(x as nat, pow2(128));
        assert((x & !low) | h == h) by (bit_vector)
            requires
                low == u128::MAX,
        ;
    } else {
        let k: u128 = host as u128;
        lemma_u128_pow2(host);
        lemma_u128_round_down(x, k);
        assert((x & !low) | h == ((x >> k) << k) + h) by (bit_vector)
            requires
                k < 128,
                low == (1u128 << k) - 1,
                h <= low,
        ;
    }
}

/// Shifting `k` low bits out and back in clears them.
proof fn lemma_u128_clear_low(x: u128, n: u128, k: u128)
    requires
        0 < n < 128,
        k + n == 128,
    ensures
        (x >> k) << k == x & !(u128::MAX >> n),
{
    assert((x >> k) << k == x & !(u128::MAX >> n)) by (bit_vector)
        requires
            0 < n < 128,
            k < 128,
            k + n == 128,
    ;
}

/// Shifting the `net` high bits out of `rand` leaves the rest, and these can be put behind the
/// `net` high bits of `x`.
pub proof fn lemma_u128_join(x: u128, rand: u128, net: u8)
    requires
        0 < net < 128,
    ensures
        ((x >> (128 - net)) << (128 - net)) | ((rand << net) >> net) == x - x as nat % pow2(
            (128 - net) as nat,
        ) + rand as nat % pow2((128 - net) as nat),
{
    let k: u128 = (128 - net) as u128;
    let n: u128 = net as u128;
    lemma_u128_round_down(x, k);
    lemma_u128_round_down(rand, k);
    let a: u128 = (x >> k) << k;
    let b: u128 = (rand << n) >> n;
    let c: u128 = (rand >> k) << k;
    let low: u128 = u128::MAX >> n;
    lemma_u128_clear_low(x, n, k);
    lemma_u128_clear_low(rand, n, k);
    assert(b == rand & low) by (bit_vector)
        requires
            n < 128,
            b == (rand << n) >> n,
            low == u128::MAX >> n,
    ;
    assert(a | b == a + b && rand == b + c) by (bit_vector)
        requires
            a == x & !low,
            b == rand & low,
            c == rand & !low,
    ;
}

} // verus!

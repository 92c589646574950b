//! Milliseconds written as seconds, as a 64-bit float shows them.
//!
//! A span of `ms` milliseconds is turned into the 64-bit float nearest to `ms`,
//! that float is divided by 1000 to the nearest 64-bit float, and what comes
//! out is written with a fixed number of decimals, the nearest ones to its
//! exact value. Every rounding takes the even neighbour on a tie. All of it is
//! done in integers, so the text is exact.

use vstd::prelude::*;

use crate::powers;
use crate::text;
use crate::text::{push_decimal_wide, push_fixed_decimal, push_text};

verus! {

/// `p / q` rounded to the nearest integer, to the even one on a tie.
pub open spec fn round_half_even(p: nat, q: nat) -> nat {
    let k = p / q;
    let r = p % q;
    if 2 * r < q || (2 * r == q && k % 2 == 0) {
        k
    } else {
        k + 1
    }
}

/// The 64-bit float nearest to `p / q`, for a `p / q` below 2^53, as an exact
/// fraction: 53 bits, and a power of two below the line.
pub open spec fn small_double(p: nat, q: nat) -> (nat, nat)
    decreases
            (if p < q * 0x10_0000_0000_0000 {
                (q * 0x10_0000_0000_0000 - p) as nat
            } else {
                0
            }),
{
    if 0 < p < q * 0x10_0000_0000_0000 {
        let (n, d) = small_double(2 * p, q);
        (n, 2 * d)
    } else {
        (round_half_even(p, q), 1)
    }
}

/// The 64-bit float nearest to `p / q`, for a `p / q` from 2^52 on, or for an
/// integer: 53 bits, times a power of two.
pub open spec fn large_double(p: nat, q: nat) -> nat
    decreases
            (if p > q {
                (p - q) as nat
            } else {
                0
            }),
{
    if 0 < q && p >= q * 0x20_0000_0000_0000 {
        2 * large_double(p, 2 * q)
    } else {
        round_half_even(p, q)
    }
}

/// The 64-bit float nearest to `p / q`, as an exact fraction.
pub open spec fn double_of(p: nat, q: nat) -> (nat, nat) {
    if p < q * 0x10_0000_0000_0000 {
        small_double(p, q)
    } else {
        (large_double(p, q), 1)
    }
}

/// `ms` milliseconds in seconds, as an exact fraction.
pub open spec fn seconds_of(ms: u64) -> (nat, nat) {
    double_of(large_double(ms as nat, 1), 1000)
}

/// `ms` milliseconds in seconds, with `decimals` digits after the point.
pub open spec fn seconds_text(ms: u64, decimals: nat) -> Seq<char> {
    let (n, d) = seconds_of(ms);
    let units = round_half_even(n * powers::pow10(decimals), d);
    text::decimal(units / powers::pow10(decimals)) + "."@ + text::fixed_decimal(
        units % powers::pow10(decimals),
        decimals,
    )
}

spec fn pow2(n: nat) -> nat
    decreases n,
{
    if n == 0 {
        1
    } else {
        2 * pow2((n - 1) as nat)
    }
}

/// Doubling `p` at most `left` times brings `p / q` to 2^52.
spec fn rises(p: nat, q: nat, left: nat) -> bool
    decreases left,
{
    p >= q * 0x10_0000_0000_0000 || (left > 0 && rises(2 * p, q, (left - 1) as nat))
}

/// Halving `p / q` at most `left` times brings it below 2^53.
spec fn falls(p: nat, q: nat, left: nat) -> bool
    decreases left,
{
    p < q * 0x20_0000_0000_0000 || (left > 0 && falls(p, 2 * q, (left - 1) as nat))
}

proof fn lemma_rises_more(p: nat, more: nat, q: nat, left: nat)
    requires
        p <= more,
        rises(p, q, left),
    ensures
        rises(more, q, left),
    decreases left,
{
    if p < q * 0x10_0000_0000_0000 && left > 0 {
        lemma_rises_more(2 * p, 2 * more, q, (left - 1) as nat);
    }
}

proof fn lemma_falls_less(p: nat, less: nat, q: nat, left: nat)
    requires
        less <= p,
        falls(p, q, left),
    ensures
        falls(less, q, left),
    decreases left,
{
    if p >= q * 0x20_0000_0000_0000 && left > 0 {
        lemma_falls_less(p, less, 2 * q, (left - 1) as nat);
    }
}

proof fn lemma_pow2_62()
    ensures
        pow2(62) == 0x4000_0000_0000_0000,
{
    reveal_with_fuel(pow2, 63);
}

fn round(p: u128, q: u128) -> (r: u128)
    requires
        0 < q <= 0x1000_0000_0000_0000_0000,
    ensures
        r == round_half_even(p as nat, q as nat),
        r <= p / q + 1,
{
    let k = p / q;
    let r = p % q;
    if 2 * r < q || (2 * r == q && k % 2 == 0) {
        k
    } else {
        proof {
            // A remainder needs a divisor above one, so the quotient is not
            // the largest there is.
            assert(q >= 2);
            assert(k <= p / 2) by (nonlinear_arith)
                requires
                    k == p / q,
                    q >= 2,
            ;
        }
        k + 1
    }
}

fn small(p: u128, q: u128, left: u8) -> (r: (u128, u128))
    requires
        0 < q <= 1000,
        p < q * 0x20_0000_0000_0000,
        left <= 62,
        p == 0 || rises(p as nat, q as nat, left as nat),
    ensures
        r.0 == small_double(p as nat, q as nat).0,
        r.1 == small_double(p as nat, q as nat).1,
        r.0 <= 0x20_0000_0000_0000,
        0 < r.1 <= pow2(left as nat),
    decreases left,
{
    proof {
        reveal_with_fuel(pow2, 2);
        lemma_pow2_up(left as nat, 62);
        lemma_pow2_62();
    }
    if p > 0 && p < q * 0x10_0000_0000_0000 {
        let (n, d) = small(2 * p, q, left - 1);
        proof {
            lemma_pow2_up((left - 1) as nat, 62);
        }
        (n, 2 * d)
    } else {
        proof {
            assert(p / q < 0x20_0000_0000_0000) by (nonlinear_arith)
                requires
                    0 < q,
                    p < q * 0x20_0000_0000_0000,
            ;
        }
        (round(p, q), 1)
    }
}

proof fn lemma_pow2_up(a: nat, b: nat)
    requires
        a <= b,
    ensures
        0 < pow2(a) <= pow2(b),
    decreases b,
{
    if a < b {
        lemma_pow2_up(a, (b - 1) as nat);
    } else if a > 0 {
        lemma_pow2_up((a - 1) as nat, (b - 1) as nat);
    }
}

fn large(p: u128, q: u128, left: u8) -> (r: u128)
    requires
        0 < q <= 0x1_0000_0000 * 1000,
        p <= 0x2_0000_0000_0000_0000,
        left <= 12,
        falls(p as nat, q as nat, left as nat),
        q * pow2(left as nat) <= 0x1_0000_0000 * 1000,
    ensures
        r == large_double(p as nat, q as nat),
        r <= 0x20_0000_0000_0000 * pow2(left as nat),
    decreases left,
{
    proof {
        reveal_with_fuel(pow2, 2);
        lemma_pow2_up(left as nat, 12);
        assert(pow2(12) == 4096) by {
            reveal_with_fuel(pow2, 13);
        }
    }
    if p >= q * 0x20_0000_0000_0000 {
        proof {
            let half = pow2((left - 1) as nat);
            assert(2 * q * half == q * (2 * half)) by (nonlinear_arith);
            assert(2 * q <= 2 * q * half) by (nonlinear_arith)
                requires
                    half >= 1,
                    q > 0,
            ;
            lemma_pow2_up((left - 1) as nat, 12);
        }
        2 * large(p, 2 * q, left - 1)
    } else {
        proof {
            assert(p / q < 0x20_0000_0000_0000) by (nonlinear_arith)
                requires
                    0 < q,
                    p < q * 0x20_0000_0000_0000,
            ;
        }
        round(p, q)
    }
}

fn to_seconds(ms: u64) -> (r: (u128, u128))
    ensures
        r.0 == seconds_of(ms).0,
        r.1 == seconds_of(ms).1,
        r.0 <= 0x2_0000_0000_0000_0000,
        0 < r.1 <= 0x4000_0000_0000_0000,
{
    proof {
        lemma_pow2_62();
        assert(pow2(12) == 4096 && pow2(2) == 4) by {
            reveal_with_fuel(pow2, 13);
        }
        assert(falls(0xffff_ffff_ffff_ffff, 1, 12)) by {
            reveal_with_fuel(falls, 13);
        }
        lemma_falls_less(0xffff_ffff_ffff_ffff, ms as nat, 1, 12);
    }
    let whole = large(ms as u128, 1, 12);
    proof {
        assert(rises(1, 1000, 62)) by {
            reveal_with_fuel(rises, 63);
        }
        assert(falls(0x2_0000_0000_0000_0000, 1000, 3)) by {
            reveal_with_fuel(falls, 4);
        }
        if whole > 0 {
            lemma_rises_more(1, whole as nat, 1000, 62);
        }
        lemma_falls_less(0x2_0000_0000_0000_0000, whole as nat, 1000, 3);
    }
    if whole < 1000 * 0x10_0000_0000_0000 {
        small(whole, 1000, 62)
    } else {
        (large(whole, 1000, 3), 1)
    }
}

/// Appends `ms` milliseconds in seconds, with one digit after the point.
pub fn push_seconds_tenths(out: &mut String, ms: u64)
    ensures
        final(out)@ == old(out)@ + seconds_text(ms, 1),
{
    proof {
        reveal_with_fuel(powers::pow10, 2);
    }
    push_seconds(out, ms, 1, 10);
}

/// Appends `ms` milliseconds in seconds, with three digits after the point.
pub fn push_seconds_millis(out: &mut String, ms: u64)
    ensures
        final(out)@ == old(out)@ + seconds_text(ms, 3),
{
    proof {
        reveal_with_fuel(powers::pow10, 4);
    }
    push_seconds(out, ms, 3, 1000);
}

fn push_seconds(out: &mut String, ms: u64, decimals: u8, power: u128)
    requires
        decimals <= 3,
        power == powers::pow10(decimals as nat),
    ensures
        final(out)@ == old(out)@ + seconds_text(ms, decimals as nat),
{
    let ghost before = out@;
    let (n, d) = to_seconds(ms);
    proof {
        assert(1 <= powers::pow10(decimals as nat) <= 1000) by {
            reveal_with_fuel(powers::pow10, 4);
        }
        assert(n * power <= 0x2_0000_0000_0000_0000 * 1000) by (nonlinear_arith)
            requires
                n <= 0x2_0000_0000_0000_0000,
                power <= 1000,
        ;
    }
    let units = round(n * power, d);
    push_decimal_wide(out, units / power);
    push_text(out, ".");
    push_fixed_decimal(out, (units % power) as u64, decimals);
    proof {
        assert(out@ =~= before + seconds_text(ms, decimals as nat));
    }
}

/// The float nearest to a fraction is at most half a unit of its last bit away.
proof fn lemma_small_double_is_near(p: nat, q: nat)
    requires
        0 < q,
    ensures
        ({
            let (n, d) = small_double(p, q);
            &&& 0 < d
            &&& 2 * (n * q - p * d) <= q
            &&& 2 * (p * d - n * q) <= q
        }),
    decreases
            (if p < q * 0x10_0000_0000_0000 {
                (q * 0x10_0000_0000_0000 - p) as nat
            } else {
                0
            }),
{
    if 0 < p < q * 0x10_0000_0000_0000 {
        lemma_small_double_is_near(2 * p, q);
        let (n, d) = small_double(2 * p, q);
        assert((2 * p) * d == p * (2 * d)) by (nonlinear_arith);
    } else {
        let k = p / q;
        let r = p % q;
        assert(p == k * q + r && r < q) by (nonlinear_arith)
            requires
                0 < q,
                k == p / q,
                r == p % q,
        ;
        assert((k + 1) * q == k * q + q) by (nonlinear_arith);
    }
}

/// The unit of the last bit is at most as large as `left` doublings show.
proof fn lemma_small_double_is_fine(p: nat, q: nat, left: nat)
    requires
        0 < p,
        0 < q,
        p * pow2(left) < q * 0x20_0000_0000_0000,
    ensures
        small_double(p, q).1 >= pow2(left),
    decreases left,
{
    lemma_pow2_up(0, left);
    if left > 0 {
        let half = pow2((left - 1) as nat);
        lemma_pow2_up(0, (left - 1) as nat);
        assert(p * pow2(left) == (2 * p) * half) by (nonlinear_arith)
            requires
                pow2(left) == 2 * half,
        ;
        assert(2 * p <= (2 * p) * half) by (nonlinear_arith)
            requires
                half >= 1,
        ;
        lemma_small_double_is_fine(2 * p, q, (left - 1) as nat);
    } else {
        lemma_small_double_is_near(p, q);
    }
}

/// A span of less than 278 000 years is written to the millisecond as it is:
/// no digit is lost to the float.
pub proof fn law_milliseconds_are_exact(ms: u64)
    requires
        ms < 1000 * 0x800_0000_0000,
    ensures
        seconds_text(ms, 3) == text::decimal(ms as nat / 1000) + "."@ + text::fixed_decimal(
            ms as nat % 1000,
            3,
        ),
{
    reveal_with_fuel(powers::pow10, 4);
    let p = ms as nat;
    assert(large_double(p, 1) == p);
    let (n, d) = small_double(p, 1000);
    lemma_small_double_is_near(p, 1000);
    if p == 0 {
        assert(n == 0 && d == 1);
    } else {
        assert(pow2(10) == 1024) by {
            reveal_with_fuel(pow2, 11);
        }
        lemma_small_double_is_fine(p, 1000, 10);
        assert(round_half_even(n * 1000, d) == p) by {
            let x = n * 1000;
            let k = x / d;
            let r = x % d;
            assert(x == k * d + r && r < d) by (nonlinear_arith)
                requires
                    0 < d,
                    k == x / d,
                    r == x % d,
            ;
            // x is within 500 of p * d, and d is above 1000.
            if x >= p * d {
                assert(k == p) by (nonlinear_arith)
                    requires
                        x == k * d + r,
                        0 <= r < d,
                        p * d <= x < p * d + d,
                ;
            } else {
                assert(k == p - 1) by (nonlinear_arith)
                    requires
                        x == k * d + r,
                        0 <= r < d,
                        p * d - d <= x < p * d,
                ;
                assert(p * d == k * d + d) by (nonlinear_arith)
                    requires
                        k == p - 1,
                ;
            }
        }
    }
}

/// The tenths of seconds that are written of `ms` milliseconds.
spec fn tenths_of(ms: u64) -> nat {
    round_half_even(seconds_of(ms).0 * 10, seconds_of(ms).1)
}

/// A span of less than 278 000 years is written to the tenth of a second that is
/// nearest: what is written is at most half a tenth away.
pub proof fn law_tenths_are_nearest(ms: u64) -> (tenths: nat)
    requires
        ms < 1000 * 0x800_0000_0000,
    ensures
        seconds_text(ms, 1) == text::decimal(tenths / 10) + "."@ + seq![
            (48 + tenths % 10) as char,
        ],
        ms - 50 <= 100 * tenths <= ms + 50,
{
    reveal_with_fuel(powers::pow10, 2);
    reveal_with_fuel(text::fixed_decimal, 2);
    let p = ms as nat;
    assert(large_double(p, 1) == p);
    let (n, d) = small_double(p, 1000);
    let units = tenths_of(ms);
    lemma_small_double_is_near(p, 1000);
    if p == 0 {
        assert(n == 0 && d == 1);
    } else {
        assert(pow2(10) == 1024) by {
            reveal_with_fuel(pow2, 11);
        }
        lemma_small_double_is_fine(p, 1000, 10);
    }
    // n / d is within half of 1 / d of p / 1000, and the tenths are within half
    // of ten times that.
    let x = n * 10;
    let k = x / d;
    let r = x % d;
    assert(x == k * d + r && r < d) by (nonlinear_arith)
        requires
            0 < d,
            k == x / d,
            r == x % d,
    ;
    assert((k + 1) * d == k * d + d) by (nonlinear_arith);
    assert(2 * (units * d - x) <= d && 2 * (x - units * d) <= d);
    assert(2 * (n * 1000 - p * d) <= 1000 && 2 * (p * d - n * 1000) <= 1000);
    assert(100 * (units * d) == (100 * units) * d) by (nonlinear_arith);
    let gap = 100 * units - p;
    assert(gap * d == (100 * units) * d - p * d) by (nonlinear_arith)
        requires
            gap == 100 * units - p,
    ;
    assert(-50 * d - 500 <= gap * d <= 50 * d + 500);
    if p > 0 {
        assert(gap < 51) by (nonlinear_arith)
            requires
                gap * d <= 50 * d + 500,
                d >= 1024,
        ;
        assert(gap > -51) by (nonlinear_arith)
            requires
                -50 * d - 500 <= gap * d,
                d >= 1024,
        ;
    }
    let frac = units % 10;
    assert(text::fixed_decimal(frac, 1) =~= seq![(48 + frac) as char]);
    units
}

/// Rounding takes the nearest integer, and the even one of two that are equally
/// near.
pub proof fn law_rounding_is_to_the_nearest(p: nat, q: nat)
    requires
        0 < q,
    ensures
        2 * (round_half_even(p, q) * q - p) <= q,
        2 * (p - round_half_even(p, q) * q) <= q,
        2 * (round_half_even(p, q) * q - p) == q || 2 * (p - round_half_even(p, q) * q) == q
            ==> round_half_even(p, q) % 2 == 0,
{
    let k = p / q;
    let r = p % q;
    assert(p == k * q + r && r < q) by (nonlinear_arith)
        requires
            0 < q,
            k == p / q,
            r == p % q,
    ;
    assert((k + 1) * q == k * q + q) by (nonlinear_arith);
}

} // verus!

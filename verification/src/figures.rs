//! Figures for people: quotients printed with one decimal. Binary floating
//! point decides the last digit, so its rounding is spelled out in integers.
use crate::text::{decimal, digit, push_decimal};
use vstd::arithmetic::power2::{lemma2_to64, lemma_pow2_unfold, pow2};
use vstd::prelude::*;

verus! {

/// The integer nearest to `n / d`; of two that are equally near, the even one.
pub open spec fn half_even(n: nat, d: nat) -> nat {
    let q = n / d;
    let r = n % d;
    if 2 * r < d || (2 * r == d && q % 2 == 0) {
        q
    } else {
        q + 1
    }
}

/// The integer nearest to `n / d`, ties to even.
pub fn nearest(n: u128, d: u128) -> (res: u128)
    requires
        0 < d <= 0x1_0000_0000_0000_0000,
    ensures
        res == half_even(n as nat, d as nat),
{
    let q: u128 = n / d;
    let r: u128 = n % d;
    if 2 * r < d || (2 * r == d && q % 2 == 0) {
        q
    } else {
        proof {
            assert(d == 1 ==> r == 0);
            assert(d >= 2);
            assert(q <= n / 2) by (nonlinear_arith)
                requires
                    q == n / d,
                    d >= 2,
            ;
        }
        q + 1
    }
}

/// How many low bits `n` has beyond the 53 that a double-precision number keeps.
pub open spec fn spare_bits(n: nat) -> nat
    decreases n,
{
    if n < 0x20_0000_0000_0000 {
        0
    } else {
        1 + spare_bits(n / 2)
    }
}

/// `n` as a double-precision number holds it.
pub open spec fn as_double(n: nat) -> nat {
    half_even(n, pow2(spare_bits(n))) * pow2(spare_bits(n))
}

/// `n` rounded to what a double-precision number can hold.
pub fn to_double(n: u64) -> (res: u128)
    ensures
        res == as_double(n as nat),
        res <= 0x2_0000_0000_0000_0000,
{
    let mut m: u64 = n;
    let mut unit: u128 = 1;
    let ghost mut bits: nat = 0;
    proof {
        lemma2_to64();
    }
    while m >= 0x20_0000_0000_0000
        invariant
            unit == pow2(bits),
            1 <= unit,
            unit <= n || unit == 1,
            m * unit <= n,
            spare_bits(n as nat) == bits + spare_bits(m as nat),
        decreases m,
    {
        proof {
            lemma_pow2_unfold(bits + 1);
            assert(2 * unit <= n && (m / 2) * (2 * unit) <= n) by (nonlinear_arith)
                requires
                    m * unit <= n,
                    m >= 2,
            ;
            bits = bits + 1;
        }
        unit = unit * 2;
        m = m / 2;
    }
    let k: u128 = nearest(n as u128, unit);
    proof {
        assert((n as int / unit as int) * unit <= n) by (nonlinear_arith)
            requires
                unit >= 1,
        ;
        assert(k <= n as int / unit as int + 1);
        assert(k * unit <= (n as int / unit as int) * unit + unit) by (nonlinear_arith)
            requires
                k <= n as int / unit as int + 1,
                unit >= 1,
        ;
    }
    k * unit
}

/// `t` tenths: the whole part, a point, one digit.
pub open spec fn tenths(t: nat) -> Seq<char> {
    decimal(t / 10).push('.').push(digit((t % 10) as int))
}

/// Appends `t` tenths.
pub fn push_tenths(out: &mut String, t: u64)
    ensures
        final(out)@ == old(out)@ + tenths(t as nat),
{
    push_decimal(out, t / 10);
    out.push('.');
    let d: u8 = (t % 10) as u8;
    out.push((48u8 + d) as char);
    assert(out@ =~= old(out)@ + tenths(t as nat));
}

} // verus!

//! The throughput between two observations.

use vstd::prelude::*;
use vstd::arithmetic::div_mod::lemma_fundamental_div_mod;

verus! {

/// The nanoseconds in a second.
pub const NANOS_PER_SECOND: u64 = 1_000_000_000;

/// The bytes per second at which `bytes` bytes arrived within `delta`
/// nanoseconds, rounded to the nearest whole number, and to the even one of
/// the two where it lies halfway between them. Where no time has passed
/// there is no rate to speak of, and it is zero.
pub open spec fn rate_of(bytes: u64, delta: u64) -> nat {
    if delta == 0 {
        0
    } else {
        let scaled = bytes * NANOS_PER_SECOND;
        let whole = scaled / (delta as int);
        let rest = scaled % (delta as int);
        if 2 * rest > delta || (2 * rest == delta && whole % 2 == 1) {
            (whole + 1) as nat
        } else {
            whole as nat
        }
    }
}

/// The rate lies within half a byte per second of the exact quotient
/// `bytes * NANOS_PER_SECOND / delta`, and where it lies just half a byte
/// per second from it, it is even.
pub proof fn lemma_rate_is_nearest(bytes: u64, delta: u64)
    requires
        delta > 0,
    ensures
        -(delta as int) <= 2 * (rate_of(bytes, delta) * delta) - 2 * (bytes * NANOS_PER_SECOND)
            <= delta,
        2 * (rate_of(bytes, delta) * delta) - 2 * (bytes * NANOS_PER_SECOND) == delta
            || 2 * (bytes * NANOS_PER_SECOND) - 2 * (rate_of(bytes, delta) * delta) == delta
            ==> rate_of(bytes, delta) % 2 == 0,
{
    let scaled: int = bytes * NANOS_PER_SECOND;
    let d: int = delta as int;
    let whole: int = scaled / d;
    let rest: int = scaled % d;
    lemma_fundamental_div_mod(scaled, d);
    assert(0 <= rest < d);
    assert(whole >= 0) by (nonlinear_arith)
        requires
            scaled >= 0,
            d > 0,
            whole == scaled / d,
    ;
    assert((whole + 1) * d == whole * d + d) by (nonlinear_arith);
    assert(d * whole == whole * d) by (nonlinear_arith);
}

/// The rate never exceeds what `bytes` bytes in one nanosecond come to.
pub proof fn lemma_rate_is_bounded(bytes: u64, delta: u64)
    ensures
        rate_of(bytes, delta) <= bytes * NANOS_PER_SECOND,
{
    if delta > 0 {
        let scaled: int = bytes * NANOS_PER_SECOND;
        let d: int = delta as int;
        let whole: int = scaled / d;
        let rest: int = scaled % d;
        lemma_fundamental_div_mod(scaled, d);
        assert(0 <= rest < d);
        assert(0 <= whole) by (nonlinear_arith)
            requires
                scaled >= 0,
                d > 0,
                whole == scaled / d,
        ;
        assert(d * whole >= whole) by (nonlinear_arith)
            requires
                d >= 1,
                whole >= 0,
        ;
        if rest > 0 {
            // A rest is left only where `delta` is two or more, and then the
            // quotient is at most half of what was divided.
            assert(d >= 2);
            assert(d * whole >= 2 * whole) by (nonlinear_arith)
                requires
                    d >= 2,
                    whole >= 0,
            ;
        }
    }
}

/// Computes the rate at which `bytes` bytes arrived within `delta`
/// nanoseconds. It is a whole number for every input: two observations that
/// no measurable time lies between give zero.
pub fn rate_per_second(bytes: u64, delta: u64) -> (rate: u128)
    ensures
        rate == rate_of(bytes, delta),
        delta == 0 ==> rate == 0,
        rate <= bytes * NANOS_PER_SECOND,
{
    proof {
        lemma_rate_is_bounded(bytes, delta);
    }
    if delta == 0 {
        0
    } else {
        let scaled: u128 = (bytes as u128) * (NANOS_PER_SECOND as u128);
        let whole: u128 = scaled / (delta as u128);
        let rest: u128 = scaled % (delta as u128);
        if 2 * rest > delta as u128 || (2 * rest == delta as u128 && whole % 2 == 1) {
            whole + 1
        } else {
            whole
        }
    }
}

} // verus!

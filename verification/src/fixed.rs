//! Fixed-point conventions and the integer square root on which the optical
//! formulas rest.
//!
//! Every physical quantity in this crate is an integer count of a fixed
//! fraction of its unit, so every formula is exact integer arithmetic with a
//! single, stated rounding.
use vstd::prelude::*;

verus! {

/// Lengths carry six decimal places: the integer `n` stands for
/// `n / LENGTH_SCALE` centimetres.
pub const LENGTH_SCALE: u32 = 1_000_000;

/// Frequencies, and the wavelengths that are converted to and from them,
/// carry twelve decimal places: the integer `n` stands for `n / WAVE_SCALE`
/// gigahertz (or centimetres). At this scale a conversion to and fro moves no
/// value of the type by more than one part in a million.
pub const WAVE_SCALE: u64 = 1_000_000_000_000;

/// The scale factor carries twelve decimal places: the integer `n` stands for
/// `n / K_SCALE` per centimetre.
pub const K_SCALE: i64 = 1_000_000_000_000;

/// Other dimensionless quantities (the Fresnel parameter, the Fresnel
/// integrals, amplitudes, quotients of currents and angles in radians) carry
/// nine decimal places: the integer `n` stands for `n / ONE`.
pub const ONE: i64 = 1_000_000_000;

/// `r` is the integer part of the square root of `n`.
pub open spec fn is_sqrt_floor(n: nat, r: nat) -> bool {
    r * r <= n < (r + 1) * (r + 1)
}

/// The integer part of the square root of `n`.
pub open spec fn sqrt_floor(n: nat) -> nat {
    choose|r: nat| is_sqrt_floor(n, r)
}

/// Squaring is monotonic on the naturals.
pub proof fn lemma_square_monotonic(a: nat, b: nat)
    requires
        a <= b,
    ensures
        a * a <= b * b,
{
    assert(a * a <= b * b) by (nonlinear_arith)
        requires
            0 <= a <= b,
    ;
}

/// Every natural number has an integer square root.
pub proof fn lemma_sqrt_floor_exists(n: nat)
    ensures
        is_sqrt_floor(n, sqrt_floor(n)),
    decreases n,
{
    if n == 0 {
        let z: nat = 0;
        assert(z * z == 0 && (z + 1) * (z + 1) == 1) by (nonlinear_arith)
            requires
                z == 0,
        ;
        assert(is_sqrt_floor(n, z));
    } else {
        let m: nat = (n - 1) as nat;
        lemma_sqrt_floor_exists(m);
        let r: nat = sqrt_floor(m);
        if (r + 1) * (r + 1) <= n {
            assert((r + 2) * (r + 2) > (r + 1) * (r + 1)) by (nonlinear_arith);
            assert(is_sqrt_floor(n, r + 1));
        } else {
            assert(is_sqrt_floor(n, r));
        }
    }
}

/// The integer square root is the only `r` with `r * r <= n < (r + 1) * (r + 1)`.
pub proof fn lemma_sqrt_floor_unique(n: nat, r: nat)
    requires
        is_sqrt_floor(n, r),
    ensures
        sqrt_floor(n) == r,
{
    let q: nat = sqrt_floor(n);
    lemma_sqrt_floor_exists(n);
    if q < r {
        lemma_square_monotonic(q + 1, r);
    } else if r < q {
        lemma_square_monotonic(r + 1, q);
    }
}

/// The integer square root does not decrease when its argument grows.
pub proof fn lemma_sqrt_floor_monotonic(a: nat, b: nat)
    requires
        a <= b,
    ensures
        sqrt_floor(a) <= sqrt_floor(b),
{
    lemma_sqrt_floor_exists(a);
    lemma_sqrt_floor_exists(b);
    let p: nat = sqrt_floor(a);
    let q: nat = sqrt_floor(b);
    if q < p {
        lemma_square_monotonic(q + 1, p);
    }
}

/// For a natural `t`, the integer square root of `n` reaches `t` exactly when
/// `n` reaches `t * t`.
pub proof fn lemma_sqrt_floor_reaches(n: nat, t: nat)
    ensures
        sqrt_floor(n) >= t <==> n >= t * t,
{
    lemma_sqrt_floor_exists(n);
    let r: nat = sqrt_floor(n);
    if r >= t {
        lemma_square_monotonic(t, r);
    } else {
        lemma_square_monotonic(r + 1, t);
    }
}

/// Computes the integer part of the square root of `n` by bisection.
pub fn isqrt(n: u128) -> (r: u64)
    ensures
        r == sqrt_floor(n as nat),
{
    let mut lo: u128 = 0;
    let mut hi: u128 = 0x1_0000_0000_0000_0000;
    assert(hi * hi > n) by (nonlinear_arith)
        requires
            hi == 0x1_0000_0000_0000_0000,
            n <= u128::MAX,
    ;
    while hi - lo > 1
        invariant
            lo < hi <= 0x1_0000_0000_0000_0000,
            lo * lo <= n < hi * hi,
        decreases hi - lo,
    {
        let mid: u128 = lo + (hi - lo) / 2;
        assert(mid * mid <= u128::MAX) by (nonlinear_arith)
            requires
                mid <= 0xffff_ffff_ffff_ffff,
        ;
        if mid * mid <= n {
            lo = mid;
        } else {
            hi = mid;
        }
    }
    proof {
        assert(hi == lo + 1);
        assert(is_sqrt_floor(n as nat, lo as nat));
        lemma_sqrt_floor_unique(n as nat, lo as nat);
    }
    lo as u64
}

} // verus!

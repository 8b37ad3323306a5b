//! The formulas of the model, as functions of plain numbers.
//!
//! With `l1`, `l2` the distances from source to screen and from screen to
//! observation plane, and `lambda` the wavelength, the squared radius step
//! between adjacent Fresnel zones is `b = lambda * l1 * l2 / (l1 + l2)`, and a
//! position `x` in the screen plane has the Fresnel parameter `u = x * k` with
//! `k = sqrt(2 / b)`.
use vstd::prelude::*;
use vstd::arithmetic::div_mod::{lemma_fundamental_div_mod, lemma_fundamental_div_mod_converse};
use crate::difr::Screens;
use crate::fixed::{isqrt, lemma_sqrt_floor_exists, lemma_sqrt_floor_reaches, sqrt_floor};

verus! {

/// An edit is affordable when `b` exceeds 6 cm²; this is 6 cm² in squared
/// length units.
pub const GUARD_B: u64 = 6_000_000_000_000;

/// The square of `LENGTH_SCALE * K_SCALE`: what turns `2 / b`, with `b` in
/// squared length units, into the square of `k` in its own scale.
pub const K_SCALE_SQ: u128 = 1_000_000_000_000_000_000_000_000_000_000_000_000;

/// No scale factor exceeds this: `k` is largest, two million per centimetre,
/// where both distances and the wavelength are one length unit.
pub const K_MAX: i64 = 2_000_000_000_000_000_000;

/// No scale factor of positive parameters is below this: `k` is smallest
/// where both distances and the wavelength are the largest of their type.
pub const K_MIN: i64 = 300_000_000;

/// What a position times a scale factor is divided by to give the Fresnel
/// parameter in its scale: `LENGTH_SCALE * K_SCALE / ONE`.
pub const U_DIVISOR: i64 = 1_000_000_000;

/// No Fresnel parameter of a 32-bit position exceeds this in magnitude.
pub const U_MAX: i64 = 4_294_967_296_000_000_000;

/// One half, the value that both Fresnel integrals tend to.
pub const HALF: i64 = 500_000_000;

/// The numerator of `b` in squared length units.
pub open spec fn spec_b_num(l1: int, l2: int, lambda: int) -> int {
    lambda * l1 * l2
}

/// The denominator of `b` in squared length units.
pub open spec fn spec_b_den(l1: int, l2: int) -> int {
    l1 + l2
}

/// Whether `b` exceeds the guard threshold of 6 cm², decided without
/// rounding. With a distance or the wavelength zero nothing is affordable.
pub open spec fn spec_affordable(l1: int, l2: int, lambda: int) -> bool {
    spec_b_num(l1, l2, lambda) > GUARD_B as int * spec_b_den(l1, l2)
}

/// The scale factor `k = sqrt(2 * (l1 + l2) / (lambda * l1 * l2))` in its
/// scale, rounded down. Where a distance or the wavelength is zero there is
/// no scale factor, and the value is zero.
pub open spec fn spec_k(l1: int, l2: int, lambda: int) -> int {
    if spec_b_num(l1, l2, lambda) <= 0 {
        0
    } else {
        sqrt_floor(
            (2 * spec_b_den(l1, l2) * K_SCALE_SQ as int / spec_b_num(l1, l2, lambda)) as nat,
        ) as int
    }
}

/// The Fresnel parameter `u = x * k` in its scale, rounded towards zero.
pub open spec fn spec_u(x: int, k: int) -> int {
    if x >= 0 {
        x * k / U_DIVISOR as int
    } else {
        -((-x) * k / U_DIVISOR as int)
    }
}

/// The real part of the diffracted wave, from the Fresnel cosine integral `c`.
pub open spec fn spec_re(rezhim: Screens, c: int) -> int {
    match rezhim {
        Screens::One => c + HALF as int,
        Screens::Two => 2 * c,
    }
}

/// The imaginary part of the diffracted wave, from the Fresnel sine integral
/// `s`.
pub open spec fn spec_im(rezhim: Screens, s: int) -> int {
    match rezhim {
        Screens::One => s + HALF as int,
        Screens::Two => 2 * s,
    }
}

/// The normalised amplitude `hypot(re, im) / sqrt(2)`, rounded down.
pub open spec fn spec_amplitude(re: int, im: int) -> int {
    sqrt_floor(((re * re + im * im) / 2) as nat) as int
}

/// The normalised amplitude behind the given screens where the Fresnel
/// integrals are `c` and `s`.
pub open spec fn spec_norm(rezhim: Screens, c: int, s: int) -> int {
    spec_amplitude(spec_re(rezhim, c), spec_im(rezhim, s))
}

/// The product of three 32-bit numbers fits in 96 bits.
pub proof fn lemma_b_num_bound(l1: u32, l2: u32, lambda: u32)
    ensures
        0 <= lambda * l1 <= 0xffff_ffff_0000_0000,
        0 <= spec_b_num(l1 as int, l2 as int, lambda as int) <= 0xffff_ffff_0000_0000_0000_0000,
        l1 > 0 && l2 > 0 && lambda > 0 ==> spec_b_num(l1 as int, l2 as int, lambda as int) > 0,
        l1 == 0 || l2 == 0 || lambda == 0 ==> spec_b_num(l1 as int, l2 as int, lambda as int) == 0,
        l1 > 0 && l2 > 0 && lambda > 0 ==> spec_b_den(l1 as int, l2 as int) <= 2 * spec_b_num(
            l1 as int,
            l2 as int,
            lambda as int,
        ),
        spec_b_num(l1 as int, l2 as int, lambda as int) <= 0x1_0000_0000_0000_0000 * spec_b_den(
            l1 as int,
            l2 as int,
        ),
{
    let a: int = l1 as int;
    let b: int = l2 as int;
    let l: int = lambda as int;
    assert(0 <= l * a <= 0xffff_ffff_0000_0000) by (nonlinear_arith)
        requires
            0 <= l <= 0xffff_ffff,
            0 <= a <= 0xffff_ffff,
    ;
    assert(0 <= l * a * b <= 0xffff_ffff_0000_0000_0000_0000) by (nonlinear_arith)
        requires
            0 <= l * a <= 0xffff_ffff_0000_0000,
            0 <= b <= 0xffff_ffff,
    ;
    if a > 0 && b > 0 && l > 0 {
        assert(l * a * b > 0 && a + b <= 2 * (l * a * b)) by (nonlinear_arith)
            requires
                a >= 1,
                b >= 1,
                l >= 1,
        ;
    } else {
        assert(l * a * b == 0) by (nonlinear_arith)
            requires
                a == 0 || b == 0 || l == 0,
        ;
    }
    assert(l * a * b <= 0x1_0000_0000_0000_0000 * (a + b)) by (nonlinear_arith)
        requires
            0 <= l <= 0xffff_ffff,
            0 <= a <= 0xffff_ffff,
            0 <= b <= 0xffff_ffff,
    ;
}

/// Affordable parameters are positive: a vanishing distance or wavelength
/// makes `b` vanish.
pub proof fn lemma_affordable_positive(l1: u32, l2: u32, lambda: u32)
    requires
        spec_affordable(l1 as int, l2 as int, lambda as int),
    ensures
        l1 > 0,
        l2 > 0,
        lambda > 0,
{
    lemma_b_num_bound(l1, l2, lambda);
}

/// The zone step `b = lambda * l1 * l2 / (l1 + l2)` as a fraction of squared
/// length units: its numerator and its denominator. Nothing is rounded.
pub fn zone_step(l1: u32, l2: u32, lambda: u32) -> (r: (u128, u64))
    ensures
        r.0 == spec_b_num(l1 as int, l2 as int, lambda as int),
        r.1 == spec_b_den(l1 as int, l2 as int),
        l1 > 0 && l2 > 0 && lambda > 0 ==> r.0 > 0 && r.1 > 0,
{
    proof {
        lemma_b_num_bound(l1, l2, lambda);
    }
    (lambda as u128 * l1 as u128 * l2 as u128, l1 as u64 + l2 as u64)
}

/// Decides whether parameters are cheap enough to recompute for: whether `b`
/// exceeds 6 cm².
pub fn affordable(l1: u32, l2: u32, lambda: u32) -> (r: bool)
    ensures
        r == spec_affordable(l1 as int, l2 as int, lambda as int),
        r ==> l1 > 0 && l2 > 0 && lambda > 0,
{
    proof {
        lemma_b_num_bound(l1, l2, lambda);
    }
    let num: u128 = lambda as u128 * l1 as u128 * l2 as u128;
    let den: u128 = l1 as u128 + l2 as u128;
    let guard: u128 = GUARD_B as u128;
    assert(guard * den <= 6_000_000_000_000 * 0x2_0000_0000) by (nonlinear_arith)
        requires
            guard == 6_000_000_000_000,
            den <= 0x2_0000_0000,
    ;
    num > guard * den
}

/// One step of a long division: from quotient and remainder of `a / n` to
/// those of `a * 1_000_000_000 / n`.
fn refine(q: u128, r: u128, n: u128, Ghost(a): Ghost<int>) -> (out: (u128, u128))
    requires
        0 < n <= 0xffff_ffff_0000_0000_0000_0000,
        a >= 0,
        q == a / (n as int),
        r == a % (n as int),
        a * 1_000_000_000 / (n as int) <= 0xffff_ffff_ffff_ffff_ffff_ffff_ffff_ffff,
    ensures
        out.0 == a * 1_000_000_000 / (n as int),
        out.1 == a * 1_000_000_000 % (n as int),
{
    proof {
        lemma_fundamental_div_mod(a, n as int);
    }
    assert(r * 1_000_000_000 <= 0xffff_ffff_0000_0000_0000_0000 * 1_000_000_000) by (nonlinear_arith)
        requires
            0 <= r <= 0xffff_ffff_0000_0000_0000_0000,
    ;
    let t: u128 = r * 1_000_000_000;
    let extra: u128 = t / n;
    let rest: u128 = t % n;
    proof {
        let d: int = n as int;
        lemma_fundamental_div_mod(t as int, d);
        assert(a * 1_000_000_000 == (q * 1_000_000_000 + extra) * d + rest) by (nonlinear_arith)
            requires
                a == d * q + r,
                t == r * 1_000_000_000,
                t == d * extra + rest,
        ;
        lemma_fundamental_div_mod_converse(
            a * 1_000_000_000,
            d,
            q * 1_000_000_000 + extra,
            rest as int,
        );
    }
    (q * 1_000_000_000 + extra, rest)
}

/// The scale factor of positive parameters lies between `K_MIN` and `K_MAX`.
pub proof fn lemma_k_bounds(l1: u32, l2: u32, lambda: u32)
    requires
        l1 > 0,
        l2 > 0,
        lambda > 0,
    ensures
        K_MIN <= spec_k(l1 as int, l2 as int, lambda as int) <= K_MAX,
        2 * spec_b_den(l1 as int, l2 as int) * K_SCALE_SQ as int / spec_b_num(
            l1 as int,
            l2 as int,
            lambda as int,
        ) <= 4 * K_SCALE_SQ,
{
    lemma_b_num_bound(l1, l2, lambda);
    let num: int = spec_b_num(l1 as int, l2 as int, lambda as int);
    let den: int = spec_b_den(l1 as int, l2 as int);
    let scale: int = K_SCALE_SQ as int;
    let q: int = 2 * den * scale / num;
    assert(100_000_000_000_000_000 <= q <= 4 * scale) by (nonlinear_arith)
        requires
            num > 0,
            den <= 2 * num,
            num <= 0x1_0000_0000_0000_0000 * den,
            scale == 1_000_000_000_000_000_000_000_000_000_000_000_000,
            q == 2 * den * scale / num,
    ;
    lemma_sqrt_floor_reaches(q as nat, K_MIN as nat);
    lemma_sqrt_floor_reaches(q as nat, (K_MAX + 1) as nat);
    assert(K_MIN * K_MIN <= 100_000_000_000_000_000) by (nonlinear_arith)
        requires
            K_MIN == 300_000_000,
    ;
    assert((K_MAX + 1) * (K_MAX + 1) > 4 * scale) by (nonlinear_arith)
        requires
            K_MAX == 2_000_000_000_000_000_000,
            scale == 1_000_000_000_000_000_000_000_000_000_000_000_000,
    ;
}

/// Computes the scale factor `k` that turns a position into its Fresnel
/// parameter. Where a distance or the wavelength is zero there is no scale
/// factor, and zero comes back.
pub fn scale_factor(l1: u32, l2: u32, lambda: u32) -> (r: i64)
    ensures
        r == spec_k(l1 as int, l2 as int, lambda as int),
        0 <= r <= K_MAX,
        l1 > 0 && l2 > 0 && lambda > 0 ==> r >= K_MIN,
{
    proof {
        lemma_b_num_bound(l1, l2, lambda);
    }
    if l1 == 0 || l2 == 0 || lambda == 0 {
        return 0;
    }
    let num: u128 = lambda as u128 * l1 as u128 * l2 as u128;
    let den: u128 = l1 as u128 + l2 as u128;
    let start: u128 = 2 * den * 1_000_000_000_000_000_000;
    let ghost a0: int = start as int;
    proof {
        lemma_k_bounds(l1, l2, lambda);
        let scale: int = K_SCALE_SQ as int;
        assert(a0 * 1_000_000_000 * 1_000_000_000 == 2 * den * scale) by (nonlinear_arith)
            requires
                a0 == 2 * den * 1_000_000_000_000_000_000,
                scale == 1_000_000_000_000_000_000_000_000_000_000_000_000,
        ;
        assert(a0 * 1_000_000_000 / (num as int) <= a0 * 1_000_000_000 * 1_000_000_000 / (
        num as int)) by (nonlinear_arith)
            requires
                a0 >= 0,
                num > 0,
        ;
    }
    let first: (u128, u128) = refine(start / num, start % num, num, Ghost(a0));
    let second: (u128, u128) = refine(first.0, first.1, num, Ghost(a0 * 1_000_000_000));
    let r: u64 = isqrt(second.0);
    r as i64
}

/// What `spec_k` rounds: for positive parameters `k` is the largest integer
/// whose square, times `b`, does not exceed 2, in the units of the crate.
pub proof fn lemma_k_is_floor(l1: u32, l2: u32, lambda: u32)
    requires
        l1 > 0,
        l2 > 0,
        lambda > 0,
    ensures
        ({
            let k = spec_k(l1 as int, l2 as int, lambda as int);
            let num = spec_b_num(l1 as int, l2 as int, lambda as int);
            let top = 2 * spec_b_den(l1 as int, l2 as int) * (K_SCALE_SQ as int);
            k * k * num <= top && top < (k + 1) * (k + 1) * num
        }),
{
    lemma_b_num_bound(l1, l2, lambda);
    let num: int = spec_b_num(l1 as int, l2 as int, lambda as int);
    let top: int = 2 * spec_b_den(l1 as int, l2 as int) * K_SCALE_SQ as int;
    let q: int = top / num;
    let k: int = spec_k(l1 as int, l2 as int, lambda as int);
    assert(q >= 0 && q * num <= top < (q + 1) * num) by (nonlinear_arith)
        requires
            num > 0,
            top >= 0,
            q == top / num,
    ;
    lemma_sqrt_floor_exists(q as nat);
    assert(k * k * num <= top) by (nonlinear_arith)
        requires
            k * k <= q,
            q * num <= top,
            num > 0,
    ;
    assert(top < (k + 1) * (k + 1) * num) by (nonlinear_arith)
        requires
            q + 1 <= (k + 1) * (k + 1),
            top < (q + 1) * num,
            num > 0,
    ;
}

/// Scale factor and zone step belong together: for positive parameters
/// `k * k * b` is 2 to within a hundred-thousandth. In the units of the crate
/// `k * k * b` is `k * k * num / (den * K_SCALE_SQ)`; it does not exceed 2 and
/// falls short of it by less than one part in two hundred thousand.
pub proof fn lemma_k_squared_times_b(l1: u32, l2: u32, lambda: u32)
    requires
        l1 > 0,
        l2 > 0,
        lambda > 0,
    ensures
        ({
            let k = spec_k(l1 as int, l2 as int, lambda as int);
            let num = spec_b_num(l1 as int, l2 as int, lambda as int);
            let two = 2 * spec_b_den(l1 as int, l2 as int) * (K_SCALE_SQ as int);
            k * k * num <= two && (two - k * k * num) * 200_000 < two
        }),
{
    lemma_k_is_floor(l1, l2, lambda);
    lemma_k_bounds(l1, l2, lambda);
    lemma_b_num_bound(l1, l2, lambda);
    let k: int = spec_k(l1 as int, l2 as int, lambda as int);
    let num: int = spec_b_num(l1 as int, l2 as int, lambda as int);
    let two: int = 2 * spec_b_den(l1 as int, l2 as int) * (K_SCALE_SQ as int);
    let part: int = k * k * num;
    assert((k + 1) * (k + 1) * num == part + (2 * k + 1) * num) by (nonlinear_arith)
        requires
            part == k * k * num,
    ;
    assert((2 * k + 1) * num * 200_000 <= part) by (nonlinear_arith)
        requires
            part == k * k * num,
            k >= 300_000_000,
            num > 0,
    ;
}

/// The scale factor is positive and does not change when the two distances
/// change places.
pub proof fn lemma_k_positive_symmetric(l1: u32, l2: u32, lambda: u32)
    requires
        l1 > 0,
        l2 > 0,
        lambda > 0,
    ensures
        spec_k(l1 as int, l2 as int, lambda as int) > 0,
        spec_k(l1 as int, l2 as int, lambda as int) == spec_k(l2 as int, l1 as int, lambda as int),
{
    let a: int = l1 as int;
    let b: int = l2 as int;
    let l: int = lambda as int;
    assert(l * a * b == l * b * a) by (nonlinear_arith);
    lemma_k_bounds(l1, l2, lambda);
}

/// Computes the Fresnel parameter `u = x * k` of a position.
pub fn normalized(x: i32, k: i64) -> (r: i64)
    requires
        0 <= k <= K_MAX,
    ensures
        r == spec_u(x as int, k as int),
        -U_MAX <= r <= U_MAX,
{
    let scale: i128 = U_DIVISOR as i128;
    if x >= 0 {
        assert(0 <= x * k <= 0x7fff_ffff * K_MAX) by (nonlinear_arith)
            requires
                0 <= x <= 0x7fff_ffff,
                0 <= k <= K_MAX,
        ;
        let p: i128 = x as i128 * k as i128;
        (p / scale) as i64
    } else {
        assert(0 <= (-x) * k <= 0x8000_0000 * K_MAX) by (nonlinear_arith)
            requires
                0 < -x <= 0x8000_0000,
                0 <= k <= K_MAX,
        ;
        let p: i128 = (-(x as i128)) * k as i128;
        (-(p / scale)) as i64
    }
}

/// Computes the real and the imaginary part of the diffracted wave from the
/// two Fresnel integrals: one screen is referred to the open aperture, two
/// screens form a symmetric slit.
pub fn phasor(rezhim: Screens, c: i32, s: i32) -> (r: (i64, i64))
    ensures
        r.0 == spec_re(rezhim, c as int),
        r.1 == spec_im(rezhim, s as int),
{
    match rezhim {
        Screens::One => (c as i64 + HALF, s as i64 + HALF),
        Screens::Two => (2 * (c as i64), 2 * (s as i64)),
    }
}

/// The absolute value of `x`, in a type that holds its square.
fn magnitude(x: i64) -> (r: u128)
    ensures
        r == x || r == -x,
        0 <= r <= 0x8000_0000_0000_0000,
{
    if x >= 0 {
        x as u128
    } else {
        (-(x as i128)) as u128
    }
}

/// Computes the normalised amplitude `hypot(re, im) / sqrt(2)`.
pub fn amplitude(re: i64, im: i64) -> (r: u64)
    ensures
        r == spec_amplitude(re as int, im as int),
{
    let a: u128 = magnitude(re);
    let b: u128 = magnitude(im);
    assert(a * a == re * re && a * a <= 0x4000_0000_0000_0000_0000_0000_0000_0000) by (nonlinear_arith)
        requires
            a == re || a == -re,
            0 <= a <= 0x8000_0000_0000_0000,
    ;
    assert(b * b == im * im && b * b <= 0x4000_0000_0000_0000_0000_0000_0000_0000) by (nonlinear_arith)
        requires
            b == im || b == -im,
            0 <= b <= 0x8000_0000_0000_0000,
    ;
    isqrt((a * a + b * b) / 2)
}

/// Computes the normalised amplitude behind the given screens where the
/// Fresnel integrals are `c` and `s`.
pub fn norm(rezhim: Screens, c: i32, s: i32) -> (r: i64)
    ensures
        r == spec_norm(rezhim, c as int, s as int),
        0 <= r <= 0x1_0000_0000,
{
    let (re, im) = phasor(rezhim, c, s);
    let r: u64 = amplitude(re, im);
    proof {
        let bound: nat = 0x1_0000_0000;
        let x: int = re as int;
        let y: int = im as int;
        let n: nat = ((x * x + y * y) / 2) as nat;
        assert(0 <= x * x <= bound * bound && 0 <= y * y <= bound * bound) by (nonlinear_arith)
            requires
                -bound <= x <= bound,
                -bound <= y <= bound,
        ;
        assert((bound + 1) * (bound + 1) > bound * bound) by (nonlinear_arith);
        assert(n < (bound + 1) * (bound + 1));
        lemma_sqrt_floor_reaches(n, bound + 1);
        assert(sqrt_floor(n) <= bound);
    }
    r as i64
}

/// Behind one screen the amplitude is as near to 1 as the Fresnel integrals
/// are to one half: where the point `(c, s)` lies within `rho` of
/// `(HALF, HALF)`, the amplitude lies within `rho / sqrt(2)` of 1, that is
/// within every `delta` with `2 * delta * delta >= rho * rho`. So the
/// amplitude tends to 1 as fast as the integrals tend to one half.
pub proof fn lemma_norm_tends_to_one(c: i32, s: i32, rho: int, delta: int)
    requires
        (c - HALF) * (c - HALF) + (s - HALF) * (s - HALF) <= rho * rho,
        rho * rho <= 2 * delta * delta,
        0 <= delta <= 1_000_000_000,
    ensures
        1_000_000_000 - delta <= spec_norm(Screens::One, c as int, s as int) <= 1_000_000_000
            + delta,
{
    let one: int = 1_000_000_000;
    let dx: int = c - HALF;
    let dy: int = s - HALF;
    let re: int = spec_re(Screens::One, c as int);
    let im: int = spec_im(Screens::One, s as int);
    assert(re == one + dx && im == one + dy);
    let m: int = dx + dy;
    let spread: int = dx * dx + dy * dy;
    let t: int = re * re + im * im;
    assert(m * m <= 2 * spread) by (nonlinear_arith)
        requires
            m == dx + dy,
            spread == dx * dx + dy * dy,
    ;
    assert(-2 * delta <= m <= 2 * delta) by (nonlinear_arith)
        requires
            m * m <= 2 * spread,
            spread <= rho * rho,
            rho * rho <= 2 * delta * delta,
            delta >= 0,
    ;
    assert(t == 2 * one * one + 2 * one * m + spread) by (nonlinear_arith)
        requires
            t == re * re + im * im,
            re == one + dx,
            im == one + dy,
            m == dx + dy,
            spread == dx * dx + dy * dy,
    ;
    assert(t <= 2 * ((one + delta) * (one + delta))) by (nonlinear_arith)
        requires
            t == 2 * one * one + 2 * one * m + spread,
            m <= 2 * delta,
            spread <= 2 * delta * delta,
            one >= 0,
    ;
    assert(2 * ((one - delta) * (one - delta)) <= t) by (nonlinear_arith)
        requires
            t == 2 * one * one + 2 * one * m + spread,
            m * m <= 2 * spread,
            -2 * delta <= m,
            0 <= delta <= one,
    ;
    let n: int = t / 2;
    assert((one - delta) * (one - delta) <= n <= (one + delta) * (one + delta));
    assert((one + delta) * (one + delta) < (one + delta + 1) * (one + delta + 1)) by (nonlinear_arith)
        requires
            one + delta >= 0,
    ;
    lemma_sqrt_floor_reaches(n as nat, (one - delta) as nat);
    lemma_sqrt_floor_reaches(n as nat, (one + delta + 1) as nat);
}

} // verus!

//! The radii of the Fresnel zones: `r_n = sqrt(n * b)` for `n = 0, 1, 2, ...`.
use vstd::prelude::*;
use crate::fixed::{
    isqrt, lemma_sqrt_floor_exists, lemma_sqrt_floor_monotonic, lemma_sqrt_floor_reaches,
    sqrt_floor,
};
use crate::optics::{lemma_b_num_bound, spec_affordable, spec_b_den, spec_b_num};

verus! {

/// The square of `MAX_X`, in squared length units.
pub const MAX_X_SQ: u64 = 400_000_000_000_000;

/// The radius of zone `n` in length units, rounded down.
pub open spec fn spec_radius(l1: int, l2: int, lambda: int, n: int) -> int {
    sqrt_floor((n * spec_b_num(l1, l2, lambda) / spec_b_den(l1, l2)) as nat) as int
}

/// The largest zone number that is ever generated: twice `MAX_X * MAX_X / b`
/// rounded to the nearest integer, halves upwards.
pub open spec fn spec_zone_cap(l1: int, l2: int, lambda: int) -> int {
    2 * ((2 * MAX_X_SQ as int * spec_b_den(l1, l2) + spec_b_num(l1, l2, lambda)) / (2
        * spec_b_num(l1, l2, lambda)))
}

/// Whether `r_n >= x_otv`, decided on the exact radius.
pub open spec fn reaches_aperture(l1: int, l2: int, lambda: int, x_otv: int, n: int) -> bool {
    x_otv <= 0 || n * spec_b_num(l1, l2, lambda) >= x_otv * x_otv * spec_b_den(l1, l2)
}

/// Whether `r_n > MAX_X * sqrt(2)`, decided on the exact radius.
pub open spec fn beyond_extent(l1: int, l2: int, lambda: int, n: int) -> bool {
    n * spec_b_num(l1, l2, lambda) > 2 * MAX_X_SQ as int * spec_b_den(l1, l2)
}

/// Whether zone `n` is the last one generated before the cap.
pub open spec fn zone_stops(
    l1: int,
    l2: int,
    lambda: int,
    x_otv: int,
    is_circle: bool,
    n: int,
) -> bool {
    (is_circle && reaches_aperture(l1, l2, lambda, x_otv, n)) || beyond_extent(l1, l2, lambda, n)
}

/// What the zone radii of the given parameters are.
///
/// The sequence holds the radii of the zones `0, 1, 2, ...` in this order, up
/// to and including the first zone that stops the generation, and never more
/// zones than the cap allows. A last zone that reaches the edge of a circular
/// aperture is cut to the aperture: its radius is `x_otv`.
pub open spec fn is_zone_sequence(
    l1: int,
    l2: int,
    lambda: int,
    x_otv: int,
    is_circle: bool,
    zones: Seq<i64>,
) -> bool {
    let last = zones.len() - 1;
    &&& zones.len() >= 1
    &&& last <= spec_zone_cap(l1, l2, lambda)
    &&& (last == spec_zone_cap(l1, l2, lambda) || zone_stops(
        l1,
        l2,
        lambda,
        x_otv,
        is_circle,
        last,
    ))
    &&& forall|n: int|
        0 <= n < last ==> #[trigger] zones[n] == spec_radius(l1, l2, lambda, n) && !zone_stops(
            l1,
            l2,
            lambda,
            x_otv,
            is_circle,
            n,
        )
    &&& zones[last] == if is_circle && reaches_aperture(l1, l2, lambda, x_otv, last) {
        x_otv
    } else {
        spec_radius(l1, l2, lambda, last)
    }
}

/// The largest cap under which zones are generated.
pub const CAP_MAX: u32 = 0x7fff_ffff;

/// Whether the parameters have zones at all: `b` is not zero, and not so
/// small that the cap on the zone number exceeds `CAP_MAX`.
pub open spec fn has_zones(l1: int, l2: int, lambda: int) -> bool {
    spec_b_num(l1, l2, lambda) > 0 && spec_zone_cap(l1, l2, lambda) <= CAP_MAX as int
}

/// What `fresnel_zones` returns: the zone radii of the parameters, or, where
/// the parameters have no zones, no radius at all.
pub open spec fn are_zones(
    l1: int,
    l2: int,
    lambda: int,
    x_otv: int,
    is_circle: bool,
    zones: Seq<i64>,
) -> bool {
    if has_zones(l1, l2, lambda) {
        is_zone_sequence(l1, l2, lambda, x_otv, is_circle, zones)
    } else {
        zones.len() == 0
    }
}

/// The parameters determine their zone radii: no two sequences are the zone
/// radii of the same parameters.
pub proof fn lemma_zones_unique(
    l1: int,
    l2: int,
    lambda: int,
    x_otv: int,
    is_circle: bool,
    a: Seq<i64>,
    b: Seq<i64>,
)
    requires
        are_zones(l1, l2, lambda, x_otv, is_circle, a),
        are_zones(l1, l2, lambda, x_otv, is_circle, b),
    ensures
        a == b,
{
    if !has_zones(l1, l2, lambda) {
        assert(a =~= b);
    } else {
        let la = a.len() - 1;
        let lb = b.len() - 1;
        if la < lb {
            assert(b[la] == spec_radius(l1, l2, lambda, la));
        } else if lb < la {
            assert(a[lb] == spec_radius(l1, l2, lambda, lb));
        }
        assert(a =~= b);
    }
}

/// The whole quotient `n * b` grows with `n`, by at least the whole part of
/// `b` for each step.
proof fn lemma_quotient_steps(num: int, den: int, i: int, j: int)
    requires
        num >= 0,
        den > 0,
        0 <= i <= j,
    ensures
        0 <= i * num / den <= j * num / den,
        i * num / den + (j - i) * (num / den) <= j * num / den,
{
    assert(0 <= i * num / den <= j * num / den && i * num / den + (j - i) * (num / den) <= j
        * num / den) by (nonlinear_arith)
        requires
            num >= 0,
            den > 0,
            0 <= i <= j,
    ;
}

/// The rounded radius reaches a whole length exactly when the exact radius
/// does.
proof fn lemma_radius_reaches(l1: int, l2: int, lambda: int, x: int, n: int)
    requires
        spec_b_num(l1, l2, lambda) >= 0,
        spec_b_den(l1, l2) > 0,
        n >= 0,
        x > 0,
    ensures
        spec_radius(l1, l2, lambda, n) >= x <==> reaches_aperture(l1, l2, lambda, x, n),
{
    let num = spec_b_num(l1, l2, lambda);
    let den = spec_b_den(l1, l2);
    let q = n * num / den;
    assert(q >= 0 && (q >= x * x <==> n * num >= x * x * den)) by (nonlinear_arith)
        requires
            num >= 0,
            den > 0,
            n >= 0,
            q == n * num / den,
    ;
    lemma_sqrt_floor_reaches(q as nat, x as nat);
}

/// What `spec_radius` rounds: for positive parameters the radius of zone `n`
/// is the largest whole number of length units whose square does not exceed
/// `n * b`, so it is less than one length unit below the exact radius.
pub proof fn lemma_radius_is_floor(l1: int, l2: int, lambda: int, n: int)
    requires
        l1 > 0,
        l2 > 0,
        lambda > 0,
        n >= 0,
    ensures
        ({
            let r = spec_radius(l1, l2, lambda, n);
            let num = spec_b_num(l1, l2, lambda);
            let den = spec_b_den(l1, l2);
            r >= 0 && r * r * den <= n * num && n * num < (r + 1) * (r + 1) * den
        }),
{
    let num = spec_b_num(l1, l2, lambda);
    let den = spec_b_den(l1, l2);
    assert(num > 0) by (nonlinear_arith)
        requires
            num == lambda * l1 * l2,
            l1 > 0,
            l2 > 0,
            lambda > 0,
    ;
    let q = n * num / den;
    assert(q >= 0 && q * den <= n * num < (q + 1) * den) by (nonlinear_arith)
        requires
            num > 0,
            den > 0,
            n >= 0,
            q == n * num / den,
    ;
    lemma_sqrt_floor_exists(q as nat);
    let r = spec_radius(l1, l2, lambda, n);
    assert(r * r * den <= n * num) by (nonlinear_arith)
        requires
            r * r <= q,
            q * den <= n * num,
            den > 0,
    ;
    assert(n * num < (r + 1) * (r + 1) * den) by (nonlinear_arith)
        requires
            q + 1 <= (r + 1) * (r + 1),
            n * num < (q + 1) * den,
            den > 0,
    ;
}

/// Zone radii ascend, none but the last lies beyond `MAX_X * sqrt(2)`, and for
/// affordable parameters no two of them are equal.
pub proof fn lemma_zones_ascending(
    l1: int,
    l2: int,
    lambda: int,
    x_otv: int,
    is_circle: bool,
    zones: Seq<i64>,
)
    requires
        l1 > 0,
        l2 > 0,
        lambda > 0,
        is_zone_sequence(l1, l2, lambda, x_otv, is_circle, zones),
    ensures
        forall|i: int, j: int| 0 <= i <= j < zones.len() ==> zones[i] <= zones[j],
        forall|i: int| 0 <= i < zones.len() - 1 ==> 0 <= #[trigger] zones[i] && zones[i] * zones[i] <= 2 * MAX_X_SQ,
        spec_affordable(l1, l2, lambda) ==> forall|i: int, j: int|
            0 <= i < j < zones.len() ==> zones[i] < zones[j],
{
    let num = spec_b_num(l1, l2, lambda);
    let den = spec_b_den(l1, l2);
    let last = zones.len() - 1;
    assert(num > 0) by (nonlinear_arith)
        requires
            num == lambda * l1 * l2,
            l1 > 0,
            l2 > 0,
            lambda > 0,
    ;
    assert forall|i: int| 0 <= i < last implies 0 <= #[trigger] zones[i] && zones[i] * zones[i]
        <= 2 * MAX_X_SQ by {
        let q = i * num / den;
        assert(zones[i] == spec_radius(l1, l2, lambda, i));
        assert(!beyond_extent(l1, l2, lambda, i));
        assert(0 <= q <= 2 * MAX_X_SQ) by (nonlinear_arith)
            requires
                i >= 0,
                num >= 0,
                den > 0,
                i * num <= 2 * MAX_X_SQ * den,
                q == i * num / den,
        ;
        lemma_sqrt_floor_exists(q as nat);
    }
    assert forall|i: int, j: int| 0 <= i < j < zones.len() implies zones[i] <= zones[j] && (
    spec_affordable(l1, l2, lambda) ==> zones[i] < zones[j]) by {
        let qi = i * num / den;
        let qj = j * num / den;
        let ri = spec_radius(l1, l2, lambda, i);
        assert(zones[i] == ri);
        assert(!zone_stops(l1, l2, lambda, x_otv, is_circle, i));
        lemma_quotient_steps(num, den, i, j);
        if j == last && is_circle && reaches_aperture(l1, l2, lambda, x_otv, j) {
            assert(zones[j] == x_otv);
            assert(x_otv > 0);
            lemma_radius_reaches(l1, l2, lambda, x_otv, i);
        } else {
            assert(zones[j] == spec_radius(l1, l2, lambda, j));
            lemma_sqrt_floor_monotonic(qi as nat, qj as nat);
            if spec_affordable(l1, l2, lambda) {
                lemma_sqrt_floor_exists(qi as nat);
                assert(ri * ri <= 2 * MAX_X_SQ);
                assert(ri <= 28_284_271) by (nonlinear_arith)
                    requires
                        ri >= 0,
                        ri * ri <= 800_000_000_000_000,
                ;
                assert(num / den >= 6_000_000_000_000) by (nonlinear_arith)
                    requires
                        den > 0,
                        num > 6_000_000_000_000 * den,
                ;
                assert((ri + 1) * (ri + 1) <= qj) by (nonlinear_arith)
                    requires
                        0 <= ri <= 28_284_271,
                        ri * ri <= qi,
                        qi + (j - i) * (num / den) <= qj,
                        j - i >= 1,
                        num / den >= 6_000_000_000_000,
                ;
                lemma_sqrt_floor_reaches(qj as nat, (ri + 1) as nat);
            }
        }
    }
}

/// Generates the radii of the Fresnel zones in ascending order.
///
/// Zone after zone is added until one reaches the edge of a circular aperture
/// (its radius is then cut to `x_otv`), or lies beyond `MAX_X * sqrt(2)`, or
/// has the largest number that the cap allows. Where a distance or the
/// wavelength is zero, or `b` is so small that the cap exceeds `CAP_MAX`,
/// there are no zones, and the result is empty.
pub fn fresnel_zones(l1: u32, l2: u32, lambda: u32, x_otv: i32, is_circle: bool) -> (zones: Vec<i64>)
    ensures
        are_zones(l1 as int, l2 as int, lambda as int, x_otv as int, is_circle, zones@),
{
    proof {
        lemma_b_num_bound(l1, l2, lambda);
    }
    if l1 == 0 || l2 == 0 || lambda == 0 {
        return Vec::new();
    }
    let num: u128 = lambda as u128 * l1 as u128 * l2 as u128;
    let den: u128 = l1 as u128 + l2 as u128;
    let extent: u128 = 2 * (MAX_X_SQ as u128) * den;
    let cap: u128 = 2 * ((extent + num) / (2 * num));
    if cap > CAP_MAX as u128 {
        return Vec::new();
    }
    let side: u128 = if x_otv > 0 {
        x_otv as u128
    } else {
        0
    };
    assert(side * side <= 0x7fff_ffff * 0x7fff_ffff && side * side * den <= 0x7fff_ffff
        * 0x7fff_ffff * 0x2_0000_0000) by (nonlinear_arith)
        requires
            0 <= side <= 0x7fff_ffff,
            0 <= den <= 0x2_0000_0000,
    ;
    let aperture: u128 = side * side * den;
    assert(cap * num <= extent + num) by (nonlinear_arith)
        requires
            num > 0,
            cap == 2 * ((extent + num) / (2 * num)),
    ;
    let mut zones: Vec<i64> = Vec::new();
    let mut n: u128 = 0;
    loop
        invariant_except_break
            n <= cap,
            zones@.len() == n,
            forall|m: int|
                0 <= m < n ==> #[trigger] zones@[m] == spec_radius(
                    l1 as int,
                    l2 as int,
                    lambda as int,
                    m,
                ) && !zone_stops(l1 as int, l2 as int, lambda as int, x_otv as int, is_circle, m),
        invariant
            l1 > 0,
            l2 > 0,
            lambda > 0,
            num == spec_b_num(l1 as int, l2 as int, lambda as int),
            den == spec_b_den(l1 as int, l2 as int),
            0 < num <= 0xffff_ffff_0000_0000_0000_0000,
            0 < den <= 0x2_0000_0000,
            extent == 2 * MAX_X_SQ * den,
            extent <= 800_000_000_000_000 * 0x2_0000_0000,
            cap == spec_zone_cap(l1 as int, l2 as int, lambda as int),
            cap * num <= extent + num,
            side == (if x_otv > 0 { x_otv as int } else { 0 }),
            aperture == side * side * den,
        ensures
            is_zone_sequence(l1 as int, l2 as int, lambda as int, x_otv as int, is_circle, zones@),
        decreases cap - n,
    {
        assert(n * num <= cap * num) by (nonlinear_arith)
            requires
                0 <= n <= cap,
                num > 0,
        ;
        let area: u128 = n * num;
        let radius: u64 = isqrt(area / den);
        proof {
            let q: nat = (area / den) as nat;
            assert(q <= area) by (nonlinear_arith)
                requires
                    q == area / den,
                    den > 0,
                    area >= 0,
            ;
            lemma_sqrt_floor_reaches(q, 0x2_0000_0000_0000);
            assert(0x2_0000_0000_0000nat * 0x2_0000_0000_0000nat
                == 0x4_0000_0000_0000_0000_0000_0000) by (nonlinear_arith);
            if x_otv > 0 {
                assert(side * side == x_otv * x_otv) by (nonlinear_arith)
                    requires
                        side == x_otv,
                ;
            }
        }
        let reaches: bool = is_circle && (x_otv <= 0 || area >= aperture);
        let beyond: bool = area > extent;
        let ghost before: Seq<i64> = zones@;
        if reaches {
            zones.push(x_otv as i64);
        } else {
            zones.push(radius as i64);
        }
        if reaches || beyond || n == cap {
            proof {
                assert forall|m: int| 0 <= m < n implies #[trigger] zones@[m] == spec_radius(
                    l1 as int,
                    l2 as int,
                    lambda as int,
                    m,
                ) && !zone_stops(l1 as int, l2 as int, lambda as int, x_otv as int, is_circle, m) by {
                    assert(zones@[m] == before[m]);
                }
            }
            break ;
        }
        proof {
            assert forall|m: int| 0 <= m < n + 1 implies #[trigger] zones@[m] == spec_radius(
                l1 as int,
                l2 as int,
                lambda as int,
                m,
            ) && !zone_stops(l1 as int, l2 as int, lambda as int, x_otv as int, is_circle, m) by {
                if m < n {
                    assert(zones@[m] == before[m]);
                }
            }
        }
        n = n + 1;
    }
    zones
}

} // verus!

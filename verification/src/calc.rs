//! Wavelength and frequency, and the sample type of a diffraction curve.
use vstd::prelude::*;

verus! {

/// The speed of light as the product of a wavelength and its frequency, both
/// in the wave scale: 29.9792458 cm GHz.
pub const SPEED_OF_LIGHT: u128 = 29_979_245_800_000_000_000_000_000;

/// The reciprocal conversion between gigahertz and centimetres: the integer
/// part of `SPEED_OF_LIGHT / x`, or the largest value of the type where that
/// is larger still or `x` is zero.
pub open spec fn spec_converter_freq(x: int) -> int {
    if x <= 0 || SPEED_OF_LIGHT as int / x > u64::MAX as int {
        u64::MAX as int
    } else {
        SPEED_OF_LIGHT as int / x
    }
}

/// Converts a frequency to its wavelength and a wavelength to its frequency.
///
/// Where the quotient does not fit the type, for zero above all, the largest
/// value of the type comes back.
pub fn converter_freq(freq: u64) -> (r: u64)
    ensures
        r == spec_converter_freq(freq as int),
{
    if freq == 0 {
        return u64::MAX;
    }
    let q: u128 = SPEED_OF_LIGHT / (freq as u128);
    if q > u64::MAX as u128 {
        u64::MAX
    } else {
        q as u64
    }
}

/// The plain quotient `q` of the conversion is the one integer with
/// `q * x <= SPEED_OF_LIGHT < (q + 1) * x`, and it is at least a million for
/// every `x` of the type.
pub proof fn lemma_quotient_bounds(x: int)
    requires
        0 < x <= u64::MAX,
    ensures
        1_000_000 <= SPEED_OF_LIGHT as int / x <= SPEED_OF_LIGHT,
        (SPEED_OF_LIGHT as int / x) * x <= SPEED_OF_LIGHT as int,
        (SPEED_OF_LIGHT as int) < (SPEED_OF_LIGHT as int / x + 1) * x,
{
    let c: int = SPEED_OF_LIGHT as int;
    let q: int = c / x;
    assert(1_000_000 <= q <= c && q * x <= c && c < (q + 1) * x) by (nonlinear_arith)
        requires
            0 < x <= 0xffff_ffff_ffff_ffff,
            c == 29_979_245_800_000_000_000_000_000,
            q == c / x,
    ;
}

/// Converting a wavelength to a frequency and back loses less than one part
/// in a million.
///
/// For every positive wavelength whose frequency fits the type, the
/// wavelength that comes back is not below the one given and exceeds it by
/// less than a millionth of it.
pub proof fn lemma_converter_round_trip(wavelength: u64)
    requires
        wavelength > 0,
        SPEED_OF_LIGHT as int / wavelength as int <= u64::MAX,
    ensures
        spec_converter_freq(wavelength as int) >= 1_000_000,
        wavelength <= spec_converter_freq(spec_converter_freq(wavelength as int)),
        (spec_converter_freq(spec_converter_freq(wavelength as int)) - wavelength) * 1_000_000
            < wavelength,
{
    let c: int = SPEED_OF_LIGHT as int;
    let w: int = wavelength as int;
    lemma_quotient_bounds(w);
    let f: int = c / w;
    assert(spec_converter_freq(w) == f);
    lemma_quotient_bounds(f);
    let plain: int = c / f;
    let back: int = spec_converter_freq(f);
    assert(w <= plain) by (nonlinear_arith)
        requires
            f > 0,
            f * w <= c,
            c < (plain + 1) * f,
    ;
    assert((plain - w) * f < w) by (nonlinear_arith)
        requires
            plain * f <= c,
            c < (f + 1) * w,
    ;
    assert(w <= back <= plain);
    assert((back - w) * 1_000_000 < w) by (nonlinear_arith)
        requires
            w <= back <= plain,
            (plain - w) * f < w,
            f >= 1_000_000,
    ;
}

/// One sample of a diffraction curve: the Fresnel parameter `u`, the
/// normalised amplitude there and the phase there.
#[derive(Debug, Clone, Copy, PartialEq, Eq)]
pub struct DifrPoint {
    pub u: i64,
    pub abs: i64,
    pub phi: i64,
}

impl DifrPoint {
    pub fn new(u: i64, abs: i64, phi: i64) -> (r: Self)
        ensures
            r == (DifrPoint { u, abs, phi }),
    {
        Self { u, abs, phi }
    }

    /// The point of the phase curve: `[u, phase]`.
    pub fn p_arg(&self) -> (r: [i64; 2])
        ensures
            r@ == seq![self.u, self.phi],
    {
        let r: [i64; 2] = [self.u, self.phi];
        assert(r@ =~= seq![self.u, self.phi]);
        r
    }

    /// The point of the amplitude curve: `[u, amplitude]`.
    pub fn p_norm(&self) -> (r: [i64; 2])
        ensures
            r@ == seq![self.u, self.abs],
    {
        let r: [i64; 2] = [self.u, self.abs];
        assert(r@ =~= seq![self.u, self.abs]);
        r
    }
}

} // verus!

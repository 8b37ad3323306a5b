//! The diffraction model: live and committed parameters, the curves derived
//! from the committed ones, and the measured points laid over them.
//!
//! Whoever edits the model writes the live parameters. `settle` then either
//! commits them and derives the curves anew, or, where that would cost too
//! much, puts the committed values back in their place. Everything derived
//! (the scale factor, the curves, the zone radii, the marker of the current
//! position) is derived from the committed parameters alone.
use vstd::prelude::*;
use crate::calc::{
    converter_freq, lemma_quotient_bounds, spec_converter_freq, DifrPoint, SPEED_OF_LIGHT,
};
use crate::curve::{
    build_profile, build_spiral, is_angle_function, is_angle_total, is_fresnel_at, is_function,
    is_profile, is_spiral, is_total, lemma_curves_ascend, lemma_profile_unique,
    lemma_spiral_unique, GRID_POINTS,
};
use crate::dataset::{spec_normalized_points, ExperimentalDataSet};
use crate::optics::{
    affordable, lemma_affordable_positive, lemma_k_bounds, norm, normalized, phasor,
    scale_factor, spec_affordable, spec_b_den, spec_b_num, spec_im, spec_k, spec_norm, spec_re,
    spec_u, zone_step, K_MAX, K_MIN, U_MAX,
};
use crate::zones::{are_zones, fresnel_zones};

verus! {

/// Half the width of the modelled screen plane: 20 cm.
pub const MAX_X: i32 = 20_000_000;

/// How many screens obstruct the wave.
#[derive(PartialEq, Eq, Structural, Copy, Clone, Debug)]
pub enum Screens {
    /// One straight edge.
    One,
    /// Two edges that form a slit, symmetric about the axis.
    Two,
}

/// How many units of the wave scale make one length unit.
pub const WAVE_PER_LENGTH: u64 = 1_000_000;

/// The frequency, in the wave scale, of a wavelength in length units.
pub open spec fn spec_frequency_of(lambda: int) -> int {
    spec_converter_freq(lambda * WAVE_PER_LENGTH as int)
}

/// The wavelength in length units, rounded down, of a frequency in the wave
/// scale; a wavelength beyond the type is its largest value.
pub open spec fn spec_wavelength_of(freq: int) -> int {
    if spec_converter_freq(freq) / WAVE_PER_LENGTH as int > u32::MAX as int {
        u32::MAX as int
    } else {
        spec_converter_freq(freq) / WAVE_PER_LENGTH as int
    }
}

/// Computes the frequency of a wavelength.
pub fn frequency_of(lambda: u32) -> (r: u64)
    ensures
        r == spec_frequency_of(lambda as int),
{
    converter_freq(lambda as u64 * WAVE_PER_LENGTH)
}

/// Computes the wavelength of a frequency.
pub fn wavelength_of(freq: u64) -> (r: u32)
    ensures
        r == spec_wavelength_of(freq as int),
{
    let lambda: u64 = converter_freq(freq) / WAVE_PER_LENGTH;
    if lambda > u32::MAX as u64 {
        u32::MAX
    } else {
        lambda as u32
    }
}

/// A wavelength comes back from its frequency as it went: for every positive
/// wavelength of the type, the wavelength of its frequency is the very same.
pub proof fn lemma_wavelength_comes_back(lambda: u32)
    requires
        lambda > 0,
    ensures
        spec_wavelength_of(spec_frequency_of(lambda as int)) == lambda,
{
    let c: int = SPEED_OF_LIGHT as int;
    let top: int = u64::MAX as int;
    let w: int = lambda as int * 1_000_000;
    lemma_quotient_bounds(w);
    if lambda == 1 {
        assert(c / w > top) by (nonlinear_arith)
            requires
                c == 29_979_245_800_000_000_000_000_000,
                w == 1_000_000,
                top == 0xffff_ffff_ffff_ffff,
        ;
        lemma_quotient_bounds(top);
        assert(c / top == 1_625_178) by (nonlinear_arith)
            requires
                c == 29_979_245_800_000_000_000_000_000,
                top == 0xffff_ffff_ffff_ffff,
        ;
    } else {
        let f: int = c / w;
        assert(6_000_000_000 <= f <= top) by (nonlinear_arith)
            requires
                c == 29_979_245_800_000_000_000_000_000,
                top == 0xffff_ffff_ffff_ffff,
                2_000_000 <= w <= 4_294_967_295_000_000,
                f * w <= c,
                c < (f + 1) * w,
        ;
        lemma_quotient_bounds(f);
        let plain: int = c / f;
        assert(w <= plain < w + 1_000_000) by (nonlinear_arith)
            requires
                f >= 6_000_000_000,
                0 < w <= 4_294_967_295_000_000,
                f * w <= c,
                c < (f + 1) * w,
                plain * f <= c,
                c < (plain + 1) * f,
        ;
        assert(plain / 1_000_000 == lambda) by (nonlinear_arith)
            requires
                w == lambda * 1_000_000,
                w <= plain < w + 1_000_000,
        ;
    }
}

/// The physical parameters: the distance from the axis to the edge of the
/// screen, the distances from the source to the screen and from the screen to
/// the observation plane, and the wavelength, all in length units, with the
/// frequency that belongs to the wavelength, in the wave scale.
#[derive(PartialEq, Eq, Structural, Copy, Clone, Debug)]
pub struct Snapshot {
    pub x_otv: i32,
    pub l1: u32,
    pub l2: u32,
    pub lambda: u32,
    pub freq: u64,
}

impl Snapshot {
    /// Whether both hold the same four parameters that decide the curves:
    /// the edge of the screen, the two distances and the wavelength.
    pub open spec fn agrees_with(self, other: Snapshot) -> bool {
        &&& self.x_otv == other.x_otv
        &&& self.l1 == other.l1
        &&& self.l2 == other.l2
        &&& self.lambda == other.lambda
    }

    /// Whether wavelength and frequency belong together: one of them is what
    /// the reciprocal conversion makes of the other.
    pub open spec fn wave_consistent(self) -> bool {
        ||| self.freq == spec_frequency_of(self.lambda as int)
        ||| self.lambda == spec_wavelength_of(self.freq as int)
    }
}

/// One value for each arrangement of screens.
pub struct PerScreens<T> {
    pub one: T,
    pub two: T,
}

impl<T> PerScreens<T> {
    /// The value that belongs to the given screens.
    pub open spec fn at(self, rezhim: Screens) -> T {
        match rezhim {
            Screens::One => self.one,
            Screens::Two => self.two,
        }
    }

    /// The same values but for the given screens, to which `value` belongs.
    pub open spec fn replaced(self, rezhim: Screens, value: T) -> Self {
        match rezhim {
            Screens::One => PerScreens { one: value, ..self },
            Screens::Two => PerScreens { two: value, ..self },
        }
    }

    /// The value that belongs to the given screens.
    pub fn get(&self, rezhim: Screens) -> (r: &T)
        ensures
            *r == self.at(rezhim),
    {
        match rezhim {
            Screens::One => &self.one,
            Screens::Two => &self.two,
        }
    }

    /// The value that belongs to the given screens, to be read and written in
    /// place.
    pub fn get_mut(&mut self, rezhim: Screens) -> (r: &mut T)
        ensures
            *r == old(self).at(rezhim),
            *final(self) == old(self).replaced(rezhim, *final(r)),
    {
        match rezhim {
            Screens::One => &mut self.one,
            Screens::Two => &mut self.two,
        }
    }
}

/// How the live parameters stand to the committed ones.
#[derive(PartialEq, Eq, Structural, Copy, Clone, Debug)]
pub enum EditState {
    /// The live parameters agree with the committed ones.
    Clean,
    /// The live parameters differ from the committed ones and are affordable.
    DirtyCheap,
    /// The live parameters differ from the committed ones and are not
    /// affordable.
    DirtyExpensive,
}

/// The diffraction model.
pub struct Difr {
    live: Snapshot,
    committed: Snapshot,
    rezhim: Screens,
    difs: Vec<DifrPoint>,
    difs_3d: Vec<(i64, i64, i64)>,
    student_points: PerScreens<ExperimentalDataSet>,
}

/// What a model holds.
pub struct DifrView {
    /// The live parameters, as they were last written.
    pub live: Snapshot,
    /// The committed parameters.
    pub committed: Snapshot,
    /// The screens.
    pub rezhim: Screens,
    /// The diffraction profile as it was last built.
    pub curve_1d: Seq<DifrPoint>,
    /// The Cornu spiral as it was last built.
    pub curve_3d: Seq<(i64, i64, i64)>,
    /// The measured points, for each arrangement of screens its own.
    pub data: PerScreens<ExperimentalDataSet>,
}

impl DifrView {
    /// The measured points that belong to the screens of the model.
    pub open spec fn points(self) -> ExperimentalDataSet {
        self.data.at(self.rezhim)
    }

    /// The same model with other measured points for its screens.
    pub open spec fn with_points(self, points: ExperimentalDataSet) -> DifrView {
        DifrView { data: self.data.replaced(self.rezhim, points), ..self }
    }

    /// Whether the committed distances and wavelength are positive, as they
    /// are once any affordable parameters were committed.
    pub open spec fn has_committed(self) -> bool {
        self.committed.l1 > 0 && self.committed.l2 > 0 && self.committed.lambda > 0
    }

    /// The scale factor of the committed parameters.
    pub open spec fn k(self) -> int {
        spec_k(self.committed.l1 as int, self.committed.l2 as int, self.committed.lambda as int)
    }

    /// The Fresnel parameter of the committed edge of the screen.
    pub open spec fn cur_u(self) -> int {
        spec_u(self.committed.x_otv as int, self.k())
    }

    /// How the live parameters stand to the committed ones.
    pub open spec fn state(self) -> EditState {
        if self.live.agrees_with(self.committed) {
            EditState::Clean
        } else if spec_affordable(
            self.live.l1 as int,
            self.live.l2 as int,
            self.live.lambda as int,
        ) {
            EditState::DirtyCheap
        } else {
            EditState::DirtyExpensive
        }
    }

    /// Whether both curves are those of the committed parameters and of the
    /// screens.
    pub open spec fn curves_current<F: Fn(i64) -> (i32, i32), G: Fn(i64, i64) -> i64>(
        self,
        fresnel: &F,
        angle: &G,
    ) -> bool {
        &&& is_spiral(fresnel, self.k(), self.curve_3d)
        &&& is_profile(fresnel, angle, self.rezhim, self.k(), self.curve_1d)
    }

    /// The same model with other curves.
    pub open spec fn with_curves(
        self,
        curve_1d: Seq<DifrPoint>,
        curve_3d: Seq<(i64, i64, i64)>,
    ) -> DifrView {
        DifrView { curve_1d, curve_3d, ..self }
    }

    /// Whether both data sets keep to the rule of their type.
    pub open spec fn wf(self) -> bool {
        self.data.one.wf() && self.data.two.wf()
    }
}

impl View for Difr {
    type V = DifrView;

    closed spec fn view(&self) -> DifrView {
        DifrView {
            live: self.live,
            committed: self.committed,
            rezhim: self.rezhim,
            curve_1d: self.difs@,
            curve_3d: self.difs_3d@,
            data: self.student_points,
        }
    }
}

impl Difr {
    /// The live parameters.
    pub fn live(&self) -> (r: Snapshot)
        ensures
            r == self@.live,
    {
        self.live
    }

    /// The committed parameters.
    pub fn committed(&self) -> (r: Snapshot)
        ensures
            r == self@.committed,
    {
        self.committed
    }

    /// The frequency that belongs to the live wavelength.
    pub fn freq(&self) -> (r: u64)
        ensures
            r == self@.live.freq,
    {
        self.live.freq
    }

    /// The screens.
    pub fn rezhim(&self) -> (r: Screens)
        ensures
            r == self@.rezhim,
    {
        self.rezhim
    }

    /// The diffraction profile as it was last built.
    pub fn difs(&self) -> (r: &Vec<DifrPoint>)
        ensures
            r@ == self@.curve_1d,
    {
        &self.difs
    }

    /// The Cornu spiral as it was last built.
    pub fn difs_3d(&self) -> (r: &Vec<(i64, i64, i64)>)
        ensures
            r@ == self@.curve_3d,
    {
        &self.difs_3d
    }

    /// Writes the live distance from the axis to the edge of the screen.
    pub fn set_x_otv(&mut self, x_otv: i32)
        ensures
            final(self)@ == (DifrView {
                live: Snapshot { x_otv, ..old(self)@.live },
                ..old(self)@
            }),
    {
        self.live.x_otv = x_otv;
    }

    /// Writes the live distance from the source to the screen.
    pub fn set_l1(&mut self, l1: u32)
        ensures
            final(self)@ == (DifrView { live: Snapshot { l1, ..old(self)@.live }, ..old(self)@ }),
    {
        self.live.l1 = l1;
    }

    /// Writes the live distance from the screen to the observation plane.
    pub fn set_l2(&mut self, l2: u32)
        ensures
            final(self)@ == (DifrView { live: Snapshot { l2, ..old(self)@.live }, ..old(self)@ }),
    {
        self.live.l2 = l2;
    }

    /// Writes the live wavelength and derives the frequency from it.
    pub fn set_lambda(&mut self, lambda: u32)
        ensures
            final(self)@ == (DifrView {
                live: Snapshot {
                    lambda,
                    freq: spec_frequency_of(lambda as int) as u64,
                    ..old(self)@.live
                },
                ..old(self)@
            }),
            final(self)@.live.freq == spec_frequency_of(lambda as int),
            final(self)@.live.wave_consistent(),
    {
        self.live.lambda = lambda;
        self.live.freq = frequency_of(lambda);
    }

    /// Writes the frequency and derives the live wavelength from it.
    pub fn set_freq(&mut self, freq: u64)
        ensures
            final(self)@ == (DifrView {
                live: Snapshot {
                    lambda: spec_wavelength_of(freq as int) as u32,
                    freq,
                    ..old(self)@.live
                },
                ..old(self)@
            }),
            final(self)@.live.lambda == spec_wavelength_of(freq as int),
            final(self)@.live.wave_consistent(),
    {
        self.live.freq = freq;
        self.live.lambda = wavelength_of(freq);
    }

    /// Derives the frequency from the live wavelength, or, with `is_freq`,
    /// the live wavelength from the frequency.
    pub fn sync_wave(&mut self, is_freq: bool)
        ensures
            is_freq ==> final(self)@ == (DifrView {
                live: Snapshot {
                    lambda: spec_wavelength_of(old(self)@.live.freq as int) as u32,
                    ..old(self)@.live
                },
                ..old(self)@
            }) && final(self)@.live.lambda == spec_wavelength_of(old(self)@.live.freq as int),
            !is_freq ==> final(self)@ == (DifrView {
                live: Snapshot {
                    freq: spec_frequency_of(old(self)@.live.lambda as int) as u64,
                    ..old(self)@.live
                },
                ..old(self)@
            }) && final(self)@.live.freq == spec_frequency_of(old(self)@.live.lambda as int),
            final(self)@.live.wave_consistent(),
    {
        if is_freq {
            self.live.lambda = wavelength_of(self.live.freq);
        } else {
            self.live.freq = frequency_of(self.live.lambda);
        }
    }

    /// Builds both curves anew from the committed parameters: the spiral over
    /// the whole plane, whatever the screens, and the profile that belongs to
    /// the screens.
    pub fn rebuild_integrals<F: Fn(i64) -> (i32, i32), G: Fn(i64, i64) -> i64>(
        &mut self,
        fresnel: &F,
        angle: &G,
    )
        requires
            is_total(fresnel),
            is_angle_total(angle),
        ensures
            final(self)@.curves_current(fresnel, angle),
            final(self)@ == old(self)@.with_curves(final(self)@.curve_1d, final(self)@.curve_3d),
    {
        let k: i64 = self.k();
        self.difs_3d = build_spiral(k, fresnel);
        self.difs = build_profile(self.rezhim, k, fresnel, angle);
    }

    /// The position at which the profile starts.
    pub fn get_start(&self) -> (r: i32)
        ensures
            r == (match self@.rezhim {
                Screens::One => -MAX_X,
                Screens::Two => 0,
            }),
    {
        match self.rezhim {
            Screens::One => -MAX_X,
            Screens::Two => 0,
        }
    }

    /// The radii of the Fresnel zones of the committed parameters, in
    /// ascending order. With `is_circle` the aperture is a circle of radius
    /// `x_otv`, at whose edge the zones end. Committed parameters that have no
    /// zones, a zero distance or wavelength above all, give an empty result.
    pub fn get_fresnel_zones(&self, is_circle: bool) -> (zones: Vec<i64>)
        ensures
            are_zones(
                self@.committed.l1 as int,
                self@.committed.l2 as int,
                self@.committed.lambda as int,
                self@.committed.x_otv as int,
                is_circle,
                zones@,
            ),
    {
        fresnel_zones(
            self.committed.l1,
            self.committed.l2,
            self.committed.lambda,
            self.committed.x_otv,
            is_circle,
        )
    }

    /// Whether the edge of the screen, a distance or the wavelength differs
    /// from its committed value.
    pub fn is_cheng(&self) -> (r: bool)
        ensures
            r == !self@.live.agrees_with(self@.committed),
    {
        self.live.x_otv != self.committed.x_otv || self.live.l1 != self.committed.l1
            || self.live.l2 != self.committed.l2 || self.live.lambda != self.committed.lambda
    }

    /// Whether the live parameters are affordable: whether their `b` exceeds
    /// 6 cm².
    pub fn not_sale_cpu_usage(&self) -> (r: bool)
        ensures
            r == spec_affordable(
                self@.live.l1 as int,
                self@.live.l2 as int,
                self@.live.lambda as int,
            ),
            r ==> self@.live.l1 > 0 && self@.live.l2 > 0 && self@.live.lambda > 0,
    {
        affordable(self.live.l1, self.live.l2, self.live.lambda)
    }

    /// Commits the live parameters.
    pub fn cheng_copes(&mut self)
        ensures
            final(self)@ == (DifrView { committed: old(self)@.live, ..old(self)@ }),
    {
        self.committed = self.live;
    }

    /// Puts the committed parameters back in the place of the live ones.
    pub fn backup_copes(&mut self)
        ensures
            final(self)@ == (DifrView { live: old(self)@.committed, ..old(self)@ }),
    {
        self.live = self.committed;
    }

    /// How the live parameters stand to the committed ones.
    pub fn state(&self) -> (r: EditState)
        ensures
            r == self@.state(),
    {
        if !self.is_cheng() {
            EditState::Clean
        } else if self.not_sale_cpu_usage() {
            EditState::DirtyCheap
        } else {
            EditState::DirtyExpensive
        }
    }

    /// Settles a pending edit and tells in which state it found the model.
    ///
    /// Affordable live parameters are committed and both curves are built
    /// anew from them. Live parameters that are not affordable are given up:
    /// the committed values take their place, and the curves stay. A clean
    /// model stays as it is.
    pub fn settle<F: Fn(i64) -> (i32, i32), G: Fn(i64, i64) -> i64>(
        &mut self,
        fresnel: &F,
        angle: &G,
    ) -> (found: EditState)
        requires
            is_total(fresnel),
            is_angle_total(angle),
        ensures
            found == old(self)@.state(),
            final(self)@.state() == EditState::Clean,
            found == EditState::Clean ==> final(self)@ == old(self)@,
            found == EditState::DirtyCheap ==> final(self)@.has_committed() && final(self)@.curves_current(fresnel, angle) && final(self)@ == (DifrView {
                committed: old(self)@.live,
                ..old(self)@
            }).with_curves(final(self)@.curve_1d, final(self)@.curve_3d),
            found == EditState::DirtyExpensive ==> final(self)@ == (DifrView {
                live: old(self)@.committed,
                ..old(self)@
            }),
    {
        let found: EditState = self.state();
        match found {
            EditState::Clean => {},
            EditState::DirtyCheap => {
                proof {
                    lemma_affordable_positive(self.live.l1, self.live.l2, self.live.lambda);
                }
                self.cheng_copes();
                self.rebuild_integrals(fresnel, angle);
            },
            EditState::DirtyExpensive => {
                self.backup_copes();
            },
        }
        found
    }

    /// Changes from one screen to two or from two to one and builds both
    /// curves anew.
    pub fn switch_screens<F: Fn(i64) -> (i32, i32), G: Fn(i64, i64) -> i64>(
        &mut self,
        fresnel: &F,
        angle: &G,
    )
        requires
            is_total(fresnel),
            is_angle_total(angle),
        ensures
            final(self)@.rezhim == (match old(self)@.rezhim {
                Screens::One => Screens::Two,
                Screens::Two => Screens::One,
            }),
            final(self)@.curves_current(fresnel, angle),
            final(self)@ == (DifrView { rezhim: final(self)@.rezhim, ..old(self)@ }).with_curves(
                final(self)@.curve_1d,
                final(self)@.curve_3d,
            ),
    {
        self.rezhim =
        match self.rezhim {
            Screens::One => Screens::Two,
            Screens::Two => Screens::One,
        };
        self.rebuild_integrals(fresnel, angle);
    }

    /// The zone step `b` of the committed parameters, as a fraction of squared
    /// length units: its numerator and its denominator.
    pub fn b(&self) -> (r: (u128, u64))
        ensures
            r.0 == spec_b_num(
                self@.committed.l1 as int,
                self@.committed.l2 as int,
                self@.committed.lambda as int,
            ),
            r.1 == spec_b_den(self@.committed.l1 as int, self@.committed.l2 as int),
            self@.has_committed() ==> r.0 > 0 && r.1 > 0,
    {
        zone_step(self.committed.l1, self.committed.l2, self.committed.lambda)
    }

    /// The scale factor `k` of the committed parameters; zero where a committed
    /// distance or the wavelength is zero.
    pub fn k(&self) -> (r: i64)
        ensures
            r == self@.k(),
            0 <= r <= K_MAX,
            self@.has_committed() ==> r >= K_MIN,
    {
        scale_factor(self.committed.l1, self.committed.l2, self.committed.lambda)
    }

    /// The Fresnel parameter of the committed edge of the screen.
    pub fn cur_u(&self) -> (r: i64)
        ensures
            r == self@.cur_u(),
            -U_MAX <= r <= U_MAX,
    {
        normalized(self.committed.x_otv, self.k())
    }

    /// The point of the spiral at the committed edge of the screen:
    /// `(u, C(u), S(u))`.
    pub fn get_current_point_3d<F: Fn(i64) -> (i32, i32)>(&self, fresnel: &F) -> (r: (
        i64,
        i64,
        i64,
    ))
        requires
            is_total(fresnel),
        ensures
            r.0 == self@.cur_u(),
            is_fresnel_at(fresnel, r.0, r.1, r.2),
    {
        let u: i64 = self.cur_u();
        let (c, s) = fresnel(u);
        (u, c as i64, s as i64)
    }

    /// The point of the spiral at the committed edge of the screen and the
    /// point opposite to it: `(u, C(u), S(u))` and `(-u, -C(u), -S(u))`.
    pub fn get_current_points_3d<F: Fn(i64) -> (i32, i32)>(&self, fresnel: &F) -> (r: (
        (i64, i64, i64),
        (i64, i64, i64),
    ))
        requires
            is_total(fresnel),
        ensures
            r.0.0 == self@.cur_u(),
            is_fresnel_at(fresnel, r.0.0, r.0.1, r.0.2),
            r.1.0 == -r.0.0,
            r.1.1 == -r.0.1,
            r.1.2 == -r.0.2,
    {
        let u: i64 = self.cur_u();
        let (c, s) = fresnel(u);
        ((u, c as i64, s as i64), (-u, -(c as i64), -(s as i64)))
    }

    /// The point of the amplitude curve at the committed edge of the screen.
    pub fn get_current_point_norm<F: Fn(i64) -> (i32, i32)>(&self, fresnel: &F) -> (r: [i64; 2])
        requires
            is_total(fresnel),
        ensures
            r@.len() == 2,
            r@[0] == self@.cur_u(),
            exists|c: i32, s: i32| #[trigger]
                call_ensures(*fresnel, (r@[0],), (c, s)) && r@[1] == spec_norm(
                    self@.rezhim,
                    c as int,
                    s as int,
                ),
    {
        let u: i64 = self.cur_u();
        self.get_point_norm(u, fresnel)
    }

    /// The point of the amplitude curve at `u`: `[u, amplitude]` behind the
    /// screens of the model.
    pub fn get_point_norm<F: Fn(i64) -> (i32, i32)>(&self, u: i64, fresnel: &F) -> (r: [i64; 2])
        requires
            is_total(fresnel),
        ensures
            r@.len() == 2,
            r@[0] == u,
            exists|c: i32, s: i32| #[trigger]
                call_ensures(*fresnel, (u,), (c, s)) && r@[1] == spec_norm(
                    self@.rezhim,
                    c as int,
                    s as int,
                ),
    {
        let (c, s) = fresnel(u);
        let r: [i64; 2] = [u, norm(self.rezhim, c, s)];
        r
    }

    /// The point of the phase curve at the committed edge of the screen.
    pub fn get_current_point_arg<F: Fn(i64) -> (i32, i32), G: Fn(i64, i64) -> i64>(
        &self,
        fresnel: &F,
        angle: &G,
    ) -> (r: [i64; 2])
        requires
            is_total(fresnel),
            is_angle_total(angle),
        ensures
            r@.len() == 2,
            r@[0] == self@.cur_u(),
            exists|c: i32, s: i32| #[trigger]
                call_ensures(*fresnel, (r@[0],), (c, s)) && call_ensures(
                    *angle,
                    (
                        spec_im(self@.rezhim, s as int) as i64,
                        spec_re(self@.rezhim, c as int) as i64,
                    ),
                    r@[1],
                ),
    {
        let u: i64 = self.cur_u();
        self.get_point_arg(u, fresnel, angle)
    }

    /// The point of the phase curve at `u`: `[u, phase]` behind the screens of
    /// the model.
    pub fn get_point_arg<F: Fn(i64) -> (i32, i32), G: Fn(i64, i64) -> i64>(
        &self,
        u: i64,
        fresnel: &F,
        angle: &G,
    ) -> (r: [i64; 2])
        requires
            is_total(fresnel),
            is_angle_total(angle),
        ensures
            r@.len() == 2,
            r@[0] == u,
            exists|c: i32, s: i32| #[trigger]
                call_ensures(*fresnel, (u,), (c, s)) && call_ensures(
                    *angle,
                    (
                        spec_im(self@.rezhim, s as int) as i64,
                        spec_re(self@.rezhim, c as int) as i64,
                    ),
                    r@[1],
                ),
    {
        let (c, s) = fresnel(u);
        let (re, im) = phasor(self.rezhim, c, s);
        let r: [i64; 2] = [u, angle(im, re)];
        r
    }

    /// The measured points that belong to the screens of the model, laid over
    /// the amplitude curve: for every point but the sentinel, in their order,
    /// the Fresnel parameter of its position and the quotient of its current
    /// and the reference current. Without a reference current the result is
    /// empty.
    pub fn get_student_curve(&self) -> (r: Vec<(i64, i64)>)
        ensures
            r@ == spec_normalized_points(
                self@.points()@,
                self@.points().reference() as int,
                self@.k(),
            ),
    {
        let k: i64 = self.k();
        self.student_points().normalized_points(k)
    }

    /// The measured points that belong to the screens of the model, to be
    /// read and written in place.
    pub fn get_student_points(&mut self) -> (r: &mut ExperimentalDataSet)
        ensures
            *r == old(self)@.points(),
            final(self)@ == old(self)@.with_points(*final(r)),
    {
        self.student_points.get_mut(self.rezhim)
    }

    /// The measured points that belong to the screens of the model.
    pub fn student_points(&self) -> (r: &ExperimentalDataSet)
        ensures
            *r == self@.points(),
    {
        self.student_points.get(self.rezhim)
    }

    /// The current measured with no screen, for the screens of the model, to
    /// be read and written in place.
    pub fn get_max_i(&mut self) -> (r: &mut i32)
        ensures
            *r == old(self)@.points().reference(),
            final(self)@.points().reference() == *final(r),
            final(self)@.points()@ == old(self)@.points()@,
            final(self)@ == old(self)@.with_points(final(self)@.points()),
    {
        self.student_points.get_mut(self.rezhim).reference_current_mut()
    }
}

impl Default for Difr {
    /// A model with the edge of one screen 10 cm off the axis, both distances
    /// 40 cm and the wavelength 3 cm, with nothing committed, no curve built
    /// and no point measured.
    fn default() -> (r: Self)
        ensures
            r@.live == (Snapshot {
                x_otv: 10_000_000,
                l1: 40_000_000,
                l2: 40_000_000,
                lambda: 3_000_000,
                freq: spec_frequency_of(3_000_000) as u64,
            }),
            r@.live.wave_consistent(),
            r@.rezhim == Screens::One,
            r@.committed == (Snapshot { x_otv: 0, l1: 0, l2: 0, lambda: 0, freq: 0 }),
            r@.curve_1d == Seq::<DifrPoint>::empty(),
            r@.curve_3d == Seq::<(i64, i64, i64)>::empty(),
            r@.data.one@ == Seq::<(i32, i32)>::empty(),
            r@.data.two@ == Seq::<(i32, i32)>::empty(),
            r@.data.one.reference() == 0,
            r@.data.two.reference() == 0,
            r@.wf(),
    {
        let lambda: u32 = 3_000_000;
        Difr {
            live: Snapshot {
                x_otv: 10_000_000,
                l1: 40_000_000,
                l2: 40_000_000,
                lambda,
                freq: frequency_of(lambda),
            },
            committed: Snapshot { x_otv: 0, l1: 0, l2: 0, lambda: 0, freq: 0 },
            rezhim: Screens::One,
            difs: Vec::new(),
            difs_3d: Vec::new(),
            student_points: PerScreens {
                one: ExperimentalDataSet::new(),
                two: ExperimentalDataSet::new(),
            },
        }
    }
}

/// The spiral does not depend on the screens: two models with the same
/// committed distances and wavelength, whose curves are current for the same
/// function `fresnel`, hold the same spiral, whatever their screens.
pub proof fn lemma_curve_3d_ignores_screens<F: Fn(i64) -> (i32, i32), G: Fn(i64, i64) -> i64>(
    a: DifrView,
    b: DifrView,
    fresnel: &F,
    angle: &G,
)
    requires
        is_function(fresnel),
        a.curves_current(fresnel, angle),
        b.curves_current(fresnel, angle),
        a.committed.l1 == b.committed.l1,
        a.committed.l2 == b.committed.l2,
        a.committed.lambda == b.committed.lambda,
    ensures
        a.curve_3d == b.curve_3d,
{
    lemma_spiral_unique(fresnel, a.k(), a.curve_3d, b.curve_3d);
}

/// Building the curves again changes nothing: two models with the same
/// committed distances and wavelength and the same screens, whose curves are
/// current for the same functions `fresnel` and `angle`, hold the same curves.
pub proof fn lemma_rebuild_idempotent<F: Fn(i64) -> (i32, i32), G: Fn(i64, i64) -> i64>(
    a: DifrView,
    b: DifrView,
    fresnel: &F,
    angle: &G,
)
    requires
        is_function(fresnel),
        is_angle_function(angle),
        a.curves_current(fresnel, angle),
        b.curves_current(fresnel, angle),
        a.committed.l1 == b.committed.l1,
        a.committed.l2 == b.committed.l2,
        a.committed.lambda == b.committed.lambda,
        a.rezhim == b.rezhim,
    ensures
        a.curve_1d == b.curve_1d,
        a.curve_3d == b.curve_3d,
{
    lemma_spiral_unique(fresnel, a.k(), a.curve_3d, b.curve_3d);
    lemma_profile_unique(fresnel, angle, a.rezhim, a.k(), a.curve_1d, b.curve_1d);
}

/// Both curves of a model with positive committed parameters have one sample
/// for each grid position and ascend strictly in the Fresnel parameter: no
/// two samples of a curve share one.
pub proof fn lemma_curves_strictly_ascend<F: Fn(i64) -> (i32, i32), G: Fn(i64, i64) -> i64>(
    a: DifrView,
    fresnel: &F,
    angle: &G,
)
    requires
        a.has_committed(),
        a.curves_current(fresnel, angle),
    ensures
        a.curve_1d.len() == GRID_POINTS,
        a.curve_3d.len() == GRID_POINTS,
        forall|i: int, j: int| 0 <= i < j < GRID_POINTS ==> a.curve_3d[i].0 < a.curve_3d[j].0,
        forall|i: int, j: int| 0 <= i < j < GRID_POINTS ==> a.curve_1d[i].u < a.curve_1d[j].u,
{
    lemma_k_bounds(a.committed.l1, a.committed.l2, a.committed.lambda);
    lemma_curves_ascend(fresnel, angle, a.rezhim, a.k(), a.curve_3d, a.curve_1d);
}

} // verus!

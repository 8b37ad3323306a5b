//! A fixed-point model of Fresnel diffraction at one or two straight screens.
//!
//! The model takes a few physical parameters (where the edge of the screen
//! lies, how far source and observation plane are from it, the wavelength)
//! and derives from them the Cornu spiral, the amplitude and phase of the
//! diffracted wave across the observation plane, and the radii of the Fresnel
//! zones. Edits are committed only where the curves are affordable to build;
//! other edits are taken back. Points measured in an experiment are kept
//! beside the model and laid over its amplitude curve.
//!
//! All quantities are integers: lengths in millionths of a centimetre,
//! frequencies in millionths of a millionth of a gigahertz, the scale factor
//! in millionths of a millionth per centimetre, everything else without a
//! unit in billionths (see [`fixed`]). The Fresnel integrals and the angle of
//! a complex number come from the caller, as functions on such integers (see
//! [`curve`]).
pub mod anchor;
pub mod calc;
pub mod curve;
pub mod dataset;
pub mod difr;
pub mod fixed;
pub mod optics;
pub mod settings;
pub mod zones;

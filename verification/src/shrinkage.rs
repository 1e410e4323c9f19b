//! The guards of the shrinkage coefficient.
//!
//! A shrinkage estimator blends the sample covariance with a scaled identity.
//! How much of the identity goes in is the ratio of two statistics of the
//! sample: the estimation error of the sample covariance (the intensity) over
//! its distance from the target (the dispersion). Two guards stand before the
//! division: the intensity is capped at the dispersion, and an intensity of
//! zero gives a coefficient of zero, whatever the dispersion is. The host
//! computes the statistics and carries out the division; this module applies
//! the guards to the statistics' encodings.

use vstd::prelude::*;
use crate::binary64::{below, is_nan, is_zero, less_than, nan, zero, ZERO};

verus! {

/// The coefficient, as far as it is decided before any division.
#[derive(Clone, Copy, Debug, PartialEq, Eq, Structural)]
pub enum Coefficient {
    /// The coefficient is zero: the estimate is the sample covariance.
    Zero,
    /// The coefficient is the number encoded by `numerator` over the
    /// dispersion.
    Ratio { numerator: u64 },
}

/// The intensity capped at the dispersion: the lesser of the two, and where
/// one of them is not a number, the other.
pub open spec fn capped(intensity: u64, dispersion: u64) -> u64 {
    if nan(intensity) {
        dispersion
    } else if nan(dispersion) {
        intensity
    } else if below(dispersion, intensity) {
        dispersion
    } else {
        intensity
    }
}

/// The coefficient for an intensity and a dispersion: zero where the capped
/// intensity is zero, else the capped intensity over the dispersion.
pub open spec fn guarded(intensity: u64, dispersion: u64) -> Coefficient {
    let numerator = capped(intensity, dispersion);
    if zero(numerator) {
        Coefficient::Zero
    } else {
        Coefficient::Ratio { numerator }
    }
}

/// Applies the two guards to the encodings of the intensity and of the
/// dispersion.
pub fn coefficient(intensity: u64, dispersion: u64) -> (r: Coefficient)
    ensures
        r == guarded(intensity, dispersion),
{
    let numerator: u64 = if is_nan(intensity) {
        dispersion
    } else if is_nan(dispersion) {
        intensity
    } else if less_than(dispersion, intensity) {
        dispersion
    } else {
        intensity
    };
    if is_zero(numerator) {
        Coefficient::Zero
    } else {
        Coefficient::Ratio { numerator }
    }
}

/// Where intensity and dispersion are numbers, the coefficient is zero or a
/// ratio whose numerator is one of the two, a number other than zero and no
/// greater than the dispersion.
pub proof fn lemma_ratio_is_capped(intensity: u64, dispersion: u64)
    requires
        !nan(intensity),
        !nan(dispersion),
    ensures
        match guarded(intensity, dispersion) {
            Coefficient::Zero => zero(intensity) || zero(dispersion),
            Coefficient::Ratio { numerator } => {
                &&& !nan(numerator)
                &&& !zero(numerator)
                &&& !below(dispersion, numerator)
                &&& numerator == intensity || numerator == dispersion
            },
        },
{
}

/// Over a dispersion above zero, an intensity that is a number not below zero
/// gives a coefficient of zero exactly when it is zero itself, and else a
/// ratio whose numerator is above zero and no greater than the dispersion.
pub proof fn lemma_numerator_within_dispersion(intensity: u64, dispersion: u64)
    requires
        !nan(intensity),
        !below(intensity, ZERO),
        below(ZERO, dispersion),
    ensures
        match guarded(intensity, dispersion) {
            Coefficient::Zero => zero(intensity),
            Coefficient::Ratio { numerator } => {
                &&& !zero(intensity)
                &&& below(ZERO, numerator)
                &&& !below(dispersion, numerator)
            },
        },
{
}

} // verus!

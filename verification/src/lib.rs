//! A streaming approximate-quantile digest over exact integer arithmetic.
//!
//! Observations are `i64` values; a bounded array of weighted centroids
//! summarises everything seen so far. Each centroid keeps the exact sum of
//! the observations merged into it, so its mean is an exact rational and
//! every invariant here is proved without rounding error. Quantiles are
//! passed as rationals `qn / qd` and estimates come back as a [`Frac`].

use vstd::prelude::*;

pub mod centroid;
pub mod combine;
pub mod compact;
pub mod digest;
pub mod oracle;
pub mod sorting;

verus! {

/// Largest magnitude an observation may have; keeps every product that the
/// interpolation arithmetic forms inside `i128`.
pub const MAX_ABS_VALUE: i64 = 4294967296;

/// Largest number of observations a digest accepts, for the same reason.
pub const MAX_TOTAL_WEIGHT: u64 = 1048576;

/// Largest accepted compression parameter.
pub const MAX_COMPRESSION: u64 = 1048576;

/// Largest accepted denominator for a quantile argument.
pub const MAX_QUANTILE_DEN: u64 = 1048576;

/// Numerator of the rational approximation of pi squared that the scale
/// function's bucket condition uses. Any constant close to pi squared gives
/// the same clustering guarantees; a rational one keeps the condition exact.
pub const PI_SQUARED_NUM: u64 = 987;

/// Denominator of the rational approximation of pi squared.
pub const PI_SQUARED_DEN: u64 = 100;

/// An exact fraction; the result type of a quantile estimate.
/// The denominator is always positive.
pub struct Frac {
    pub num: i128,
    pub den: i128,
}

/// The mathematical value of a [`Frac`], as a pair of unbounded integers.
pub ghost struct FracView {
    pub num: int,
    pub den: int,
}

impl View for Frac {
    type V = FracView;

    open spec fn view(&self) -> FracView {
        FracView { num: self.num as int, den: self.den as int }
    }
}

/// The shared ingestion/query capability: anything that can take a stream of
/// observations and answer quantile queries. Each implementation supplies
/// its own invariant and its own statement of what the two operations
/// guarantee.
pub trait Estimator: Sized {
    /// The estimator's well-formedness invariant.
    spec fn est_wf(&self) -> bool;

    /// Whether one more observation `x` may be ingested.
    spec fn can_add(&self, x: i64) -> bool;

    /// What ingesting `x` guarantees, relating the new state to `pre`.
    spec fn add_post(&self, pre: Self, x: i64) -> bool;

    /// Whether the quantile `qn / qd` may be queried.
    spec fn can_estimate(&self, qn: u64, qd: u64) -> bool;

    /// What a query guarantees, relating result and new state to `pre`.
    spec fn estimate_post(&self, pre: Self, qn: u64, qd: u64, r: Frac) -> bool;

    /// Ingests one observation.
    fn add(&mut self, x: i64)
        requires
            old(self).est_wf(),
            old(self).can_add(x),
        ensures
            final(self).est_wf(),
            final(self).add_post(*old(self), x),
    ;

    /// Estimates the value at quantile `qn / qd`; may flush internal state
    /// first so the answer reflects everything ingested.
    fn estimate(&mut self, qn: u64, qd: u64) -> (r: Frac)
        requires
            old(self).est_wf(),
            old(self).can_estimate(qn, qd),
        ensures
            final(self).est_wf(),
            final(self).estimate_post(*old(self), qn, qd, r),
    ;
}

} // verus!

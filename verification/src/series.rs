use crate::error::ChartError;
use vstd::prelude::*;

verus! {

/// One data sample. `x` is a non-negative integer coordinate; `y` carries a
/// real value in fixed-point thousandths (the host converts on the way in).
#[derive(Clone, Copy, Debug, PartialEq, Eq, Structural)]
pub struct Sample {
    /// Horizontal data coordinate.
    pub x: u64,
    /// Vertical data value, in thousandths of a unit.
    pub y: u64,
}

/// The data-space rectangle mapped onto the plot area. Anchored at the
/// origin; the maxima come from the series' last sample, so the axes stay
/// put while the revealed line grows.
#[derive(Clone, Copy, Debug, PartialEq, Eq, Structural)]
pub struct AxisBounds {
    /// Left edge of the data range (always zero).
    pub x_min: u64,
    /// Right edge of the data range: the last sample's `x`.
    pub x_max: u64,
    /// Bottom edge of the data range (always zero).
    pub y_min: u64,
    /// Top edge of the data range: the last sample's `y`, in thousandths.
    pub y_max: u64,
}

/// The axis bounds a well-formed series caches: origin-anchored, maxima
/// taken from the last sample.
pub open spec fn spec_bounds(samples: Seq<Sample>) -> AxisBounds
    recommends
        samples.len() >= 1,
{
    AxisBounds { x_min: 0, x_max: samples.last().x, y_min: 0, y_max: samples.last().y }
}

/// The full, immutable sample sequence for one animation run, together with
/// its cached axis bounds. The caller provides the samples ordered by
/// non-decreasing `x`; the series is never re-sorted here, and a sample
/// whose `x` or `y` exceeds the last sample's is clamped to the plot edge
/// when drawn.
#[derive(Debug)]
pub struct Series {
    /// The samples, in draw order.
    pub samples: Vec<Sample>,
    /// Bounds derived once from the last sample.
    pub bounds: AxisBounds,
}

impl Series {
    /// Well-formed: at least one sample, and the cached bounds are exactly
    /// the ones derived from the last sample.
    pub open spec fn wf(self) -> bool {
        &&& self.samples@.len() >= 1
        &&& self.bounds == spec_bounds(self.samples@)
    }

    /// Build a series and cache its axis bounds. An empty sample list is
    /// invalid input: there is no last sample to anchor the axes.
    pub fn new(samples: Vec<Sample>) -> (r: Result<Series, ChartError>)
        ensures
            match r {
                Ok(s) => {
                    &&& samples@.len() >= 1
                    &&& s.wf()
                    &&& s.samples@ == samples@
                },
                Err(e) => samples@.len() == 0 && e == ChartError::InvalidInput,
            },
    {
        if samples.len() == 0 {
            Err(ChartError::InvalidInput)
        } else {
            let last = samples[samples.len() - 1];
            Ok(Series {
                bounds: AxisBounds { x_min: 0, x_max: last.x, y_min: 0, y_max: last.y },
                samples,
            })
        }
    }

    /// Number of samples.
    pub fn len(&self) -> (n: usize)
        ensures
            n == self.samples@.len(),
    {
        self.samples.len()
    }
}

} // verus!

//! GPS traces.

use vstd::prelude::*;

verus! {

/// One GPS point. Coordinates are in units of 1e-7 degrees: `x` is the
/// longitude, `y` the latitude.
#[derive(Clone, Copy, Debug, PartialEq, Eq, Structural, Hash)]
pub struct MapMatchingPoint {
    pub x: i64,
    pub y: i64,
}

impl MapMatchingPoint {
    /// The point at (`x`, `y`).
    pub fn new(x: i64, y: i64) -> (p: MapMatchingPoint)
        ensures
            p == (MapMatchingPoint { x, y }),
    {
        MapMatchingPoint { x, y }
    }
}

/// An ordered sequence of GPS points.
#[derive(Debug)]
pub struct MapMatchingTrace {
    pub points: Vec<MapMatchingPoint>,
}

impl View for MapMatchingTrace {
    type V = Seq<MapMatchingPoint>;

    open spec fn view(&self) -> Seq<MapMatchingPoint> {
        self.points@
    }
}

impl Clone for MapMatchingTrace {
    fn clone(&self) -> (r: Self)
        ensures
            r@ == self@,
    {
        let points = self.points.clone();
        assert(points@ =~= self.points@);
        MapMatchingTrace { points }
    }
}

impl MapMatchingTrace {
    /// The trace of `points`.
    pub fn new(points: Vec<MapMatchingPoint>) -> (trace: MapMatchingTrace)
        ensures
            trace@ == points@,
    {
        MapMatchingTrace { points }
    }

    /// The number of points.
    pub fn len(&self) -> (n: usize)
        ensures
            n == self@.len(),
    {
        self.points.len()
    }

    /// Whether the trace has no point.
    pub fn is_empty(&self) -> (b: bool)
        ensures
            b == (self@.len() == 0),
    {
        self.points.len() == 0
    }
}

} // verus!

//! Stroke data: a measured point, one continuous gesture, and the group of
//! gestures belonging to one drawable unit.

use crate::region::Point;
use vstd::prelude::*;

verus! {

/// Where the recorder stands for one unit: freshly created, accumulating
/// points, or finalized.
#[derive(Debug, Clone, Copy, PartialEq)]
pub enum DrawingStatus {
    Created,
    Recording,
    Finished,
}

/// One recorded sample: a point in the unit's local space, and the pressure
/// the hardware reported for it. Pressure is a raw fixed-point sample;
/// nothing populates it yet, so it stays absent.
#[derive(Debug, Clone, Copy, PartialEq)]
pub struct PointMeasurement {
    pub point: Point,
    pub press: Option<u64>,
}

impl PointMeasurement {
    /// A sample with no pressure reading.
    pub fn new_point(point: Point) -> (r: PointMeasurement)
        ensures
            r == (PointMeasurement { point, press: None }),
    {
        PointMeasurement { point, press: None }
    }

    /// The same sample with a pressure reading attached.
    pub fn with_press(self, press: u64) -> (r: PointMeasurement)
        ensures
            r == (PointMeasurement { point: self.point, press: Some(press) }),
    {
        PointMeasurement { point: self.point, press: Some(press) }
    }
}

/// One continuous pointer-down-to-pointer-up gesture: an ordered sequence of
/// samples, append-only while the gesture is in progress.
#[derive(Debug, Clone, PartialEq)]
pub struct Stroke {
    pub measurements: Vec<PointMeasurement>,
}

impl View for Stroke {
    type V = Seq<PointMeasurement>;

    open spec fn view(&self) -> Seq<PointMeasurement> {
        self.measurements@
    }
}

impl Default for Stroke {
    /// A stroke with no samples yet.
    fn default() -> (s: Stroke)
        ensures
            s@ == Seq::<PointMeasurement>::empty(),
    {
        Stroke { measurements: Vec::new() }
    }
}

/// The strokes of one unit: the committed ones in the order they finished,
/// plus at most one gesture still in progress.
#[verifier::ext_equal]
pub ghost struct StrokeGroupView {
    pub strokes: Seq<Seq<PointMeasurement>>,
    pub active_stroke: Option<Seq<PointMeasurement>>,
}

#[derive(Debug, Clone, PartialEq)]
pub struct StrokeGroup {
    pub strokes: Vec<Stroke>,
    pub active_stroke: Option<Stroke>,
}

impl View for StrokeGroup {
    type V = StrokeGroupView;

    open spec fn view(&self) -> StrokeGroupView {
        StrokeGroupView {
            strokes: self.strokes@.map_values(|s: Stroke| s@),
            active_stroke: match self.active_stroke {
                Some(s) => Some(s@),
                None => None,
            },
        }
    }
}

impl Default for StrokeGroup {
    /// A group with no strokes and no gesture in progress.
    fn default() -> (g: StrokeGroup)
        ensures
            g@.strokes == Seq::<Seq<PointMeasurement>>::empty(),
            g@.active_stroke is None,
    {
        StrokeGroup { strokes: Vec::new(), active_stroke: None }
    }
}

impl StrokeGroup {
    /// A group with no strokes and no gesture in progress.
    pub fn new() -> (g: StrokeGroup)
        ensures
            g@.strokes == Seq::<Seq<PointMeasurement>>::empty(),
            g@.active_stroke is None,
    {
        Self::default()
    }
}

} // verus!

//! Drawable units and the board that owns them.
//!
//! A unit is one logical drawable object: its position on the board, its
//! stroke group, its bounding region for hit-testing, its last-activity
//! timestamp, and two lifecycle flags. The board is the canvas root and
//! holds its units as an owned arena; a unit's identifier is its index.

use crate::region::{Point, Region};
use crate::stroke::{StrokeGroup, StrokeGroupView};
use crate::time::LastUpdate;
use vstd::prelude::*;

verus! {

/// One drawable object on the board.
///
/// `translation` is the unit's origin in board-local coordinates; every
/// recorded point and the region are relative to it. `active` marks a unit
/// whose gesture is still being recorded (or within its stickiness window);
/// `rendered` marks a finished unit whose geometry the host has already
/// materialized, a one-way transition.
#[derive(Debug, Clone, PartialEq)]
pub struct Unit {
    pub layer: u32,
    pub translation: Point,
    pub stroke_group: StrokeGroup,
    pub region: Region,
    pub last_update: LastUpdate,
    pub active: bool,
    pub rendered: bool,
}

#[verifier::ext_equal]
pub ghost struct UnitView {
    pub layer: u32,
    pub translation: Point,
    pub stroke_group: StrokeGroupView,
    pub region: Region,
    pub last_update: u64,
    pub active: bool,
    pub rendered: bool,
}

impl View for Unit {
    type V = UnitView;

    open spec fn view(&self) -> UnitView {
        UnitView {
            layer: self.layer,
            translation: self.translation,
            stroke_group: self.stroke_group@,
            region: self.region,
            last_update: self.last_update.millis,
            active: self.active,
            rendered: self.rendered,
        }
    }
}

impl UnitView {
    /// What every unit the recorder creates satisfies and every step keeps:
    /// the translation stays within the range a world point minus the board
    /// translation can reach, and the region is a well-formed rectangle.
    pub open spec fn wf(self) -> bool {
        self.translation.in_translation_bounds() && self.region.wf()
    }
}

/// The canvas root: its world translation and the units drawn on it, in
/// creation order. A unit's index is its stable identifier.
#[derive(Debug, Clone, PartialEq)]
pub struct Board {
    pub translation: Point,
    pub units: Vec<Unit>,
}

#[verifier::ext_equal]
pub ghost struct BoardView {
    pub translation: Point,
    pub units: Seq<UnitView>,
}

impl View for Board {
    type V = BoardView;

    open spec fn view(&self) -> BoardView {
        BoardView { translation: self.translation, units: self.units@.map_values(|u: Unit| u@) }
    }
}

impl BoardView {
    pub open spec fn wf(self) -> bool {
        self.translation.in_bounds() && forall|i: int|
            0 <= i < self.units.len() ==> (#[trigger] self.units[i]).wf()
    }
}

impl Board {
    /// An empty board at the given world translation.
    pub fn new(translation: Point) -> (b: Board)
        ensures
            b@.translation == translation,
            b@.units == Seq::<UnitView>::empty(),
    {
        Board { translation, units: Vec::new() }
    }
}

} // verus!

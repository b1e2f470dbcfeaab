//! The stroke renderer's decision half.
//!
//! Each evaluation the host asks which units to draw. A freshly finished
//! unit — inactive and not yet rendered — is drawn once and marked
//! rendered, a one-way transition. An active unit is redrawn from scratch
//! every evaluation to show live progress; the host destroys its previous
//! primitives first. Only committed strokes are drawn: the in-progress
//! stroke stays invisible until it commits. The host turns each returned
//! point into one drawable primitive at that board-local position.

use crate::region::Point;
use crate::stroke::{PointMeasurement, StrokeGroup, StrokeGroupView};
use crate::unit::{Board, UnitView};
use vstd::prelude::*;

verus! {

/// One drawing order for the host: which unit, whether its previous
/// primitives must be destroyed first (`live`, the re-render of an active
/// unit) or it is drawn for the first time, and the committed points to
/// draw, in order, in the unit's local space.
pub struct UnitDraw {
    pub unit: usize,
    pub live: bool,
    pub points: Vec<Point>,
}

#[verifier::ext_equal]
pub ghost struct UnitDrawView {
    pub unit: int,
    pub live: bool,
    pub points: Seq<Point>,
}

impl View for UnitDraw {
    type V = UnitDrawView;

    open spec fn view(&self) -> UnitDrawView {
        UnitDrawView { unit: self.unit as int, live: self.live, points: self.points@ }
    }
}

/// The points of one stroke, in recording order.
pub open spec fn stroke_points(s: Seq<PointMeasurement>) -> Seq<Point> {
    s.map_values(|m: PointMeasurement| m.point)
}

/// The points of all committed strokes, stroke by stroke in commit order.
pub open spec fn strokes_points(ss: Seq<Seq<PointMeasurement>>) -> Seq<Point>
    decreases ss.len(),
{
    if ss.len() == 0 {
        Seq::empty()
    } else {
        strokes_points(ss.drop_last()) + stroke_points(ss.last())
    }
}

/// A unit's rendered flag after one renderer pass: set once the unit is
/// finished, untouched otherwise.
pub open spec fn mark_rendered_one(u: UnitView) -> UnitView {
    if !u.active && !u.rendered {
        UnitView { rendered: true, ..u }
    } else {
        u
    }
}

pub open spec fn mark_rendered(units: Seq<UnitView>) -> Seq<UnitView> {
    units.map_values(|u: UnitView| mark_rendered_one(u))
}

/// The one-time draws: every finished, not-yet-rendered unit, in index
/// order.
pub open spec fn finished_draws(units: Seq<UnitView>) -> Seq<UnitDrawView>
    decreases units.len(),
{
    if units.len() == 0 {
        Seq::empty()
    } else {
        let rest = finished_draws(units.drop_last());
        let u = units.last();
        if !u.active && !u.rendered {
            rest.push(
                UnitDrawView {
                    unit: units.len() - 1,
                    live: false,
                    points: strokes_points(u.stroke_group.strokes),
                },
            )
        } else {
            rest
        }
    }
}

/// The live draws: every active unit, in index order.
pub open spec fn live_draws(units: Seq<UnitView>) -> Seq<UnitDrawView>
    decreases units.len(),
{
    if units.len() == 0 {
        Seq::empty()
    } else {
        let rest = live_draws(units.drop_last());
        let u = units.last();
        if u.active {
            rest.push(
                UnitDrawView {
                    unit: units.len() - 1,
                    live: true,
                    points: strokes_points(u.stroke_group.strokes),
                },
            )
        } else {
            rest
        }
    }
}

/// The committed geometry of one unit: every point of every committed
/// stroke, in order, in the unit's local space. The rendering handoff.
pub fn committed_points_of(group: &StrokeGroup) -> (pts: Vec<Point>)
    ensures
        pts@ == strokes_points(group@.strokes),
{
    let mut pts: Vec<Point> = Vec::new();
    let mut i: usize = 0;
    while i < group.strokes.len()
        invariant
            i <= group.strokes.len(),
            pts@ == strokes_points(group@.strokes.take(i as int)),
        decreases group.strokes.len() - i,
    {
        let s = &group.strokes[i];
        let mut j: usize = 0;
        while j < s.measurements.len()
            invariant
                i < group.strokes.len(),
                j <= s.measurements.len(),
                s@ == group@.strokes[i as int],
                pts@ == strokes_points(group@.strokes.take(i as int)) + stroke_points(
                    s@.take(j as int),
                ),
            decreases s.measurements.len() - j,
        {
            proof {
                assert(stroke_points(s@.take(j + 1)) =~= stroke_points(s@.take(j as int)).push(
                    s@[j as int].point,
                ));
            }
            pts.push(s.measurements[j].point);
            j = j + 1;
        }
        proof {
            assert(s@.take(s@.len() as int) =~= s@);
            assert(group@.strokes.take(i + 1).drop_last() =~= group@.strokes.take(i as int));
            assert(strokes_points(group@.strokes.take(i + 1)) == strokes_points(
                group@.strokes.take(i as int),
            ) + stroke_points(group@.strokes[i as int]));
        }
        i = i + 1;
    }
    proof {
        assert(group@.strokes.take(group@.strokes.len() as int) =~= group@.strokes);
    }
    pts
}

/// One renderer evaluation: returns the drawing orders — the one-time
/// draws of freshly finished units, then the live draws of active units —
/// and marks each freshly finished unit rendered, exactly once.
pub fn render_strokes_system(board: &mut Board) -> (plan: Vec<UnitDraw>)
    ensures
        final(board)@.translation == old(board)@.translation,
        final(board)@.units == mark_rendered(old(board)@.units),
        plan@.map_values(|d: UnitDraw| d@) == finished_draws(old(board)@.units) + live_draws(
            old(board)@.units,
        ),
        old(board)@.wf() ==> final(board)@.wf(),
{
    let ghost b0 = board@;
    let mut plan: Vec<UnitDraw> = Vec::new();
    let mut i: usize = 0;
    while i < board.units.len()
        invariant
            b0 == old(board)@,
            i <= board.units.len(),
            board@.translation == b0.translation,
            board@.units.len() == b0.units.len(),
            forall|j: int| 0 <= j < i ==> board@.units[j] == mark_rendered_one(#[trigger] b0.units[j]),
            forall|j: int| i <= j < b0.units.len() ==> board@.units[j] == b0.units[j],
            plan@.map_values(|d: UnitDraw| d@) == finished_draws(b0.units.take(i as int)),
        decreases board.units.len() - i,
    {
        proof {
            assert(b0.units.take(i + 1).drop_last() =~= b0.units.take(i as int));
        }
        let ghost plan0 = plan@;
        if !board.units[i].active && !board.units[i].rendered {
            let pts = committed_points_of(&board.units[i].stroke_group);
            plan.push(UnitDraw { unit: i, live: false, points: pts });
            let ghost prev = board@.units;
            let mut u = board.units.remove(i);
            u.rendered = true;
            let ghost uv = u@;
            board.units.insert(i, u);
            proof {
                assert(board@.units =~= prev.update(i as int, uv));
                assert(plan@.map_values(|d: UnitDraw| d@) =~= plan0.map_values(
                    |d: UnitDraw| d@,
                ).push(UnitDrawView {
                    unit: i as int,
                    live: false,
                    points: strokes_points(b0.units[i as int].stroke_group.strokes),
                }));
            }
        }
        i = i + 1;
    }
    proof {
        assert(b0.units.take(b0.units.len() as int) =~= b0.units);
        assert(board@.units =~= mark_rendered(b0.units));
    }
    let ghost plan_finished = plan@;
    let mut k: usize = 0;
    while k < board.units.len()
        invariant
            b0 == old(board)@,
            k <= board.units.len(),
            board@.translation == b0.translation,
            board@.units == mark_rendered(b0.units),
            board@.units.len() == b0.units.len(),
            plan@.map_values(|d: UnitDraw| d@) == finished_draws(b0.units) + live_draws(
                b0.units.take(k as int),
            ),
        decreases board.units.len() - k,
    {
        proof {
            assert(b0.units.take(k + 1).drop_last() =~= b0.units.take(k as int));
            assert(board@.units[k as int] == mark_rendered_one(b0.units[k as int]));
        }
        let ghost plan0 = plan@;
        if board.units[k].active {
            let pts = committed_points_of(&board.units[k].stroke_group);
            plan.push(UnitDraw { unit: k, live: true, points: pts });
            proof {
                assert(plan@.map_values(|d: UnitDraw| d@) =~= plan0.map_values(
                    |d: UnitDraw| d@,
                ).push(UnitDrawView {
                    unit: k as int,
                    live: true,
                    points: strokes_points(b0.units[k as int].stroke_group.strokes),
                }));
            }
        }
        k = k + 1;
    }
    proof {
        assert(b0.units.take(b0.units.len() as int) =~= b0.units);
        assert forall|j: int| 0 <= j < mark_rendered(b0.units).len() implies (
        #[trigger] mark_rendered(b0.units)[j]).wf() == b0.units[j].wf() by {}
    }
    plan
}

} // verus!

//! The stroke-recorder state machine.
//!
//! The board is idle (no active unit), recording (exactly one), or in
//! conflict (more than one, a defensive state that heals itself). Each
//! evaluation step the host hands in the pointer-button edges, the queued
//! cursor samples already converted to world space (`None` where the
//! conversion failed, which skips the sample), and its clock reading; the
//! step runs only while the brush is the current tool.

use crate::region::{region_union_all, Point, Region};
use crate::stroke::{PointMeasurement, Stroke, StrokeGroup, StrokeGroupView};
use crate::time::LastUpdate;
use crate::tools::{Tool, ToolBox, ToolView};
use crate::unit::{Board, BoardView, Unit, UnitView};
use vstd::prelude::*;

verus! {

/// How long an active unit outlives its last recorded activity with no
/// further input, in milliseconds. The deliberate debounce that keeps a
/// brief pointer-up blip from fragmenting one gesture into many strokes.
pub const STICKY_MILLIS: u64 = 3000;

/// The pointer and clock input of one evaluation step.
///
/// `press_point` is the cursor position at a fresh press, converted to
/// world space; `None` when there is no cursor or the conversion failed.
/// `moves` are the queued cursor samples in arrival order, each converted
/// to world space or `None` where the conversion failed.
pub struct StepInput {
    pub just_pressed: bool,
    pub pressed: bool,
    pub press_point: Option<Point>,
    pub moves: Vec<Option<Point>>,
    pub now: u64,
}

#[verifier::ext_equal]
pub ghost struct StepInputView {
    pub just_pressed: bool,
    pub pressed: bool,
    pub press_point: Option<Point>,
    pub moves: Seq<Option<Point>>,
    pub now: u64,
}

impl View for StepInput {
    type V = StepInputView;

    open spec fn view(&self) -> StepInputView {
        StepInputView {
            just_pressed: self.just_pressed,
            pressed: self.pressed,
            press_point: self.press_point,
            moves: self.moves@,
            now: self.now,
        }
    }
}

impl StepInputView {
    /// Every world point the host hands in stays within the coordinate
    /// bound.
    pub open spec fn wf(self) -> bool {
        &&& match self.press_point {
            Some(p) => p.in_bounds(),
            None => true,
        }
        &&& forall|i: int|
            0 <= i < self.moves.len() ==> match #[trigger] self.moves[i] {
                Some(p) => p.in_bounds(),
                None => true,
            }
    }
}

/// How many units are currently active.
pub open spec fn count_active(units: Seq<UnitView>) -> nat
    decreases units.len(),
{
    if units.len() == 0 {
        0
    } else {
        count_active(units.drop_last()) + if units.last().active {
            1nat
        } else {
            0nat
        }
    }
}

/// The host clock reading is not behind any active unit's timestamp; holds
/// of a monotonic clock, since every stored timestamp is an earlier
/// reading.
pub open spec fn clock_monotone(b: BoardView, now: u64) -> bool {
    forall|i: int|
        0 <= i < b.units.len() ==> ((#[trigger] b.units[i]).active ==> b.units[i].last_update
            <= now)
}

/// The samples whose conversion succeeded, in arrival order, translated
/// into the unit's local space by subtracting the unit's world position.
pub open spec fn local_points(moves: Seq<Option<Point>>, base: Point) -> Seq<Point>
    decreases moves.len(),
{
    if moves.len() == 0 {
        Seq::empty()
    } else {
        let rest = local_points(moves.drop_last(), base);
        match moves.last() {
            Some(wp) => rest.push(wp.spec_sub(base)),
            None => rest,
        }
    }
}

/// Points wrapped as pressure-less samples.
pub open spec fn measurements_of(ps: Seq<Point>) -> Seq<PointMeasurement> {
    ps.map_values(|p: Point| PointMeasurement { point: p, press: None })
}

/// The samples of the in-progress stroke, or none recorded yet.
pub open spec fn active_points(g: StrokeGroupView) -> Seq<PointMeasurement> {
    match g.active_stroke {
        Some(s) => s,
        None => Seq::empty(),
    }
}

/// The group after appending this step's samples to the in-progress
/// stroke, creating one only if there is a sample to put in it.
pub open spec fn group_append(g: StrokeGroupView, ps: Seq<Point>) -> StrokeGroupView {
    if ps.len() == 0 {
        g
    } else {
        StrokeGroupView {
            strokes: g.strokes,
            active_stroke: Some(active_points(g) + measurements_of(ps)),
        }
    }
}

/// The group after the pointer is released: the in-progress stroke, if
/// any, moves to the end of the committed strokes.
pub open spec fn group_commit(g: StrokeGroupView) -> StrokeGroupView {
    match g.active_stroke {
        Some(s) => StrokeGroupView { strokes: g.strokes.push(s), active_stroke: None },
        None => g,
    }
}

/// The group at timeout: a non-empty in-progress stroke is committed, an
/// empty one is discarded.
pub open spec fn group_timeout(g: StrokeGroupView) -> StrokeGroupView {
    match g.active_stroke {
        Some(s) => StrokeGroupView {
            strokes: if s.len() > 0 {
                g.strokes.push(s)
            } else {
                g.strokes
            },
            active_stroke: None,
        },
        None => g,
    }
}

/// The recording half of a step on the one active unit. While the pointer
/// is held, every converted sample is appended and unioned into the
/// region, and the timestamp refreshes if at least one sample was
/// appended; on release an in-progress stroke is committed and the
/// timestamp refreshes. The active flag is untouched here: release alone
/// does not finish the unit, that is the stickiness.
pub open spec fn record_phase(u: UnitView, inp: StepInputView, board_translation: Point) -> UnitView {
    if inp.pressed {
        let pts = local_points(inp.moves, board_translation.spec_add(u.translation));
        UnitView {
            stroke_group: group_append(u.stroke_group, pts),
            region: region_union_all(u.region, pts),
            last_update: if pts.len() > 0 {
                inp.now
            } else {
                u.last_update
            },
            ..u
        }
    } else {
        match u.stroke_group.active_stroke {
            Some(_) => UnitView {
                stroke_group: group_commit(u.stroke_group),
                last_update: inp.now,
                ..u
            },
            None => u,
        }
    }
}

/// The timeout half of a step: once the unit has seen no activity for
/// longer than the stickiness window, it is finalized and stops being
/// active.
pub open spec fn timeout_phase(u: UnitView, now: u64) -> UnitView {
    if now - u.last_update > STICKY_MILLIS {
        UnitView { stroke_group: group_timeout(u.stroke_group), active: false, ..u }
    } else {
        u
    }
}

/// One whole step on the one active unit: record, then check the timeout.
pub open spec fn step_active_unit(u: UnitView, inp: StepInputView, board_translation: Point) -> UnitView {
    timeout_phase(record_phase(u, inp, board_translation), inp.now)
}

/// The unit a fresh press creates: positioned at the world press point in
/// board-local coordinates, empty group, degenerate region at the local
/// origin, timestamp at the press. If the pointer was already released
/// again within the same step, the unit starts out inactive: a zero-length
/// stroke that still gets rendered.
pub open spec fn new_unit(wp: Point, board_translation: Point, pressed: bool, now: u64) -> UnitView {
    UnitView {
        layer: 0,
        translation: wp.spec_sub(board_translation),
        stroke_group: StrokeGroupView {
            strokes: Seq::empty(),
            active_stroke: None,
        },
        region: Region::spec_from_point(Point { x: 0, y: 0 }),
        last_update: now,
        active: pressed,
        rendered: false,
    }
}

/// Every unit with its active flag stripped and nothing else changed:
/// conflict recovery discards no committed data but abandons in-progress
/// strokes by never committing them.
pub open spec fn deactivate_all(units: Seq<UnitView>) -> Seq<UnitView> {
    units.map_values(|u: UnitView| UnitView { active: false, ..u })
}

/// The whole board after one evaluation step with the brush selected.
///
/// Idle: a fresh press with a converted cursor point creates a unit;
/// anything else changes nothing. Recording: the one active unit takes the
/// step. Conflict (more than one active unit): all units are deactivated
/// unconditionally.
pub open spec fn spec_step(b: BoardView, inp: StepInputView) -> BoardView {
    let n = count_active(b.units);
    if n == 0 {
        if inp.just_pressed {
            match inp.press_point {
                Some(wp) => BoardView {
                    translation: b.translation,
                    units: b.units.push(new_unit(wp, b.translation, inp.pressed, inp.now)),
                },
                None => b,
            }
        } else {
            b
        }
    } else if n == 1 {
        BoardView {
            translation: b.translation,
            units: b.units.map_values(
                |u: UnitView|
                    if u.active {
                        step_active_unit(u, inp, b.translation)
                    } else {
                        u
                    },
            ),
        }
    } else {
        BoardView { translation: b.translation, units: deactivate_all(b.units) }
    }
}

/// A unit somewhere in the sequence is active, so the count is positive.
proof fn lemma_count_active_positive(units: Seq<UnitView>, k: int)
    requires
        0 <= k < units.len(),
        units[k].active,
    ensures
        count_active(units) >= 1,
    decreases units.len(),
{
    if k < units.len() - 1 {
        lemma_count_active_positive(units.drop_last(), k);
    }
}

/// Two distinct active units put the count at two or more.
proof fn lemma_count_active_two(units: Seq<UnitView>, k1: int, k2: int)
    requires
        0 <= k1 < k2 < units.len(),
        units[k1].active,
        units[k2].active,
    ensures
        count_active(units) >= 2,
    decreases units.len(),
{
    if k2 == units.len() - 1 {
        lemma_count_active_positive(units.drop_last(), k1);
    } else {
        lemma_count_active_two(units.drop_last(), k1, k2);
    }
}

/// Appending one more point extends the in-progress stroke by one sample
/// and touches nothing else.
proof fn lemma_group_append_push(g: StrokeGroupView, ps: Seq<Point>, q: Point)
    ensures
        group_append(g, ps.push(q)) == (StrokeGroupView {
            strokes: group_append(g, ps).strokes,
            active_stroke: Some(
                active_points(group_append(g, ps)).push(PointMeasurement { point: q, press: None }),
            ),
        }),
{
    assert(measurements_of(ps.push(q)) =~= measurements_of(ps).push(
        PointMeasurement { point: q, press: None },
    ));
    assert(active_points(g) + measurements_of(ps.push(q)) =~= (active_points(g)
        + measurements_of(ps)).push(PointMeasurement { point: q, press: None }));
    if ps.len() == 0 {
        assert(active_points(g) + measurements_of(ps) =~= active_points(g));
    }
}

/// No unit is active, so the count is zero.
proof fn lemma_count_active_zero(units: Seq<UnitView>)
    requires
        forall|j: int| 0 <= j < units.len() ==> !(#[trigger] units[j]).active,
    ensures
        count_active(units) == 0,
    decreases units.len(),
{
    if units.len() > 0 {
        lemma_count_active_zero(units.drop_last());
    }
}

/// Exactly one unit is active, so the count is one.
proof fn lemma_count_active_one(units: Seq<UnitView>, k: int)
    requires
        0 <= k < units.len(),
        units[k].active,
        forall|j: int| 0 <= j < units.len() && j != k ==> !(#[trigger] units[j]).active,
    ensures
        count_active(units) == 1,
    decreases units.len(),
{
    if k == units.len() - 1 {
        lemma_count_active_zero(units.drop_last());
    } else {
        lemma_count_active_one(units.drop_last(), k);
    }
}

/// Law: a gesture that presses and releases within the same evaluation
/// step creates a unit that is immediately inactive — the stickiness does
/// not apply — with no committed stroke and nothing in progress, and
/// leaves every existing unit untouched.
pub proof fn lemma_press_release_same_step(b: BoardView, inp: StepInputView)
    requires
        count_active(b.units) == 0,
        inp.just_pressed,
        !inp.pressed,
        inp.press_point is Some,
    ensures
        spec_step(b, inp).units.len() == b.units.len() + 1,
        !spec_step(b, inp).units.last().active,
        spec_step(b, inp).units.last().stroke_group.strokes.len() == 0,
        spec_step(b, inp).units.last().stroke_group.active_stroke is None,
        forall|k: int| 0 <= k < b.units.len() ==> spec_step(b, inp).units[k] == b.units[k],
{
}

/// Law: a gesture of a press, then cursor samples while the pointer is
/// held, then a release, commits exactly one stroke holding exactly the
/// samples whose world conversion succeeded, in arrival order, translated
/// into the unit's local space; the unit stays active afterwards until
/// the stickiness timeout, and no other unit is touched.
pub proof fn lemma_gesture_records_samples(
    b: BoardView,
    wp: Point,
    press: StepInputView,
    drag: StepInputView,
    release: StepInputView,
)
    requires
        b.wf(),
        count_active(b.units) == 0,
        press.just_pressed,
        press.pressed,
        press.press_point == Some(wp),
        wp.in_bounds(),
        drag.pressed,
        local_points(drag.moves, wp).len() > 0,
        !release.pressed,
    ensures
        ({
            let end = spec_step(spec_step(spec_step(b, press), drag), release);
            let n = b.units.len() as int;
            &&& end.units.len() == n + 1
            &&& forall|k: int| 0 <= k < n ==> end.units[k] == b.units[k]
            &&& end.units[n].stroke_group.strokes == seq![
                measurements_of(local_points(drag.moves, wp)),
            ]
            &&& end.units[n].stroke_group.active_stroke is None
            &&& end.units[n].active
            &&& end.units[n].translation == wp.spec_sub(b.translation)
        }),
{
    let n = b.units.len() as int;
    let u = new_unit(wp, b.translation, true, press.now);
    let b1 = spec_step(b, press);
    assert(b1.units == b.units.push(u));
    assert forall|j: int| 0 <= j < b.units.len() implies !(#[trigger] b.units[j]).active by {
        if b.units[j].active {
            lemma_count_active_positive(b.units, j);
        }
    }
    lemma_count_active_one(b1.units, n);

    // The unit sits at the press point, so its base in world space is the
    // press point itself.
    assert(b.translation.spec_add(u.translation) == wp);
    let pts = local_points(drag.moves, wp);
    let u1 = step_active_unit(u, drag, b1.translation);
    assert(group_append(u.stroke_group, pts).active_stroke == Some(measurements_of(pts)))
        by {
        assert(active_points(u.stroke_group) + measurements_of(pts) =~= measurements_of(pts));
    }
    assert(u1.last_update == drag.now);
    assert(u1.active);
    let b2 = spec_step(b1, drag);
    assert(b2.units[n] == u1);
    assert forall|j: int| 0 <= j < b2.units.len() && j != n implies !(
    #[trigger] b2.units[j]).active by {}
    lemma_count_active_one(b2.units, n);

    let u2 = step_active_unit(u1, release, b2.translation);
    assert(u2.stroke_group.strokes =~= seq![measurements_of(pts)]);
    let end = spec_step(b2, release);
    assert(end.units[n] == u2);
}

/// Law: once the pointer is up and the stickiness window has elapsed, one
/// evaluation finalizes the unit — it goes inactive, keeping its committed
/// strokes — and the board then sits still: every further step without a
/// fresh press changes nothing, however often it is evaluated.
pub proof fn lemma_timeout_finalizes_once(b: BoardView, inp: StepInputView, k: int)
    requires
        0 <= k < b.units.len(),
        b.units[k].active,
        forall|j: int| 0 <= j < b.units.len() && j != k ==> !(#[trigger] b.units[j]).active,
        !inp.pressed,
        b.units[k].stroke_group.active_stroke is None,
        inp.now - b.units[k].last_update > STICKY_MILLIS,
    ensures
        spec_step(b, inp).units == b.units.update(
            k,
            UnitView { active: false, ..b.units[k] },
        ),
        count_active(spec_step(b, inp).units) == 0,
        forall|later: StepInputView|
            !later.just_pressed ==> spec_step(spec_step(b, inp), later) == spec_step(b, inp),
{
    lemma_count_active_one(b.units, k);
    let after = spec_step(b, inp);
    assert(after.units =~= b.units.update(k, UnitView { active: false, ..b.units[k] }));
    assert forall|j: int| 0 <= j < after.units.len() implies !(#[trigger] after.units[j]).active
        by {}
    lemma_count_active_zero(after.units);
}

/// Law: with two or more simultaneously active units, one evaluation step
/// deactivates every unit, and no unit loses anything but its active
/// flag: committed strokes, the in-progress stroke, region, position and
/// timestamps all stay as they were.
pub proof fn lemma_conflict_recovery(b: BoardView, inp: StepInputView)
    requires
        count_active(b.units) >= 2,
    ensures
        spec_step(b, inp).units.len() == b.units.len(),
        forall|k: int|
            0 <= k < b.units.len() ==> spec_step(b, inp).units[k] == (UnitView {
                active: false,
                ..b.units[k]
            }),
        count_active(spec_step(b, inp).units) == 0,
{
    let after = spec_step(b, inp);
    assert forall|j: int| 0 <= j < after.units.len() implies !(#[trigger] after.units[j]).active
        by {}
    lemma_count_active_zero(after.units);
}

/// One evaluation step of the recorder.
///
/// Swallows all input unless the brush is the current tool; with the brush
/// selected, the board becomes exactly `spec_step` of its old value and
/// the step's input.
pub fn stroke_record_system(board: &mut Board, tool_box: &ToolBox, input: &StepInput)
    requires
        old(board)@.wf(),
        input@.wf(),
        clock_monotone(old(board)@, input.now),
    ensures
        final(board)@.wf(),
        tool_box@.spec_current() == Some(ToolView::Brush) ==> final(board)@ == spec_step(
            old(board)@,
            input@,
        ),
        tool_box@.spec_current() != Some(ToolView::Brush) ==> final(board)@ == old(board)@,
{
    let is_brush = match tool_box.current_tool() {
        Some(Tool::Brush {  }) => true,
        _ => false,
    };
    if !is_brush {
        return ;
    }
    let ghost b0 = board@;

    // How many units are active, and where the first of them stands.
    let mut active_count: usize = 0;
    let mut active_idx: usize = 0;
    let mut i: usize = 0;
    while i < board.units.len()
        invariant
            b0 == old(board)@,
            i <= board.units.len(),
            *board == *old(board),
            active_count == count_active(b0.units.take(i as int)),
            active_count <= i,
            active_count > 0 ==> active_idx < i && b0.units[active_idx as int].active,
        decreases board.units.len() - i,
    {
        proof {
            assert(b0.units.take(i + 1).drop_last() =~= b0.units.take(i as int));
        }
        if board.units[i].active {
            if active_count == 0 {
                active_idx = i;
            }
            active_count = active_count + 1;
        }
        i = i + 1;
    }
    proof {
        assert(b0.units.take(b0.units.len() as int) =~= b0.units);
    }

    if active_count == 0 {
        // Idle: a fresh press with a converted cursor point starts a unit.
        if input.just_pressed {
            match input.press_point {
                Some(wp) => {
                    let unit = Unit {
                        layer: 0,
                        translation: wp.sub(board.translation),
                        stroke_group: StrokeGroup::new(),
                        region: Region::from_point(Point { x: 0, y: 0 }),
                        last_update: LastUpdate::now(input.now),
                        active: input.pressed,
                        rendered: false,
                    };
                    board.units.push(unit);
                    proof {
                        assert(board@.units =~= spec_step(b0, input@).units);
                        assert forall|k: int| 0 <= k < board@.units.len() implies (
                        #[trigger] board@.units[k]).wf() by {
                            if k < b0.units.len() {
                                assert(b0.units[k].wf());
                            }
                        }
                    }
                },
                None => {},
            }
        }
    } else if active_count == 1 {
        // Recording: exactly one active unit takes the step.
        let ghost u0 = b0.units[active_idx as int];
        proof {
            assert(b0.units[active_idx as int].wf());
        }
        let mut u = board.units.remove(active_idx);
        let ghost bmid = board@;
        proof {
            assert(bmid.units =~= b0.units.remove(active_idx as int));
        }
        if input.pressed {
            let base = board.translation.add(u.translation);
            let mut any: bool = false;
            let mut j: usize = 0;
            while j < input.moves.len()
                invariant
                    b0 == old(board)@,
                    0 <= active_idx < b0.units.len(),
                    u0 == b0.units[active_idx as int],
                    board@ == bmid,
                    j <= input.moves.len(),
                    base == b0.translation.spec_add(u0.translation),
                    b0.wf(),
                    input@.wf(),
                    u0.wf(),
                    base.x == b0.translation.x + u0.translation.x,
                    base.y == b0.translation.y + u0.translation.y,
                    u@.stroke_group == group_append(
                        u0.stroke_group,
                        local_points(input@.moves.take(j as int), base),
                    ),
                    u@.region == region_union_all(
                        u0.region,
                        local_points(input@.moves.take(j as int), base),
                    ),
                    u@.region.wf(),
                    any == (local_points(input@.moves.take(j as int), base).len() > 0),
                    u@.layer == u0.layer,
                    u@.translation == u0.translation,
                    u@.last_update == u0.last_update,
                    u@.active == u0.active,
                    u@.rendered == u0.rendered,
                decreases input.moves.len() - j,
            {
                proof {
                    assert(input@.moves.take(j + 1).drop_last() =~= input@.moves.take(j as int));
                }
                let ghost pts = local_points(input@.moves.take(j as int), base);
                match input.moves[j] {
                    Some(wp) => {
                        let local = wp.sub(base);
                        proof {
                            assert(pts.push(local).drop_last() =~= pts);
                            assert(local_points(input@.moves.take(j + 1), base) == pts.push(
                                local,
                            ));
                            lemma_group_append_push(u0.stroke_group, pts, local);
                        }
                        if u.stroke_group.active_stroke.is_none() {
                            u.stroke_group.active_stroke = Some(Stroke::default());
                        }
                        match &mut u.stroke_group.active_stroke {
                            Some(s) => {
                                s.measurements.push(PointMeasurement::new_point(local));
                            },
                            None => {},
                        }
                        u.region = u.region.union_point(local);
                        any = true;
                    },
                    None => {},
                }
                j = j + 1;
            }
            proof {
                assert(input@.moves.take(input@.moves.len() as int) =~= input@.moves);
            }
            if any {
                u.last_update.update(input.now);
            }
            proof {
                assert(u@ == record_phase(u0, input@, b0.translation));
            }
        } else {
            match u.stroke_group.active_stroke.take() {
                Some(finished) => {
                    u.stroke_group.strokes.push(finished);
                    u.last_update.update(input.now);
                },
                None => {},
            }
            proof {
                assert(u@.stroke_group =~= record_phase(u0, input@, b0.translation).stroke_group);
                assert(u@ == record_phase(u0, input@, b0.translation));
            }
        }
        // Timeout: finalize after the stickiness window with no activity.
        if input.now - u.last_update.millis > STICKY_MILLIS {
            match u.stroke_group.active_stroke.take() {
                Some(last_stroke) => {
                    if last_stroke.measurements.len() > 0 {
                        u.stroke_group.strokes.push(last_stroke);
                    }
                },
                None => {},
            }
            u.active = false;
        }
        let ghost ufin = u@;
        proof {
            assert(ufin == step_active_unit(u0, input@, b0.translation));
            assert(ufin.wf());
        }
        board.units.insert(active_idx, u);
        proof {
            assert forall|k: int|
                0 <= k < b0.units.len() && k != active_idx implies !b0.units[k].active by {
                if b0.units[k].active {
                    if k < active_idx {
                        lemma_count_active_two(b0.units, k, active_idx as int);
                    } else {
                        lemma_count_active_two(b0.units, active_idx as int, k);
                    }
                }
            }
            assert(board@.units =~= spec_step(b0, input@).units);
            assert forall|k: int| 0 <= k < board@.units.len() implies (
            #[trigger] board@.units[k]).wf() by {
                if k != active_idx {
                    assert(b0.units[k].wf());
                } else {
                    assert(board@.units[k] == ufin);
                }
            }
        }
    } else {
        // Conflict: strip the active flag from every unit unconditionally.
        let mut k: usize = 0;
        while k < board.units.len()
            invariant
                b0 == old(board)@,
                k <= board.units.len(),
                board@.translation == b0.translation,
                board@.units.len() == b0.units.len(),
                forall|j: int|
                    0 <= j < k ==> board@.units[j] == (UnitView {
                        active: false,
                        ..b0.units[j]
                    }),
                forall|j: int| k <= j < b0.units.len() ==> board@.units[j] == b0.units[j],
            decreases board.units.len() - k,
        {
            let ghost prev = board@.units;
            let mut u = board.units.remove(k);
            u.active = false;
            let ghost uv = u@;
            board.units.insert(k, u);
            proof {
                assert(board@.units =~= prev.update(k as int, uv));
            }
            k = k + 1;
        }
        proof {
            assert(board@.units =~= deactivate_all(b0.units));
            assert(count_active(b0.units) >= 2);
            assert(board@.units =~= spec_step(b0, input@).units);
            assert forall|k: int| 0 <= k < board@.units.len() implies (
            #[trigger] board@.units[k]).wf() by {
                assert(b0.units[k].wf());
            }
        }
    }
}

} // verus!

//! The picker tool: press to select every unit whose bounding region
//! contains the cursor.

use crate::region::Point;
use crate::tools::{Tool, ToolBox, ToolBoxView, ToolView};
use crate::unit::{Board, BoardView, UnitView};
use vstd::prelude::*;

verus! {

/// The picker tool's state: the indices of the units currently selected,
/// in the order they were picked. A unit picked again is appended again;
/// nothing deduplicates the list.
#[derive(Debug, Clone, PartialEq)]
pub struct Picker {
    pub selected: Vec<usize>,
}

impl View for Picker {
    type V = Seq<usize>;

    open spec fn view(&self) -> Seq<usize> {
        self.selected@
    }
}

impl Default for Picker {
    /// A picker with nothing selected.
    fn default() -> (p: Picker)
        ensures
            p@ == Seq::<usize>::empty(),
    {
        Picker { selected: Vec::new() }
    }
}

impl Picker {
    /// True iff the selection is non-empty; a non-empty selection
    /// suppresses camera panning while dragging.
    pub fn picked(&self) -> (r: bool)
        ensures
            r == (self@.len() > 0),
    {
        self.selected.len() > 0
    }
}

/// Whether the world-space cursor point lands inside a unit's region once
/// translated into that unit's local space.
pub open spec fn unit_hit(u: UnitView, wp: Point, board_translation: Point) -> bool {
    u.region.spec_contains(wp.spec_sub(board_translation.spec_add(u.translation)))
}

/// The indices of the units hit by the cursor point, in index order.
pub open spec fn picked_ids(units: Seq<UnitView>, wp: Point, board_translation: Point) -> Seq<
    usize,
>
    decreases units.len(),
{
    if units.len() == 0 {
        Seq::empty()
    } else {
        let rest = picked_ids(units.drop_last(), wp, board_translation);
        if unit_hit(units.last(), wp, board_translation) {
            rest.push((units.len() - 1) as usize)
        } else {
            rest
        }
    }
}

/// The selector after one picking step: on a fresh press with a converted
/// cursor point, while the picker is the current tool, the hit units'
/// indices are appended to the selection; in every other case nothing
/// changes.
pub open spec fn spec_pick(
    tb: ToolBoxView,
    b: BoardView,
    just_pressed: bool,
    cursor_world: Option<Point>,
) -> ToolBoxView {
    match tb.spec_current() {
        Some(ToolView::Picker(sel)) => match cursor_world {
            Some(wp) => if just_pressed {
                ToolBoxView {
                    current_tool_index: tb.current_tool_index,
                    tools: tb.tools.update(
                        tb.current_tool_index,
                        ToolView::Picker(sel + picked_ids(b.units, wp, b.translation)),
                    ),
                }
            } else {
                tb
            },
            None => tb,
        },
        _ => tb,
    }
}

/// One picking step.
///
/// The host hands in whether the primary button was freshly pressed and the
/// cursor position already converted to world space (`None` when there is
/// no cursor or the conversion failed, which aborts the pick silently).
pub fn pick_unit_system(
    tool_box: &mut ToolBox,
    board: &Board,
    just_pressed: bool,
    cursor_world: Option<Point>,
)
    requires
        old(tool_box)@.wf(),
        board@.wf(),
        cursor_world matches Some(wp) ==> wp.in_bounds(),
    ensures
        final(tool_box)@ == spec_pick(old(tool_box)@, board@, just_pressed, cursor_world),
        final(tool_box)@.wf(),
{
    let idx = tool_box.current_tool_index;
    if idx >= tool_box.tools.len() {
        return ;
    }
    match &tool_box.tools[idx] {
        Tool::Picker(_) => {},
        _ => { return ; },
    }
    let wp = match cursor_world {
        Some(p) => p,
        None => { return ; },
    };
    if !just_pressed {
        return ;
    }
    let mut hits: Vec<usize> = Vec::new();
    let mut i: usize = 0;
    while i < board.units.len()
        invariant
            i <= board.units.len(),
            board@.wf(),
            wp.in_bounds(),
            hits@ == picked_ids(board@.units.take(i as int), wp, board@.translation),
        decreases board.units.len() - i,
    {
        proof {
            assert(board@.units.take(i + 1).drop_last() =~= board@.units.take(i as int));
            assert(board@.units[i as int].wf());
        }
        let u = &board.units[i];
        let base = board.translation.add(u.translation);
        let local = wp.sub(base);
        if u.region.contains(local) {
            hits.push(i);
        }
        i = i + 1;
    }
    proof {
        assert(board@.units.take(board@.units.len() as int) =~= board@.units);
    }
    let tool = tool_box.tools.remove(idx);
    match tool {
        Tool::Picker(mut p) => {
            p.selected.append(&mut hits);
            tool_box.tools.insert(idx, Tool::Picker(p));
        },
        other => {
            tool_box.tools.insert(idx, other);
        },
    }
    proof {
        assert(tool_box@.tools =~= spec_pick(
            old(tool_box)@,
            board@,
            just_pressed,
            cursor_world,
        ).tools);
    }
}

} // verus!

//! The camera's verified half: the decision whether pan input may act.
//!
//! The camera transform itself — pan deltas, zoom, screen-to-world
//! conversion — is floating-point work that stays with the host; what the
//! library decides is only when a drag belongs to the camera rather than
//! to the current tool.

use crate::tools::{Tool, ToolBox, ToolBoxView, ToolView};
use vstd::prelude::*;

verus! {

/// Whether camera pan input may act this step: a pan button is held, and
/// the current tool does not claim the drag. The picker claims it while it
/// has a selection, the brush always claims it, and with no tool at all the
/// camera is free.
pub open spec fn spec_camera_control(tb: ToolBoxView, pan_button_pressed: bool) -> bool {
    pan_button_pressed && match tb.spec_current() {
        Some(ToolView::Picker(sel)) => sel.len() == 0,
        Some(ToolView::Brush) => false,
        None => true,
    }
}

/// Consulted by the host before camera panning acts on a drag.
pub fn camera_control_condition(tool_box: &ToolBox, pan_button_pressed: bool) -> (r: bool)
    ensures
        r == spec_camera_control(tool_box@, pan_button_pressed),
{
    if !pan_button_pressed {
        return false;
    }
    match tool_box.current_tool() {
        Some(Tool::Picker(p)) => !p.picked(),
        None => true,
        _ => false,
    }
}

} // verus!

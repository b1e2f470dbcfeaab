//! The tool selector: an ordered list of tool variants with one current
//! index, cycled forward and backward by two dedicated keys. It is the
//! single source of truth the recorder, the picker and the camera pan guard
//! consult each step.

use crate::picker::Picker;
use vstd::prelude::*;

verus! {

/// The input-interpretation modes: the picker selects drawn units, the
/// brush records strokes.
#[derive(Debug, Clone, PartialEq)]
pub enum Tool {
    Picker(Picker),
    Brush {},
}

pub ghost enum ToolView {
    Picker(Seq<usize>),
    Brush,
}

impl View for Tool {
    type V = ToolView;

    open spec fn view(&self) -> ToolView {
        match self {
            Tool::Picker(p) => ToolView::Picker(p@),
            Tool::Brush {  } => ToolView::Brush,
        }
    }
}

impl Default for Tool {
    /// The picker, with nothing selected.
    fn default() -> (t: Tool)
        ensures
            t@ == ToolView::Picker(Seq::<usize>::empty()),
    {
        Tool::Picker(Picker::default())
    }
}

/// The selector: the tool list and the index of the current tool.
#[derive(Debug, Clone, PartialEq)]
pub struct ToolBox {
    pub current_tool_index: usize,
    pub tools: Vec<Tool>,
}

#[verifier::ext_equal]
pub ghost struct ToolBoxView {
    pub current_tool_index: int,
    pub tools: Seq<ToolView>,
}

impl View for ToolBox {
    type V = ToolBoxView;

    open spec fn view(&self) -> ToolBoxView {
        ToolBoxView {
            current_tool_index: self.current_tool_index as int,
            tools: self.tools@.map_values(|t: Tool| t@),
        }
    }
}

impl ToolBoxView {
    /// The index stays inside the list whenever the list is non-empty.
    pub open spec fn wf(self) -> bool {
        self.tools.len() > 0 ==> 0 <= self.current_tool_index < self.tools.len()
    }

    /// The current tool, or none on an empty list.
    pub open spec fn spec_current(self) -> Option<ToolView> {
        if 0 <= self.current_tool_index < self.tools.len() {
            Some(self.tools[self.current_tool_index])
        } else {
            None
        }
    }

    /// The index after cycling one tool forward; a no-op on an empty list.
    pub open spec fn spec_next(self) -> ToolBoxView {
        if self.tools.len() == 0 {
            self
        } else {
            ToolBoxView {
                current_tool_index: (self.current_tool_index + 1) % self.tools.len() as int,
                tools: self.tools,
            }
        }
    }

    /// The index after cycling one tool backward, wrapping from the front
    /// to the last index; a no-op on an empty list.
    pub open spec fn spec_prev(self) -> ToolBoxView {
        if self.tools.len() == 0 {
            self
        } else {
            ToolBoxView {
                current_tool_index: if self.current_tool_index == 0 {
                    self.tools.len() - 1
                } else {
                    self.current_tool_index - 1
                },
                tools: self.tools,
            }
        }
    }
}

impl Default for ToolBox {
    /// The fixed two-tool palette, starting on the picker.
    fn default() -> (tb: ToolBox)
        ensures
            tb@.current_tool_index == 0,
            tb@.tools =~= seq![ToolView::Picker(Seq::<usize>::empty()), ToolView::Brush],
            tb@.wf(),
    {
        ToolBox { current_tool_index: 0, tools: vec![Tool::default(), Tool::Brush {  }] }
    }
}

impl ToolBox {
    /// Cycle forward to the next tool, wrapping at the end of the list.
    pub fn next_tool(&mut self)
        requires
            old(self)@.wf(),
        ensures
            final(self)@ == old(self)@.spec_next(),
            final(self)@.wf(),
    {
        if self.tools.is_empty() {
            return ;
        }
        let n = self.tools.len();
        assert(self@.tools.len() == self.tools@.len());
        assert(self.current_tool_index < n);
        self.current_tool_index = (self.current_tool_index + 1) % n;
    }

    /// Cycle backward to the previous tool, wrapping at the front of the
    /// list.
    pub fn prev_tool(&mut self)
        requires
            old(self)@.wf(),
        ensures
            final(self)@ == old(self)@.spec_prev(),
            final(self)@.wf(),
    {
        if self.tools.is_empty() {
            return ;
        }
        assert(self@.tools.len() == self.tools@.len());
        // Equal to (len + index - 1) % len while the index is in range,
        // without the risk of the sum outgrowing usize.
        if self.current_tool_index == 0 {
            self.current_tool_index = self.tools.len() - 1;
        } else {
            self.current_tool_index = self.current_tool_index - 1;
        }
    }

    /// The current tool, or none on an empty list or an out-of-range index.
    pub fn current_tool(&self) -> (r: Option<&Tool>)
        ensures
            match r {
                Some(t) => self@.spec_current() == Some(t@),
                None => self@.spec_current() is None,
            },
    {
        if self.current_tool_index < self.tools.len() {
            Some(&self.tools[self.current_tool_index])
        } else {
            None
        }
    }

    /// Mutable access to the current tool, or none on an empty list or an
    /// out-of-range index.
    pub fn current_tool_mut(&mut self) -> (r: Option<&mut Tool>)
        ensures
            match r {
                Some(t) => {
                    &&& old(self)@.spec_current() == Some((*t)@)
                    &&& final(self)@.tools == old(self)@.tools.update(
                        old(self)@.current_tool_index,
                        (*final(t))@,
                    )
                    &&& final(self)@.current_tool_index == old(self)@.current_tool_index
                },
                None => {
                    &&& old(self)@.spec_current() is None
                    &&& final(self)@ == old(self)@
                },
            },
    {
        if self.current_tool_index < self.tools.len() {
            Some(&mut self.tools[self.current_tool_index])
        } else {
            None
        }
    }
}

/// Which of the two tool-cycling bindings a key press is, if either.
/// The host maps its key codes to this before handing the event in.
#[derive(Debug, Clone, Copy, PartialEq)]
pub enum ToolKey {
    PrevTool,
    NextTool,
    Other,
}

/// One key transition the host delivered this step.
#[derive(Debug, Clone, Copy, PartialEq)]
pub struct KeyEvent {
    pub pressed: bool,
    pub key: ToolKey,
}

/// The selector after one key event: a press of a cycling key turns the
/// list; releases and other keys change nothing.
pub open spec fn spec_switch_one(tb: ToolBoxView, e: KeyEvent) -> ToolBoxView {
    if e.pressed {
        match e.key {
            ToolKey::PrevTool => tb.spec_prev(),
            ToolKey::NextTool => tb.spec_next(),
            ToolKey::Other => tb,
        }
    } else {
        tb
    }
}

/// The selector after a batch of key events, applied in arrival order.
pub open spec fn spec_switch(tb: ToolBoxView, events: Seq<KeyEvent>) -> ToolBoxView
    decreases events.len(),
{
    if events.len() == 0 {
        tb
    } else {
        spec_switch_one(spec_switch(tb, events.drop_last()), events.last())
    }
}

/// Drain this step's key events in arrival order, cycling the selector on
/// each press of one of the two bindings and ignoring every other key.
pub fn switch_tool(tool_box: &mut ToolBox, events: &Vec<KeyEvent>)
    requires
        old(tool_box)@.wf(),
    ensures
        final(tool_box)@ == spec_switch(old(tool_box)@, events@),
        final(tool_box)@.wf(),
{
    let ghost tb0 = tool_box@;
    let mut i: usize = 0;
    while i < events.len()
        invariant
            i <= events.len(),
            tool_box@ == spec_switch(tb0, events@.take(i as int)),
            tool_box@.wf(),
        decreases events.len() - i,
    {
        proof {
            assert(events@.take(i + 1).drop_last() =~= events@.take(i as int));
            assert(events@.take(i + 1).last() == events@[i as int]);
        }
        let e = events[i];
        if e.pressed {
            match e.key {
                ToolKey::PrevTool => tool_box.prev_tool(),
                ToolKey::NextTool => tool_box.next_tool(),
                ToolKey::Other => {},
            }
        }
        i = i + 1;
    }
    proof {
        assert(events@.take(events@.len() as int) =~= events@);
    }
}

/// Law: cycling is circular. `next` from the last index wraps to the
/// front, `prev` from the front lands on the last index, and each undoes
/// the other, so cycling as many times as the list is long returns to the
/// start.
pub proof fn lemma_tool_cycling(tb: ToolBoxView)
    requires
        tb.wf(),
        tb.tools.len() > 0,
    ensures
        tb.current_tool_index == tb.tools.len() - 1 ==> tb.spec_next().current_tool_index == 0,
        tb.current_tool_index == 0 ==> tb.spec_prev().current_tool_index == tb.tools.len() - 1,
        tb.spec_next().spec_prev() == tb,
        tb.spec_prev().spec_next() == tb,
{
    let n = tb.tools.len() as int;
    let i = tb.current_tool_index;
    if i == n - 1 {
        vstd::arithmetic::div_mod::lemma_mod_self_0(n);
        assert((i + 1) % n == 0);
    } else {
        vstd::arithmetic::div_mod::lemma_small_mod((i + 1) as nat, n as nat);
        assert((i + 1) % n == i + 1);
    }
    let p = tb.spec_prev();
    if p.current_tool_index == n - 1 {
        vstd::arithmetic::div_mod::lemma_mod_self_0(n);
    } else {
        vstd::arithmetic::div_mod::lemma_small_mod((p.current_tool_index + 1) as nat, n as nat);
    }
}

} // verus!

//! The knob: a vertical drag edits a parameter, with a finer travel while
//! the shift key is held, and a double click puts the parameter back to its
//! default.
//!
//! The knob opens a transaction when a drag begins and closes it when the
//! drag ends, so that a transaction is open exactly while the knob is being
//! dragged.

use crate::editor::ParamEdit;
use crate::fixed::{clamp, clamp_spec, multiply, multiply_spec, saturate, saturate_wide, ONE};
use vstd::prelude::*;

verus! {

/// The change of the normalized value per pixel of travel: 0.0042.
pub const DRAG_SCALAR: i64 = 4_200_000;

/// The factor on the travel while the shift key is held: 0.04.
pub const MODIFIER_SCALAR: i64 = 40_000_000;

/// Where the current stretch of a drag began. The height is counted in
/// billionths of a pixel, like every value of the format: `ONE` is one
/// pixel.
#[derive(Clone, Copy, PartialEq, Eq, Debug)]
pub struct DragStatus {
    /// Whether the shift key was held when the stretch began.
    pub modified: bool,
    /// The normalized value when the stretch began.
    pub start_value: i64,
    /// The height of the cursor when the stretch began, in billionths of a
    /// pixel.
    pub start_y: i64,
}

/// An input event on the knob. Heights grow downward and are counted in
/// billionths of a pixel, like every value of the format: the cursor at
/// the 200th pixel is at `200 * ONE`.
#[derive(Clone, Copy, PartialEq, Eq, Debug)]
pub enum KnobEvent {
    /// The left button was pressed with the cursor at the height `y`.
    MouseDown { y: i64 },
    /// The left button was released.
    MouseUp,
    /// The cursor moved to the height `y`, with the shift key held or not.
    MouseMove { y: i64, shift: bool },
    /// The left button was double clicked; `default_value` is the
    /// normalized default of the parameter.
    MouseDoubleClick { default_value: i64 },
}

/// The state of a knob: the current stretch of the drag, if one is under
/// way.
#[derive(Clone, Copy, PartialEq, Eq, Debug)]
pub struct Knob {
    pub drag_status: Option<DragStatus>,
}

/// The change of the normalized value that a travel of the cursor from
/// `start_y` to `y` stands for, both in billionths of a pixel.
pub open spec fn drag_delta_spec(y: int, start_y: int, modified: bool) -> int {
    let coarse = multiply_spec(saturate(y - start_y), DRAG_SCALAR as int);
    if modified {
        multiply_spec(coarse, MODIFIER_SCALAR as int)
    } else {
        coarse
    }
}

/// The normalized value that the cursor at the height `y` stands for in a
/// stretch: moving up raises it, and it stays within 0 and 1.0.
pub open spec fn dragged_value_spec(status: DragStatus, y: int) -> int {
    clamp_spec(
        status.start_value - drag_delta_spec(y, status.start_y as int, status.modified),
        0,
        ONE as int,
    )
}

/// The normalized value that the cursor at the height `y`, in billionths
/// of a pixel, stands for.
pub fn dragged_value(status: DragStatus, y: i64) -> (value: i64)
    ensures
        value == dragged_value_spec(status, y as int),
        0 <= value <= ONE,
{
    let travel: i64 = saturate_wide(y as i128 - status.start_y as i128);
    let coarse: i64 = multiply(travel, DRAG_SCALAR);
    let delta: i64 = if status.modified {
        multiply(coarse, MODIFIER_SCALAR)
    } else {
        coarse
    };
    let moved: i128 = status.start_value as i128 - delta as i128;
    if moved < 0 {
        0
    } else if moved > ONE as i128 {
        ONE
    } else {
        moved as i64
    }
}

impl Knob {
    /// Whether a drag is under way.
    pub open spec fn is_dragging_spec(self) -> bool {
        self.drag_status is Some
    }

    /// The stretch that begins at the height `y` from the value `value`.
    pub open spec fn anchor(modified: bool, value: i64, y: i64) -> DragStatus {
        DragStatus { modified: modified, start_value: value, start_y: y }
    }

    /// The state after `event`, where `value` is the normalized value of
    /// the parameter at that time.
    pub open spec fn next_spec(self, event: KnobEvent, value: i64) -> Knob {
        match event {
            KnobEvent::MouseDown { y } => Knob {
                drag_status: Some(Self::anchor(false, value, y)),
            },
            KnobEvent::MouseUp => Knob { drag_status: None },
            KnobEvent::MouseMove { y, shift } => match self.drag_status {
                Some(status) => if status.modified == shift {
                    self
                } else {
                    Knob { drag_status: Some(Self::anchor(shift, value, y)) }
                },
                None => self,
            },
            KnobEvent::MouseDoubleClick { default_value } => Knob { drag_status: None },
        }
    }

    /// The edit that `event` asks for, where `value` is the normalized
    /// value of the parameter at that time.
    pub open spec fn edit_spec(self, event: KnobEvent, value: i64) -> ParamEdit {
        match event {
            KnobEvent::MouseDown { y } => ParamEdit {
                begin: !self.is_dragging_spec(),
                value: None,
                end: false,
            },
            KnobEvent::MouseUp => ParamEdit {
                begin: false,
                value: None,
                end: self.is_dragging_spec(),
            },
            KnobEvent::MouseMove { y, shift } => match self.next_spec(event, value).drag_status {
                Some(status) => ParamEdit {
                    begin: false,
                    value: Some(dragged_value_spec(status, y as int) as i64),
                    end: false,
                },
                None => ParamEdit::nothing(),
            },
            KnobEvent::MouseDoubleClick { default_value } => ParamEdit {
                begin: !self.is_dragging_spec(),
                value: Some(clamp_spec(default_value as int, 0, ONE as int) as i64),
                end: true,
            },
        }
    }

    /// A knob at rest.
    pub fn new() -> (knob: Knob)
        ensures
            knob == (Knob { drag_status: None }),
    {
        Knob { drag_status: None }
    }

    /// Whether a drag is under way.
    pub fn is_dragging(&self) -> (dragging: bool)
        ensures
            dragging == self.is_dragging_spec(),
    {
        self.drag_status.is_some()
    }

    /// Begins a new stretch of the drag at the height `start_y`, in
    /// billionths of a pixel, from the normalized value `value` of the
    /// parameter.
    pub fn reset_drag_status(&mut self, modified: bool, value: i64, start_y: i64)
        ensures
            final(self).drag_status == Some(Self::anchor(modified, value, start_y)),
    {
        self.drag_status = Some(DragStatus { modified, start_value: value, start_y });
    }

    /// Takes one input event and says which edit of the parameter it asks
    /// for. `value` is the normalized value of the parameter at that time.
    ///
    /// A press begins a drag and opens a transaction, a release ends both.
    /// A move during a drag sets the value that the travel since the
    /// beginning of the stretch stands for; when the shift key changes, a
    /// new stretch begins at the cursor. A double click ends a drag and
    /// sets the default within a transaction.
    pub fn event(&mut self, event: KnobEvent, value: i64) -> (edit: ParamEdit)
        ensures
            *final(self) == old(self).next_spec(event, value),
            edit == old(self).edit_spec(event, value),
            edit.well_bracketed(old(self).is_dragging_spec()),
            final(self).is_dragging_spec() == edit.leaves_open(old(self).is_dragging_spec()),
            edit.normalized(),
    {
        let dragging: bool = self.is_dragging();
        match event {
            KnobEvent::MouseDown { y } => {
                self.reset_drag_status(false, value, y);
                ParamEdit { begin: !dragging, value: None, end: false }
            },
            KnobEvent::MouseUp => {
                self.drag_status = None;
                ParamEdit { begin: false, value: None, end: dragging }
            },
            KnobEvent::MouseMove { y, shift } => {
                match self.drag_status {
                    Some(status) => {
                        if status.modified != shift {
                            self.reset_drag_status(shift, value, y);
                        }
                    },
                    None => {},
                }
                match self.drag_status {
                    Some(status) => ParamEdit {
                        begin: false,
                        value: Some(dragged_value(status, y)),
                        end: false,
                    },
                    None => ParamEdit { begin: false, value: None, end: false },
                }
            },
            KnobEvent::MouseDoubleClick { default_value } => {
                self.drag_status = None;
                ParamEdit { begin: !dragging, value: Some(clamp(default_value, 0, ONE)), end: true }
            },
        }
    }
}

/// A stretch that has just begun stands for the value that it began from,
/// limited to the normalized range.
pub proof fn lemma_fresh_stretch(modified: bool, value: i64, y: i64)
    ensures
        dragged_value_spec(Knob::anchor(modified, value, y), y as int) == clamp_spec(
            value as int,
            0,
            ONE as int,
        ),
{
    assert(0 * (DRAG_SCALAR as int) == 0) by (nonlinear_arith);
    assert(0 * (MODIFIER_SCALAR as int) == 0) by (nonlinear_arith);
}

} // verus!

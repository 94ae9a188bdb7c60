//! What the widgets of the editor decide: which edits of a parameter an
//! input event asks for, and which points the graph of the transfer curve
//! shows. Drawing and the delivery of events are not part of this crate.

pub mod enum_button;
pub mod graph;
pub mod knob;

use vstd::prelude::*;

verus! {

/// What a widget asks of the parameter layer in answer to one event, in
/// this order: to open a transaction, to set the normalized value, to close
/// the transaction. The edits between an opening and a closing reach the
/// host as one change.
#[derive(Clone, Copy, PartialEq, Eq, Debug)]
pub struct ParamEdit {
    pub begin: bool,
    pub value: Option<i64>,
    pub end: bool,
}

impl ParamEdit {
    /// Whether the edit fits a parameter whose transaction is open or not:
    /// it opens none that is open, and it sets and closes only within one.
    pub open spec fn well_bracketed(self, open: bool) -> bool {
        &&& self.begin ==> !open
        &&& self.value is Some ==> open || self.begin
        &&& self.end ==> open || self.begin
    }

    /// Whether the transaction is open after the edit.
    pub open spec fn leaves_open(self, open: bool) -> bool {
        (open || self.begin) && !self.end
    }

    /// Whether the value that the edit sets, if any, is a normalized value.
    pub open spec fn normalized(self) -> bool {
        self.value matches Some(v) ==> 0 <= v <= crate::fixed::ONE
    }

    /// The edit that asks for nothing.
    pub open spec fn nothing() -> ParamEdit {
        ParamEdit { begin: false, value: None, end: false }
    }
}

} // verus!

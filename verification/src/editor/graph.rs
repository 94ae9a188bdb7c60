//! The graph of the transfer curve: the points of the curve that the
//! snapshot of the signal path stands for.

use crate::data::UIData;
use crate::fixed::{multiply, multiply_spec, ONE};
use vstd::prelude::*;

verus! {

/// The number of steps between the two ends of the graph.
pub const RESOLUTION: u32 = 1000;

/// The input at the `step`-th point of the graph: from -1.0 at the step 0
/// to 1.0 at the last step.
pub open spec fn curve_input_spec(step: int) -> int {
    (2 * ONE * step) / (RESOLUTION as int) - ONE
}

/// What the curve of the snapshot makes of the input at the `step`-th point
/// of the graph: the input is multiplied by the drive and shaped by the
/// algorithm.
pub open spec fn curve_output_spec(data: UIData, step: int) -> int {
    data.algorithm.calculate_spec(multiply_spec(data.drive as int, curve_input_spec(step)))
}

/// The input at the `step`-th point of the graph.
pub fn curve_input(step: u32) -> (x: i64)
    ensures
        x == curve_input_spec(step as int),
{
    (2_000_000_000 * (step as i64)) / (RESOLUTION as i64) - ONE
}

/// The graph of the transfer curve of one snapshot.
pub struct DistortionGraph {
    pub ui_data: UIData,
}

impl DistortionGraph {
    /// The graph of the snapshot `ui_data`.
    pub fn new(ui_data: UIData) -> (graph: DistortionGraph)
        ensures
            graph.ui_data == ui_data,
    {
        DistortionGraph { ui_data }
    }

    /// The `step`-th point of the graph: the input and what the curve makes
    /// of it, which lies between -1.0 and 1.0.
    pub fn point(&self, step: u32) -> (point: (i64, i64))
        ensures
            point.0 == curve_input_spec(step as int),
            point.1 == curve_output_spec(self.ui_data, step as int),
            -ONE <= point.1 <= ONE,
    {
        let x: i64 = curve_input(step);
        (x, self.ui_data.algorithm.calculate(multiply(self.ui_data.drive, x)))
    }
}

/// The graph spans the inputs from -1.0 to 1.0.
pub proof fn lemma_graph_ends()
    ensures
        curve_input_spec(0) == -ONE,
        curve_input_spec(RESOLUTION as int) == ONE,
{
}

} // verus!

//! The pie chart of the summary view, as far as it can be said in whole
//! numbers: how large it is drawn and in which colour.

use vstd::prelude::*;

verus! {

/// A pie chart: a filled disc that its host draws.
pub struct PieChart {
    /// The side of the square the chart asks for, and so the diameter of
    /// the disc, in points.
    pub diameter: u32,
    /// The fill colour: red, green, blue.
    pub fill: (u8, u8, u8),
}

impl PieChart {
    /// The chart as the summary view shows it: 256 points across, in a
    /// medium grey.
    pub fn new() -> (chart: PieChart)
        ensures
            chart.diameter == 256,
            chart.fill == (125u8, 125u8, 125u8),
    {
        PieChart { diameter: 256, fill: (125, 125, 125) }
    }
}

} // verus!

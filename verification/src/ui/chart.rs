//! What the chart window plots.
use vstd::prelude::*;

verus! {

/// How many variables a chart plots against each other.
#[derive(Debug, Clone, Copy, PartialEq, Eq, Structural)]
pub enum ChartDimension {
    /// One series against the step number.
    Time1D,
    /// One variable against another.
    Parametric2D,
    /// Three variables in space.
    Spatial3D,
}

/// The series a one-dimensional chart plots: the outputs, or the history of a variable.
#[derive(Debug, PartialEq, Eq)]
pub enum ChartSeriesType {
    Outputs,
    Variable(String),
}

impl Clone for ChartSeriesType {
    fn clone(&self) -> (r: Self)
        ensures
            r == *self,
    {
        match self {
            ChartSeriesType::Outputs => ChartSeriesType::Outputs,
            ChartSeriesType::Variable(name) => ChartSeriesType::Variable(name.clone()),
        }
    }
}

/// How a one-dimensional series is drawn.
#[derive(Debug, Clone, Copy, PartialEq, Eq, Structural)]
pub enum PlotType {
    Line,
    Points,
    Bar,
}

} // verus!

//! A flowchart model with its legacy FPP text format and the control flow of a
//! step-by-step interpreter for it.
use vstd::prelude::*;

pub mod engine;
pub mod model;
pub mod order;
pub mod search;
pub mod text;
pub mod ui;

verus! {
} // verus!

//! The state of the dialog that asks for input.
use vstd::prelude::*;

verus! {

/// The text typed into the input dialog, and whether it has asked for keyboard focus.
#[derive(Default)]
pub struct ModalInputState {
    pub text_input: String,
    pub focus_requested: bool,
}

} // verus!

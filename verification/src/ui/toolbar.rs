//! The file and view actions the toolbar asks for.
use vstd::prelude::*;

verus! {

/// Which toolbar buttons were pressed in a frame.
pub struct ToolbarAction {
    pub new_diagram: bool,
    pub open_file: bool,
    pub save_file: bool,
    pub save_file_as: bool,
    pub center_view: bool,
}

} // verus!

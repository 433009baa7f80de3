//! What the canvas is set to do with a click, and what a click on a node does.
use vstd::prelude::*;

use crate::model::connector::BranchCondition;
use crate::model::diagram::{has_id, Diagram};
use crate::search::first_index;
use crate::text::{chars_eq, chars_of};

verus! {

/// The tool a click on the canvas uses.
#[derive(Debug, Clone, Copy, PartialEq, Eq, Structural)]
pub enum CanvasTool {
    Select,
    Connect,
    DeleteNode,
    DeleteLine,
}

/// What a click on a node asks for.
pub enum NodeClick {
    /// Select the node.
    Select(String),
    /// Remember the node as where a new connector starts.
    BeginLink(String),
    /// Link the remembered node to the clicked one on the given branch.
    Link { from: String, to: String, condition: BranchCondition },
    /// Delete the node.
    Delete(String),
    /// Nothing.
    Nothing,
}

/// The branch a new connector from the node `from` starts on: `Yes` when the first node
/// with that identifier is a condition, the default branch otherwise.
pub open spec fn link_branch(d: Diagram, from: Seq<char>) -> BranchCondition {
    let i = first_index(d@.nodes, has_id(from));
    if 0 <= i < d@.nodes.len() && d@.nodes[i].node_type.is_condition_kind() {
        BranchCondition::Yes
    } else {
        BranchCondition::Default
    }
}

/// What a click on the node `node_id` asks for with `tool`, while `connecting_from` holds
/// the node a connector was begun at, if any. Selecting selects it; connecting begins a
/// connector at it, or, when one was begun at another node, links that node to it; with
/// the node-deleting tool it is deleted; the line-deleting tool does nothing with nodes.
/// A connector begun and ended at the same node is dropped.
pub fn node_click(tool: CanvasTool, connecting_from: Option<String>, node_id: &str, diagram: &Diagram) -> (r: NodeClick)
    ensures
        match tool {
            CanvasTool::Select => r matches NodeClick::Select(s) && s@ == node_id@,
            CanvasTool::Connect => match connecting_from {
                None => r matches NodeClick::BeginLink(s) && s@ == node_id@,
                Some(f) => if f@ == node_id@ {
                    r is Nothing
                } else {
                    r matches NodeClick::Link { from, to, condition } && from@ == f@ && to@ == node_id@
                        && condition == link_branch(*diagram, f@)
                },
            },
            CanvasTool::DeleteNode => r matches NodeClick::Delete(s) && s@ == node_id@,
            CanvasTool::DeleteLine => r is Nothing,
        },
{
    match tool {
        CanvasTool::Select => NodeClick::Select(node_id.to_owned()),
        CanvasTool::Connect => match connecting_from {
            None => NodeClick::BeginLink(node_id.to_owned()),
            Some(from) => {
                if chars_eq(&chars_of(from.as_str()), &chars_of(node_id)) {
                    NodeClick::Nothing
                } else {
                    let condition = match diagram.get_node(from.as_str()) {
                        Some(n) => {
                            if n.node_type.is_condition() {
                                BranchCondition::Yes
                            } else {
                                BranchCondition::Default
                            }
                        },
                        None => BranchCondition::Default,
                    };
                    NodeClick::Link { from, to: node_id.to_owned(), condition }
                }
            },
        },
        CanvasTool::DeleteNode => NodeClick::Delete(node_id.to_owned()),
        CanvasTool::DeleteLine => NodeClick::Nothing,
    }
}

} // verus!

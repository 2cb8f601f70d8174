//! The node that is picked out, if one is.

use vstd::prelude::*;

use crate::chart::NodeId;

verus! {

/// At most one node, picked out of a graph.
#[derive(Debug, Clone, Copy, PartialEq, Eq, Structural)]
pub struct Selection {
    pub selected_node_id: Option<NodeId>,
}

impl Selection {
    /// No node is picked.
    pub fn new() -> (selection: Self)
        ensures
            selection.selected_node_id is None,
    {
        Self { selected_node_id: None }
    }

    /// Picks `node_id`, in place of what was picked before.
    pub fn select_node(&mut self, node_id: NodeId)
        ensures
            final(self).selected_node_id == Some(node_id),
    {
        self.selected_node_id = Some(node_id);
    }

    /// Lets go of what is picked, whichever node is named.
    pub fn deselect_node(&mut self, _node_id: &NodeId)
        ensures
            final(self).selected_node_id is None,
    {
        self.selected_node_id = None;
    }
}

} // verus!

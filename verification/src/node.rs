//! The record entity shared by every part of the engine.

use vstd::prelude::*;

verus! {

/// One record of the hierarchy, as read from the store for a single request.
#[derive(Debug)]
pub struct Node {
    /// Primary key of the record.
    pub primary_id: i32,
    pub key: String,
    /// `None` when no value is recorded.
    pub value: Option<String>,
    /// `None` for a root.
    pub parent_id: Option<i32>,
    /// Rank of the match this row belongs to; only rows of a ranked query carry one.
    pub rank: Option<i64>,
    /// The one child shown beneath this node in the current view.
    pub displayed_child: Option<Box<Node>>,
}

/// Two nodes are the same record when they carry the same identifier.
impl PartialEq for Node {
    fn eq(&self, other: &Node) -> (same: bool) {
        self.primary_id == other.primary_id
    }
}

impl vstd::std_specs::cmp::PartialEqSpecImpl for Node {
    open spec fn obeys_eq_spec() -> bool {
        true
    }

    open spec fn eq_spec(&self, other: &Node) -> bool {
        self.primary_id == other.primary_id
    }
}

impl Eq for Node {

}

/// The records themselves, each without what is displayed beneath it.
pub open spec fn rows_of(nodes: Seq<Node>) -> Seq<Node> {
    nodes.map_values(|n: Node| n.row())
}

impl Node {
    /// The record itself: this node without what is displayed beneath it.
    pub open spec fn row(self) -> Node {
        Node { displayed_child: None, ..self }
    }

    /// This node with `child` displayed beneath it.
    pub open spec fn over(self, child: Node) -> Node {
        Node { displayed_child: Some(Box::new(child)), ..self }
    }

    /// The records on the displayed path that starts at this node, top first.
    pub open spec fn path(self) -> Seq<Node>
        decreases self,
    {
        match self.displayed_child {
            None => seq![self.row()],
            Some(child) => seq![self.row()] + child.path(),
        }
    }

    /// A node with no displayed child.
    pub fn new(
        primary_id: i32,
        key: String,
        value: Option<String>,
        parent_id: Option<i32>,
        rank: Option<i64>,
    ) -> (node: Node)
        ensures
            node == (Node { primary_id, key, value, parent_id, rank, displayed_child: None }),
    {
        Node { primary_id, key, value, parent_id, rank, displayed_child: None }
    }
}

} // verus!

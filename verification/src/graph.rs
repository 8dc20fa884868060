//! A tree of user-interface nodes stored in one vector.

use vstd::prelude::*;

verus! {

/// The position of a node in its graph.
#[derive(Clone, Copy, Debug, PartialEq, Eq, Structural)]
pub struct NodeId {
    pub index: usize,
}

/// A node: its links to its parent, its siblings and its first and last
/// child, and the data it carries.
pub struct Node<T> {
    pub parent: Option<NodeId>,
    pub previous: Option<NodeId>,
    pub next: Option<NodeId>,
    pub child_first: Option<NodeId>,
    pub child_last: Option<NodeId>,
    pub data: T,
}

impl<T> Node<T> {
    /// The node carries `data` and is linked to no other node.
    pub open spec fn is_unlinked(&self) -> bool {
        &&& self.parent is None
        &&& self.previous is None
        &&& self.next is None
        &&& self.child_first is None
        &&& self.child_last is None
    }
}

/// The nodes of a tree, by position.
pub struct Graph<T> {
    nodes: Vec<Node<T>>,
}

impl<T> View for Graph<T> {
    type V = Seq<Node<T>>;

    closed spec fn view(&self) -> Seq<Node<T>> {
        self.nodes@
    }
}

impl<T> Graph<T> {
    /// A graph with no nodes.
    pub fn new() -> (g: Graph<T>)
        ensures
            g@ == Seq::<Node<T>>::empty(),
    {
        Graph { nodes: Vec::new() }
    }

    /// Adds an unlinked node carrying `data` and returns its position, the
    /// number of nodes before it.
    pub fn new_node(&mut self, data: T) -> (id: NodeId)
        ensures
            id.index == old(self)@.len(),
            final(self)@.len() == old(self)@.len() + 1,
            final(self)@.take(old(self)@.len() as int) == old(self)@,
            final(self)@[id.index as int].is_unlinked(),
            final(self)@[id.index as int].data == data,
    {
        let next_index = self.nodes.len();
        self.nodes.push(Node {
            parent: None,
            previous: None,
            next: None,
            child_first: None,
            child_last: None,
            data,
        });
        proof {
            assert(self.nodes@.take(next_index as int) =~= old(self)@);
        }
        NodeId { index: next_index }
    }
}

} // verus!

//! Nodes as the editor lays them out, and the list that holds them.

use vstd::prelude::*;

verus! {

/// A socket of a node.
#[derive(Clone, Debug)]
pub struct Handle {
    pub id: String,
    pub name: String,
    pub shape: String,
    pub show_label: bool,
}

/// A place on the editor's canvas: two double-precision numbers, each as
/// its bits.
#[derive(Clone, Copy, Debug, PartialEq, Eq, Structural)]
pub struct Position {
    pub x: u64,
    pub y: u64,
}

/// A node of the editor.
#[derive(Clone, Debug)]
pub struct Node {
    pub id: i32,
    pub name: String,
    pub position: Position,
    pub is_realtime: bool,
    pub input_handles: Vec<Handle>,
    pub output_handles: Vec<Handle>,
}

/// The nodes of the editor, in the order in which they were added.
#[derive(Clone, Debug)]
pub struct NodeGraph {
    pub nodes: Vec<Node>,
}

/// The first position from `from` on of a node with id `id`, or the
/// number of nodes.
pub open spec fn node_position(nodes: Seq<Node>, id: i32, from: int) -> int
    decreases nodes.len() - from,
{
    if from < 0 || from >= nodes.len() {
        nodes.len() as int
    } else if nodes[from].id == id {
        from
    } else {
        node_position(nodes, id, from + 1)
    }
}

/// The first `n` nodes without those whose id is `id`.
pub open spec fn without_id(nodes: Seq<Node>, id: i32, n: int) -> Seq<Node>
    decreases n,
{
    if n <= 0 {
        seq![]
    } else if nodes[n - 1].id == id {
        without_id(nodes, id, n - 1)
    } else {
        without_id(nodes, id, n - 1).push(nodes[n - 1])
    }
}

/// `node_position` gives the first position of the id at or behind `from`.
pub proof fn lemma_node_position(nodes: Seq<Node>, id: i32, from: int)
    requires
        0 <= from <= nodes.len(),
    ensures
        from <= node_position(nodes, id, from) <= nodes.len(),
        node_position(nodes, id, from) < nodes.len() ==> nodes[node_position(nodes, id, from)].id
            == id,
        forall|i: int| from <= i < node_position(nodes, id, from) ==> nodes[i].id != id,
    decreases nodes.len() - from,
{
    if from < nodes.len() && nodes[from].id != id {
        lemma_node_position(nodes, id, from + 1);
    }
}

impl NodeGraph {
    /// A graph without nodes.
    pub fn new() -> (graph: Self)
        ensures
            graph.nodes@.len() == 0,
    {
        NodeGraph { nodes: Vec::new() }
    }

    /// Adds `node` behind the others.
    pub fn add_node(&mut self, node: Node)
        ensures
            final(self).nodes@ == old(self).nodes@.push(node),
    {
        self.nodes.push(node);
    }

    /// Removes every node whose id is `id`; the others keep their order.
    pub fn remove_node(&mut self, id: i32)
        ensures
            final(self).nodes@ == without_id(old(self).nodes@, id, old(self).nodes@.len() as int),
    {
        let ghost all = self.nodes@;
        let ghost mut n: int = 0;
        let mut i: usize = 0;
        assert(self.nodes@ =~= without_id(all, id, 0) + all.skip(0));
        while i < self.nodes.len()
            invariant
                0 <= n <= all.len(),
                i == without_id(all, id, n).len(),
                self.nodes@ == without_id(all, id, n) + all.skip(n),
            decreases all.len() - n,
        {
            assert(self.nodes@[i as int] == all[n]);
            if self.nodes[i].id == id {
                self.nodes.remove(i);
                assert(self.nodes@ =~= without_id(all, id, n + 1) + all.skip(n + 1));
            } else {
                assert(self.nodes@ =~= without_id(all, id, n + 1) + all.skip(n + 1));
                i += 1;
            }
            proof {
                n = n + 1;
            }
        }
        assert(n == all.len());
        assert(self.nodes@ =~= without_id(all, id, all.len() as int));
    }

    /// The first node whose id is `id`.
    pub fn get_node(&self, id: i32) -> (r: Option<&Node>)
        ensures
            match r {
                Some(node) => {
                    let at = node_position(self.nodes@, id, 0);
                    at < self.nodes@.len() && *node == self.nodes@[at]
                },
                None => node_position(self.nodes@, id, 0) == self.nodes@.len(),
            },
    {
        let mut at: usize = 0;
        proof {
            lemma_node_position(self.nodes@, id, 0);
        }
        while at < self.nodes.len() && self.nodes[at].id != id
            invariant
                at <= self.nodes.len(),
                node_position(self.nodes@, id, at as int) == node_position(self.nodes@, id, 0),
            decreases self.nodes.len() - at,
        {
            at += 1;
        }
        if at < self.nodes.len() {
            Some(&self.nodes[at])
        } else {
            None
        }
    }

    /// The first node whose id is `id`, to be changed in place.
    pub fn get_node_mut(&mut self, id: i32) -> (r: Option<&mut Node>)
        ensures
            match r {
                Some(node) => {
                    let at = node_position(old(self).nodes@, id, 0);
                    &&& at < old(self).nodes@.len()
                    &&& *node == old(self).nodes@[at]
                    &&& final(self).nodes@ == old(self).nodes@.update(at, *final(node))
                },
                None => {
                    &&& node_position(old(self).nodes@, id, 0) == old(self).nodes@.len()
                    &&& *final(self) == *old(self)
                },
            },
    {
        let mut at: usize = 0;
        proof {
            lemma_node_position(self.nodes@, id, 0);
        }
        while at < self.nodes.len() && self.nodes[at].id != id
            invariant
                at <= self.nodes.len(),
                *self == *old(self),
                node_position(self.nodes@, id, at as int) == node_position(self.nodes@, id, 0),
            decreases self.nodes.len() - at,
        {
            at += 1;
        }
        if at < self.nodes.len() {
            Some(&mut self.nodes[at])
        } else {
            None
        }
    }
}

} // verus!

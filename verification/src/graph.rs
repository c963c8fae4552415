use vstd::prelude::*;

use crate::ast::NodeKind;
use crate::dict::{collect_kinds, walk_kinds, Dictionary};

verus! {

/// A view over one AST subtree, used to enumerate the variable declarations
/// that the contracts under it introduce.
#[derive(Debug)]
pub struct Graph {
    pub root: u32,
}

impl Graph {
    /// A graph rooted at the given node.
    pub fn new(root: u32) -> (r: Graph)
        ensures
            r.root == root,
    {
        Graph { root }
    }

    /// Visit the subtree and collect every variable declaration in it, in
    /// pre-order.
    pub fn build(&self, dict: &Dictionary) -> (r: Vec<u32>)
        ensures
            r@ == collect_kinds(
                dict.deep_view().nodes,
                self.root,
                NodeKind::VariableDeclaration,
                NodeKind::VariableDeclaration,
                dict.nodes@.len(),
            ),
    {
        let mut r: Vec<u32> = Vec::new();
        walk_kinds(
            &dict.nodes,
            &mut r,
            self.root,
            NodeKind::VariableDeclaration,
            NodeKind::VariableDeclaration,
            dict.nodes.len(),
        );
        proof {
            assert(Seq::<u32>::empty() + collect_kinds(
                dict.deep_view().nodes,
                self.root,
                NodeKind::VariableDeclaration,
                NodeKind::VariableDeclaration,
                dict.nodes@.len(),
            ) =~= collect_kinds(
                dict.deep_view().nodes,
                self.root,
                NodeKind::VariableDeclaration,
                NodeKind::VariableDeclaration,
                dict.nodes@.len(),
            ));
        }
        r
    }
}

} // verus!

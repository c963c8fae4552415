use vstd::prelude::*;

use crate::vecset::{find_first, lemma_find_first_at, lemma_find_first_none};

verus! {

/// The AST node kinds that the analysis distinguishes.  Any other kind plays
/// no special role and is carried as `Other`.
#[derive(Debug, Clone, Copy, PartialEq, Eq, Structural, Hash)]
pub enum NodeKind {
    ContractDefinition,
    StructDefinition,
    InheritanceSpecifier,
    UsingForDirective,
    FunctionDefinition,
    ModifierDefinition,
    VariableDeclaration,
    ParameterList,
    VariableDeclarationStatement,
    Assignment,
    Identifier,
    IndexAccess,
    MemberAccess,
    FunctionCall,
    Return,
    PlaceholderStatement,
    ModifierInvocation,
    Other,
}

/// One node of the abstract syntax tree, held in an arena and pointing at its
/// children by node id.  The optional fields carry the node attributes that
/// the analysis reads; an absent attribute is `None`.
#[derive(Debug, Clone, PartialEq, Eq)]
pub struct AstNode {
    pub id: u32,
    pub kind: NodeKind,
    pub name: Option<String>,
    pub value: Option<String>,
    pub member_name: Option<String>,
    pub operator: Option<String>,
    pub type_str: Option<String>,
    pub referenced_declaration: Option<u32>,
    pub type_conversion: bool,
    pub children: Vec<u32>,
}

/// Mathematical value of an `AstNode`.
#[verifier::ext_equal]
pub struct NodeModel {
    pub id: u32,
    pub kind: NodeKind,
    pub name: Option<Seq<char>>,
    pub value: Option<Seq<char>>,
    pub member_name: Option<Seq<char>>,
    pub operator: Option<Seq<char>>,
    pub type_str: Option<Seq<char>>,
    pub referenced_declaration: Option<u32>,
    pub type_conversion: bool,
    pub children: Seq<u32>,
}

impl DeepView for AstNode {
    type V = NodeModel;

    open spec fn deep_view(&self) -> NodeModel {
        NodeModel {
            id: self.id,
            kind: self.kind,
            name: self.name.deep_view(),
            value: self.value.deep_view(),
            member_name: self.member_name.deep_view(),
            operator: self.operator.deep_view(),
            type_str: self.type_str.deep_view(),
            referenced_declaration: self.referenced_declaration,
            type_conversion: self.type_conversion,
            children: self.children@,
        }
    }
}

/// The node of the arena carrying `id`, if any: the first such node.
pub open spec fn find_node(nodes: Seq<NodeModel>, id: u32) -> Option<NodeModel> {
    find_first(nodes, |n: NodeModel| n.id == id)
}

/// Look a node up by id in an arena, by a front-to-back scan.
#[verifier::loop_isolation(false)]
pub fn lookup_node(nodes: &Vec<AstNode>, id: u32) -> (r: Option<&AstNode>)
    ensures
        match r {
            Some(n) => find_node(nodes.deep_view(), id) == Some(n.deep_view()),
            None => find_node(nodes.deep_view(), id) is None,
        },
{
    let ghost p = |n: NodeModel| n.id == id;
    let mut i: usize = 0;
    while i < nodes.len()
        invariant
            0 <= i <= nodes@.len(),
            forall|j: int| 0 <= j < i ==> !p(nodes.deep_view()[j]),
        decreases nodes@.len() - i,
    {
        if nodes[i].id == id {
            proof {
                lemma_find_first_at(nodes.deep_view(), p, i as int);
            }
            return Some(&nodes[i]);
        }
        i = i + 1;
    }
    proof {
        lemma_find_first_none(nodes.deep_view(), p);
    }
    None
}

} // verus!

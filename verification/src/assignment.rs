use vstd::prelude::*;

use crate::ast::{find_node, NodeKind};
use crate::dict::{collect_kinds, Dictionary, DictModel};
use crate::flatten::spec_parse_variables;
use crate::variable::{Variable, VariableModel};

verus! {

/// The operator of an assignment.  `Equal` is plain `=`: each written
/// variable is killed and only the right side is read.  `Other` covers the
/// compound operators (`+=`, `|=`, …): each written variable is killed and
/// then read as well, beside the right side.
#[derive(Debug, Clone, Copy, PartialEq, Eq, Structural)]
pub enum Operator {
    Equal,
    Other,
}

/// A statement that moves data: the variables written on the left, the
/// variables read on the right, and the operator between them.  Parameter
/// lists and declarations without initializer count as plain assignments
/// with an empty right side.
#[derive(Debug)]
pub struct Assignment {
    pub lhs: Vec<Variable>,
    pub rhs: Vec<Variable>,
    pub op: Operator,
}

/// Mathematical value of an `Assignment`.
#[verifier::ext_equal]
pub struct AssignmentModel {
    pub lhs: Seq<VariableModel>,
    pub rhs: Seq<VariableModel>,
    pub op: Operator,
}

impl DeepView for Assignment {
    type V = AssignmentModel;

    open spec fn deep_view(&self) -> AssignmentModel {
        AssignmentModel { lhs: self.lhs.deep_view(), rhs: self.rhs.deep_view(), op: self.op }
    }
}

/// What one assignment node yields: its first child as the written side,
/// its second (if present) as the read side, `Equal` unless another operator
/// is recorded.
pub open spec fn spec_parse_one(d: DictModel, id: u32) -> AssignmentModel {
    match find_node(d.nodes, id) {
        None => AssignmentModel { lhs: Seq::empty(), rhs: Seq::empty(), op: Operator::Equal },
        Some(n) => {
            let op = match n.operator {
                Some(o) => if o == "="@ {
                    Operator::Equal
                } else {
                    Operator::Other
                },
                None => Operator::Equal,
            };
            let lhs = if n.children.len() > 0 {
                spec_parse_variables(d, n.children[0])
            } else {
                Seq::empty()
            };
            let rhs = if n.children.len() >= 2 {
                spec_parse_variables(d, n.children[1])
            } else {
                Seq::empty()
            };
            AssignmentModel { lhs, rhs, op }
        },
    }
}

/// One parameter assignment per id of `ids[i..]`: the parameter is written,
/// nothing is read.
pub open spec fn spec_param_assignments(d: DictModel, ids: Seq<u32>, i: int) -> Seq<
    AssignmentModel,
>
    decreases ids.len() - i,
{
    if i < 0 || i >= ids.len() {
        Seq::empty()
    } else {
        seq![
            AssignmentModel {
                lhs: spec_parse_variables(d, ids[i]),
                rhs: Seq::empty(),
                op: Operator::Equal,
            },
        ] + spec_param_assignments(d, ids, i + 1)
    }
}

/// One parsed assignment per id of `ids[i..]`.
pub open spec fn spec_assignments_of(d: DictModel, ids: Seq<u32>, i: int) -> Seq<AssignmentModel>
    decreases ids.len() - i,
{
    if i < 0 || i >= ids.len() {
        Seq::empty()
    } else {
        seq![spec_parse_one(d, ids[i])] + spec_assignments_of(d, ids, i + 1)
    }
}

/// What `Assignment::parse` returns for the node `id`: a declaration is one
/// write with no read, a parameter list is one write per parameter, a local
/// declaration statement is parsed as one assignment, and any other node
/// contributes one assignment per assignment node in its subtree.
pub open spec fn spec_parse_assignments(d: DictModel, id: u32) -> Seq<AssignmentModel> {
    match find_node(d.nodes, id) {
        None => Seq::empty(),
        Some(n) => match n.kind {
            NodeKind::VariableDeclaration => seq![
                AssignmentModel {
                    lhs: spec_parse_variables(d, id),
                    rhs: Seq::empty(),
                    op: Operator::Equal,
                },
            ],
            NodeKind::ParameterList => spec_param_assignments(d, n.children, 0),
            NodeKind::VariableDeclarationStatement => seq![spec_parse_one(d, id)],
            _ => spec_assignments_of(
                d,
                collect_kinds(d.nodes, id, NodeKind::Assignment, NodeKind::Assignment, d.nodes.len()),
                0,
            ),
        },
    }
}

impl Assignment {
    /// The written side, the read side and the operator.
    pub fn to_tuple(&self) -> (r: (&Vec<Variable>, &Vec<Variable>, &Operator))
        ensures
            r.0.deep_view() == self.deep_view().lhs,
            r.1.deep_view() == self.deep_view().rhs,
            *r.2 == self.deep_view().op,
    {
        (&self.lhs, &self.rhs, &self.op)
    }

    /// Parse one assignment node.
    fn parse_one(dict: &Dictionary, id: u32) -> (r: Assignment)
        ensures
            r.deep_view() == spec_parse_one(dict.deep_view(), id),
    {
        let n = match dict.lookup(id) {
            None => {
                let r = Assignment { lhs: Vec::new(), rhs: Vec::new(), op: Operator::Equal };
                proof {
                    assert(r.deep_view() =~~= spec_parse_one(dict.deep_view(), id));
                }
                return r;
            },
            Some(n) => n,
        };
        let op = match &n.operator {
            Some(o) => if crate::strutil::str_slice_eq(o.as_str(), "=") {
                Operator::Equal
            } else {
                Operator::Other
            },
            None => Operator::Equal,
        };
        let lhs = if n.children.len() > 0 {
            Variable::parse(dict, n.children[0])
        } else {
            Vec::new()
        };
        let rhs = if n.children.len() >= 2 {
            Variable::parse(dict, n.children[1])
        } else {
            Vec::new()
        };
        let r = Assignment { lhs, rhs, op };
        proof {
            assert(r.deep_view() =~~= spec_parse_one(dict.deep_view(), id));
        }
        r
    }

    /// Find all assignments in the statement rooted at `id`.
    #[verifier::loop_isolation(false)]
    pub fn parse(dict: &Dictionary, id: u32) -> (r: Vec<Assignment>)
        ensures
            r.deep_view() == spec_parse_assignments(dict.deep_view(), id),
    {
        let ghost dv = dict.deep_view();
        let mut r: Vec<Assignment> = Vec::new();
        proof {
            assert(r.deep_view() =~~= Seq::<AssignmentModel>::empty());
        }
        let n = match dict.lookup(id) {
            None => {
                return r;
            },
            Some(n) => n,
        };
        match n.kind {
            NodeKind::VariableDeclaration => {
                r.push(
                    Assignment {
                        lhs: Variable::parse(dict, id),
                        rhs: Vec::new(),
                        op: Operator::Equal,
                    },
                );
                proof {
                    assert(r.deep_view() =~~= spec_parse_assignments(dv, id));
                }
            },
            NodeKind::ParameterList => {
                let ghost ids = n.deep_view().children;
                let ghost mut done: Seq<AssignmentModel> = Seq::empty();
                let mut i: usize = 0;
                while i < n.children.len()
                    invariant
                        0 <= i <= ids.len(),
                        r.deep_view() == done,
                        spec_param_assignments(dv, ids, 0) == done + spec_param_assignments(
                            dv,
                            ids,
                            i as int,
                        ),
                    decreases ids.len() - i,
                {
                    r.push(
                        Assignment {
                            lhs: Variable::parse(dict, n.children[i]),
                            rhs: Vec::new(),
                            op: Operator::Equal,
                        },
                    );
                    proof {
                        done = done + seq![
                            AssignmentModel {
                                lhs: spec_parse_variables(dv, ids[i as int]),
                                rhs: Seq::empty(),
                                op: Operator::Equal,
                            },
                        ];
                        assert(r.deep_view() =~~= done);
                        assert(spec_param_assignments(dv, ids, 0) =~~= done
                            + spec_param_assignments(dv, ids, i + 1));
                    }
                    i = i + 1;
                }
                proof {
                    assert(spec_param_assignments(dv, ids, ids.len() as int) =~~= Seq::<
                        AssignmentModel,
                    >::empty());
                    assert(r.deep_view() =~~= done + Seq::<AssignmentModel>::empty());
                }
            },
            NodeKind::VariableDeclarationStatement => {
                r.push(Assignment::parse_one(dict, id));
                proof {
                    assert(r.deep_view() =~~= spec_parse_assignments(dv, id));
                }
            },
            _ => {
                let mut sites: Vec<u32> = Vec::new();
                crate::dict::walk_kinds(
                    &dict.nodes,
                    &mut sites,
                    id,
                    NodeKind::Assignment,
                    NodeKind::Assignment,
                    dict.nodes.len(),
                );
                let ghost ids = sites@;
                let ghost mut done: Seq<AssignmentModel> = Seq::empty();
                let mut i: usize = 0;
                while i < sites.len()
                    invariant
                        0 <= i <= ids.len(),
                        r.deep_view() == done,
                        spec_assignments_of(dv, ids, 0) == done + spec_assignments_of(
                            dv,
                            ids,
                            i as int,
                        ),
                    decreases ids.len() - i,
                {
                    r.push(Assignment::parse_one(dict, sites[i]));
                    proof {
                        done = done + seq![spec_parse_one(dv, ids[i as int])];
                        assert(r.deep_view() =~~= done);
                        assert(spec_assignments_of(dv, ids, 0) =~~= done + spec_assignments_of(
                            dv,
                            ids,
                            i + 1,
                        ));
                    }
                    i = i + 1;
                }
                proof {
                    assert(spec_assignments_of(dv, ids, ids.len() as int) =~~= Seq::<
                        AssignmentModel,
                    >::empty());
                    assert(r.deep_view() =~~= done + Seq::<AssignmentModel>::empty());
                }
            },
        }
        r
    }
}

} // verus!

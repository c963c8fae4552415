use vstd::prelude::*;

use crate::assignment::{spec_parse_assignments, Assignment};
use crate::ast::find_node;
use crate::dict::{Dictionary, DictModel};
use crate::flatten::spec_parse_variables;
use crate::variable::{Variable, VariableModel};
use crate::vecset::{extend_unique, lemma_extend_unique_concat, push_unique, remove_first};
use crate::vecset::{lemma_remove_first_at, lemma_remove_first_none};

verus! {

/// What a statement does to a variable at a CFG vertex: read it (`Use`) or
/// overwrite it (`Kill`).
#[derive(Debug, Clone, PartialEq, Eq, Hash)]
pub enum Action {
    Use(Variable, u32),
    Kill(Variable, u32),
}

/// Mathematical value of an `Action`.
#[verifier::ext_equal]
pub enum ActionModel {
    Use(VariableModel, u32),
    Kill(VariableModel, u32),
}

impl DeepView for Action {
    type V = ActionModel;

    open spec fn deep_view(&self) -> ActionModel {
        match self {
            Action::Use(v, id) => ActionModel::Use(v.deep_view(), *id),
            Action::Kill(v, id) => ActionModel::Kill(v.deep_view(), *id),
        }
    }
}

impl Action {
    /// Copy this action.
    pub fn duplicate(&self) -> (r: Action)
        ensures
            r.deep_view() == self.deep_view(),
    {
        match self {
            Action::Use(v, id) => Action::Use(v.duplicate(), *id),
            Action::Kill(v, id) => Action::Kill(v.duplicate(), *id),
        }
    }

    /// Whether this action equals another, field for field.
    pub fn same_as(&self, other: &Action) -> (r: bool)
        ensures
            r <==> self.deep_view() == other.deep_view(),
    {
        match (self, other) {
            (Action::Use(a, x), Action::Use(b, y)) => x == y && a.same_as(b),
            (Action::Kill(a, x), Action::Kill(b, y)) => x == y && a.same_as(b),
            _ => false,
        }
    }
}

/// Whether an equal action is already in the list.
#[verifier::loop_isolation(false)]
pub fn actions_contain(vs: &Vec<Action>, v: &Action) -> (r: bool)
    ensures
        r <==> vs.deep_view().contains(v.deep_view()),
{
    let mut i: usize = 0;
    while i < vs.len()
        invariant
            0 <= i <= vs@.len(),
            forall|j: int| 0 <= j < i ==> vs.deep_view()[j] != v.deep_view(),
        decreases vs@.len() - i,
    {
        if vs[i].same_as(v) {
            assert(vs.deep_view()[i as int] == v.deep_view());
            return true;
        }
        i = i + 1;
    }
    false
}

/// Add an action unless it is already there.
pub fn actions_insert_unique(vs: &mut Vec<Action>, v: Action)
    ensures
        final(vs).deep_view() == push_unique(old(vs).deep_view(), v.deep_view()),
{
    if !actions_contain(vs, &v) {
        let ghost pre = vs.deep_view();
        let ghost dv = v.deep_view();
        vs.push(v);
        proof {
            assert(vs.deep_view() =~~= pre.push(dv));
        }
    }
}

/// Add every action of `t`, in order and without duplicates.
#[verifier::loop_isolation(false)]
pub fn actions_extend_unique(vs: &mut Vec<Action>, t: &Vec<Action>)
    ensures
        final(vs).deep_view() == extend_unique(old(vs).deep_view(), t.deep_view()),
{
    let ghost orig = vs.deep_view();
    let mut i: usize = 0;
    while i < t.len()
        invariant
            0 <= i <= t@.len(),
            vs.deep_view() == extend_unique(orig, t.deep_view().take(i as int)),
        decreases t@.len() - i,
    {
        actions_insert_unique(vs, t[i].duplicate());
        proof {
            crate::vecset::lemma_extend_unique_snoc(
                orig,
                t.deep_view().take(i as int),
                t.deep_view()[i as int],
            );
            assert(t.deep_view().take(i as int).push(t.deep_view()[i as int]) =~~= t.deep_view().take(
                i + 1,
            ));
        }
        i = i + 1;
    }
    proof {
        assert(t.deep_view().take(t@.len() as int) =~~= t.deep_view());
    }
}

/// Copy a list of actions.
#[verifier::loop_isolation(false)]
pub fn dup_actions(v: &Vec<Action>) -> (r: Vec<Action>)
    ensures
        r.deep_view() == v.deep_view(),
{
    let mut r: Vec<Action> = Vec::new();
    let mut i: usize = 0;
    while i < v.len()
        invariant
            0 <= i <= v@.len(),
            r@.len() == i,
            forall|j: int| 0 <= j < i ==> r.deep_view()[j] == v.deep_view()[j],
        decreases v@.len() - i,
    {
        r.push(v[i].duplicate());
        i = i + 1;
    }
    proof {
        assert(r.deep_view() =~~= v.deep_view());
    }
    r
}

/// Remove the first action equal to `v`, if any.
#[verifier::loop_isolation(false)]
pub fn actions_remove(vs: &mut Vec<Action>, v: &Action)
    ensures
        final(vs).deep_view() == remove_first(old(vs).deep_view(), v.deep_view()),
{
    let mut i: usize = 0;
    while i < vs.len()
        invariant
            0 <= i <= vs@.len(),
            vs@ == old(vs)@,
            forall|j: int| 0 <= j < i ==> vs.deep_view()[j] != v.deep_view(),
        decreases vs@.len() - i,
    {
        if vs[i].same_as(v) {
            proof {
                lemma_remove_first_at(vs.deep_view(), v.deep_view(), i as int);
            }
            let ghost pre = vs.deep_view();
            vs.remove(i);
            proof {
                assert(vs.deep_view() =~~= pre.take(i as int) + pre.skip(i + 1));
            }
            return ;
        }
        i = i + 1;
    }
    proof {
        lemma_remove_first_none(vs.deep_view(), v.deep_view());
    }
}

/// The variables of the arguments `ids[i..]`, in order, duplicates kept.
pub open spec fn params_vars_from(d: DictModel, ids: Seq<u32>, i: int) -> Seq<VariableModel>
    decreases ids.len() - i,
{
    if i < 0 || i >= ids.len() {
        Seq::empty()
    } else {
        spec_parse_variables(d, ids[i]) + params_vars_from(d, ids, i + 1)
    }
}

/// What `find_parameters` returns for a call node `id`: the variables of
/// every child after the callee, first occurrences kept.
pub open spec fn spec_find_parameters(d: DictModel, id: u32) -> Seq<VariableModel> {
    match find_node(d.nodes, id) {
        None => Seq::empty(),
        Some(n) => {
            if n.children.len() == 0 {
                Seq::empty()
            } else {
                extend_unique(
                    Seq::<VariableModel>::empty(),
                    params_vars_from(d, n.children, 1),
                )
            }
        },
    }
}

/// Extracts the data-flow facts of single AST nodes: the assignments of a
/// statement, the variables of an expression, the argument variables of a
/// call.
pub struct DataFlowGraph {}

impl DataFlowGraph {
    /// A fresh extractor.
    pub fn new() -> (r: DataFlowGraph) {
        DataFlowGraph {}
    }

    /// The assignments of the statement rooted at `id`.
    pub fn find_assignments(&self, id: u32, dict: &Dictionary) -> (r: Vec<Assignment>)
        ensures
            r.deep_view() == spec_parse_assignments(dict.deep_view(), id),
    {
        Assignment::parse(dict, id)
    }

    /// The variables of the expression rooted at `id`.
    pub fn find_variables(&self, id: u32, dict: &Dictionary) -> (r: Vec<Variable>)
        ensures
            r.deep_view() == spec_parse_variables(dict.deep_view(), id),
    {
        Variable::parse(dict, id)
    }

    /// The variables of the arguments of the call rooted at `id`: every
    /// direct child after the callee contributes its variables.
    #[verifier::loop_isolation(false)]
    pub fn find_parameters(&self, id: u32, dict: &Dictionary) -> (r: Vec<Variable>)
        ensures
            r.deep_view() == spec_find_parameters(dict.deep_view(), id),
    {
        let ghost dv = dict.deep_view();
        let mut acc: Vec<Variable> = Vec::new();
        proof {
            assert(acc.deep_view() =~~= Seq::<VariableModel>::empty());
        }
        let n = match dict.lookup(id) {
            None => {
                return acc;
            },
            Some(n) => n,
        };
        if n.children.len() == 0 {
            return acc;
        }
        let ghost ids = n.deep_view().children;
        let ghost mut done: Seq<VariableModel> = Seq::empty();
        let mut i: usize = 1;
        while i < n.children.len()
            invariant
                1 <= i <= ids.len(),
                acc.deep_view() == extend_unique(Seq::<VariableModel>::empty(), done),
                params_vars_from(dv, ids, 1) == done + params_vars_from(dv, ids, i as int),
            decreases ids.len() - i,
        {
            let vars = Variable::parse(dict, n.children[i]);
            crate::variable::vars_extend_unique(&mut acc, &vars);
            proof {
                let step = spec_parse_variables(dv, ids[i as int]);
                lemma_extend_unique_concat(Seq::<VariableModel>::empty(), done, step);
                done = done + step;
                assert(params_vars_from(dv, ids, 1) =~~= done + params_vars_from(dv, ids, i + 1));
            }
            i = i + 1;
        }
        proof {
            assert(params_vars_from(dv, ids, ids.len() as int) =~~= Seq::<VariableModel>::empty());
            assert(done + Seq::<VariableModel>::empty() =~~= done);
        }
        acc
    }
}

} // verus!

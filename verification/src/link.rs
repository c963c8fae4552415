use vstd::prelude::*;

use crate::variable::{Variable, VariableModel};
use crate::vecset::{extend_unique, push_unique};

verus! {

/// A data-dependency edge of the network: from a (variable, vertex) pair to
/// another, labeled with a variable.  Two links are the same only when all
/// three parts agree.
#[derive(Debug, PartialEq, Eq, Hash)]
pub struct DataLink {
    pub from: (Variable, u32),
    pub to: (Variable, u32),
    pub var: Variable,
}

/// Mathematical value of a `DataLink`.
#[verifier::ext_equal]
pub struct LinkModel {
    pub from: (VariableModel, u32),
    pub to: (VariableModel, u32),
    pub var: VariableModel,
}

impl DeepView for DataLink {
    type V = LinkModel;

    open spec fn deep_view(&self) -> LinkModel {
        LinkModel {
            from: (self.from.0.deep_view(), self.from.1),
            to: (self.to.0.deep_view(), self.to.1),
            var: self.var.deep_view(),
        }
    }
}

/// The link that one variable induces between two vertices: both endpoints
/// carry the variable, which is also the label.
pub open spec fn link_model_of(from: u32, to: u32, var: VariableModel) -> LinkModel {
    LinkModel { from: (var, from), to: (var, to), var }
}

impl DataLink {
    /// A link carrying `var` from vertex `from` to vertex `to`.
    pub fn new(from: u32, to: u32, var: Variable) -> (r: DataLink)
        ensures
            r.deep_view() == link_model_of(from, to, var.deep_view()),
    {
        let a = var.duplicate();
        let b = var.duplicate();
        DataLink { from: (a, from), to: (b, to), var }
    }

    /// The source endpoint.
    pub fn get_from(&self) -> (r: &(Variable, u32))
        ensures
            r.0.deep_view() == self.deep_view().from.0,
            r.1 == self.deep_view().from.1,
    {
        &self.from
    }

    /// The sink endpoint.
    pub fn get_to(&self) -> (r: &(Variable, u32))
        ensures
            r.0.deep_view() == self.deep_view().to.0,
            r.1 == self.deep_view().to.1,
    {
        &self.to
    }

    /// Copy this link.
    pub fn duplicate(&self) -> (r: DataLink)
        ensures
            r.deep_view() == self.deep_view(),
    {
        DataLink {
            from: (self.from.0.duplicate(), self.from.1),
            to: (self.to.0.duplicate(), self.to.1),
            var: self.var.duplicate(),
        }
    }

    /// Whether this link equals another, part for part.
    pub fn same_as(&self, other: &DataLink) -> (r: bool)
        ensures
            r <==> self.deep_view() == other.deep_view(),
    {
        self.from.1 == other.from.1 && self.to.1 == other.to.1 && self.from.0.same_as(&other.from.0)
            && self.to.0.same_as(&other.to.0) && self.var.same_as(&other.var)
    }
}

/// Whether an equal link is already in the list.
#[verifier::loop_isolation(false)]
pub fn links_contain(vs: &Vec<DataLink>, v: &DataLink) -> (r: bool)
    ensures
        r <==> vs.deep_view().contains(v.deep_view()),
{
    let mut i: usize = 0;
    while i < vs.len()
        invariant
            0 <= i <= vs@.len(),
            forall|j: int| 0 <= j < i ==> vs.deep_view()[j] != v.deep_view(),
        decreases vs@.len() - i,
    {
        if vs[i].same_as(v) {
            assert(vs.deep_view()[i as int] == v.deep_view());
            return true;
        }
        i = i + 1;
    }
    false
}

/// Add a link unless it is already there.
pub fn links_insert_unique(vs: &mut Vec<DataLink>, v: DataLink)
    ensures
        final(vs).deep_view() == push_unique(old(vs).deep_view(), v.deep_view()),
{
    if !links_contain(vs, &v) {
        let ghost pre = vs.deep_view();
        let ghost dv = v.deep_view();
        vs.push(v);
        proof {
            assert(vs.deep_view() =~~= pre.push(dv));
        }
    }
}

/// Add every link of `t`, in order and without duplicates.
#[verifier::loop_isolation(false)]
pub fn links_extend_unique(vs: &mut Vec<DataLink>, t: &Vec<DataLink>)
    ensures
        final(vs).deep_view() == extend_unique(old(vs).deep_view(), t.deep_view()),
{
    let ghost orig = vs.deep_view();
    let mut i: usize = 0;
    while i < t.len()
        invariant
            0 <= i <= t@.len(),
            vs.deep_view() == extend_unique(orig, t.deep_view().take(i as int)),
        decreases t@.len() - i,
    {
        links_insert_unique(vs, t[i].duplicate());
        proof {
            crate::vecset::lemma_extend_unique_snoc(
                orig,
                t.deep_view().take(i as int),
                t.deep_view()[i as int],
            );
            assert(t.deep_view().take(i as int).push(t.deep_view()[i as int]) =~~= t.deep_view().take(
                i + 1,
            ));
        }
        i = i + 1;
    }
    proof {
        assert(t.deep_view().take(t@.len() as int) =~~= t.deep_view());
    }
}

} // verus!

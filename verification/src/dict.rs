use vstd::prelude::*;

use crate::ast::{find_node, lookup_node, AstNode, NodeKind, NodeModel};
use crate::vecset::{find_first, lemma_find_first_at, lemma_find_first_none};

verus! {

/// Per contract: its state variable declarations, its function and modifier
/// definitions, and the contracts it inherits from or uses as libraries.
#[derive(Debug, Clone, PartialEq, Eq)]
pub struct ContractProp {
    pub states: Vec<u32>,
    pub functions: Vec<u32>,
    pub parents: Vec<u32>,
}

/// Mathematical value of a `ContractProp`.
#[verifier::ext_equal]
pub struct PropModel {
    pub states: Seq<u32>,
    pub functions: Seq<u32>,
    pub parents: Seq<u32>,
}

impl DeepView for ContractProp {
    type V = PropModel;

    open spec fn deep_view(&self) -> PropModel {
        PropModel { states: self.states@, functions: self.functions@, parents: self.parents@ }
    }
}

impl PropModel {
    /// A property record with nothing collected yet.
    pub open spec fn empty() -> PropModel {
        PropModel { states: Seq::empty(), functions: Seq::empty(), parents: Seq::empty() }
    }
}

/// What one direct child of a contract definition contributes to its
/// property record.
pub open spec fn prop_step(nodes: Seq<NodeModel>, child: u32) -> PropModel {
    match find_node(nodes, child) {
        None => PropModel::empty(),
        Some(n) => match n.kind {
            NodeKind::InheritanceSpecifier | NodeKind::UsingForDirective => {
                if n.children.len() > 0 {
                    match find_node(nodes, n.children[0]) {
                        Some(first) => match first.referenced_declaration {
                            Some(r) => PropModel {
                                states: Seq::empty(),
                                functions: Seq::empty(),
                                parents: seq![r],
                            },
                            None => PropModel::empty(),
                        },
                        None => PropModel::empty(),
                    }
                } else {
                    PropModel::empty()
                }
            },
            NodeKind::FunctionDefinition | NodeKind::ModifierDefinition => PropModel {
                states: Seq::empty(),
                functions: seq![n.id],
                parents: Seq::empty(),
            },
            NodeKind::VariableDeclaration => PropModel {
                states: seq![n.id],
                functions: Seq::empty(),
                parents: Seq::empty(),
            },
            _ => PropModel::empty(),
        },
    }
}

/// The property record contributed by the children from position `i` on.
pub open spec fn prop_from(nodes: Seq<NodeModel>, children: Seq<u32>, i: int) -> PropModel
    decreases children.len() - i,
{
    if i < 0 || i >= children.len() {
        PropModel::empty()
    } else {
        let head = prop_step(nodes, children[i]);
        let rest = prop_from(nodes, children, i + 1);
        PropModel {
            states: head.states + rest.states,
            functions: head.functions + rest.functions,
            parents: head.parents + rest.parents,
        }
    }
}

/// The property record of a contract definition node.
pub open spec fn spec_prop_of(nodes: Seq<NodeModel>, n: NodeModel) -> PropModel {
    prop_from(nodes, n.children, 0)
}

/// Build the property record of a contract definition node from its direct
/// children.
#[verifier::loop_isolation(false)]
fn prop_of(nodes: &Vec<AstNode>, n: &AstNode) -> (r: ContractProp)
    ensures
        r.deep_view() == spec_prop_of(nodes.deep_view(), n.deep_view()),
{
    let mut states: Vec<u32> = Vec::new();
    let mut functions: Vec<u32> = Vec::new();
    let mut parents: Vec<u32> = Vec::new();
    let mut i: usize = 0;
    while i < n.children.len()
        invariant
            0 <= i <= n.children@.len(),
            spec_prop_of(nodes.deep_view(), n.deep_view()) == (PropModel {
                states: states@ + prop_from(nodes.deep_view(), n.children@, i as int).states,
                functions: functions@ + prop_from(nodes.deep_view(), n.children@, i as int).functions,
                parents: parents@ + prop_from(nodes.deep_view(), n.children@, i as int).parents,
            }),
        decreases n.children@.len() - i,
    {
        let ghost pre_states = states@;
        let ghost pre_functions = functions@;
        let ghost pre_parents = parents@;
        let child = n.children[i];
        match lookup_node(nodes, child) {
            None => {},
            Some(c) => {
                match c.kind {
                    NodeKind::InheritanceSpecifier | NodeKind::UsingForDirective => {
                        if c.children.len() > 0 {
                            match lookup_node(nodes, c.children[0]) {
                                Some(first) => {
                                    match first.referenced_declaration {
                                        Some(r) => {
                                            parents.push(r);
                                        },
                                        None => {},
                                    }
                                },
                                None => {},
                            }
                        }
                    },
                    NodeKind::FunctionDefinition | NodeKind::ModifierDefinition => {
                        functions.push(c.id);
                    },
                    NodeKind::VariableDeclaration => {
                        states.push(c.id);
                    },
                    _ => {},
                }
            },
        }
        proof {
            let step = prop_step(nodes.deep_view(), n.children@[i as int]);
            assert(states@ =~= pre_states + step.states);
            assert(functions@ =~= pre_functions + step.functions);
            assert(parents@ =~= pre_parents + step.parents);
            assert(pre_states + prop_from(nodes.deep_view(), n.children@, i as int).states
                =~= states@ + prop_from(nodes.deep_view(), n.children@, i + 1).states);
            assert(pre_functions + prop_from(nodes.deep_view(), n.children@, i as int).functions
                =~= functions@ + prop_from(nodes.deep_view(), n.children@, i + 1).functions);
            assert(pre_parents + prop_from(nodes.deep_view(), n.children@, i as int).parents
                =~= parents@ + prop_from(nodes.deep_view(), n.children@, i + 1).parents);
        }
        i = i + 1;
    }
    ContractProp { states, functions, parents }
}

/// The contract records found in the subtree rooted at `id`, in pre-order:
/// the node itself first, then its children left to right.  `fuel` bounds the
/// walking depth.
pub open spec fn collect_contracts(nodes: Seq<NodeModel>, id: u32, fuel: nat) -> Seq<
    (u32, PropModel),
>
    decreases fuel, 0int,
{
    if fuel == 0 {
        Seq::empty()
    } else {
        match find_node(nodes, id) {
            None => Seq::empty(),
            Some(n) => {
                let own: Seq<(u32, PropModel)> = if n.kind == NodeKind::ContractDefinition {
                    seq![(n.id, spec_prop_of(nodes, n))]
                } else {
                    Seq::empty()
                };
                own + collect_contracts_list(nodes, n.children, 0, (fuel - 1) as nat)
            },
        }
    }
}

/// The contract records found under the children from position `i` on.
pub open spec fn collect_contracts_list(
    nodes: Seq<NodeModel>,
    ids: Seq<u32>,
    i: int,
    fuel: nat,
) -> Seq<(u32, PropModel)>
    decreases fuel, ids.len() - i + 1,
{
    if i < 0 || i >= ids.len() {
        Seq::empty()
    } else {
        collect_contracts(nodes, ids[i], fuel) + collect_contracts_list(nodes, ids, i + 1, fuel)
    }
}

/// Walk the subtree rooted at `id` and append every contract record found.
#[verifier::loop_isolation(false)]
fn walk_contracts(
    nodes: &Vec<AstNode>,
    acc: &mut Vec<(u32, ContractProp)>,
    id: u32,
    fuel: usize,
)
    ensures
        final(acc).deep_view() == old(acc).deep_view() + collect_contracts(
            nodes.deep_view(),
            id,
            fuel as nat,
        ),
    decreases fuel,
{
    if fuel == 0 {
        proof {
            assert(acc.deep_view() =~= acc.deep_view() + Seq::empty());
        }
        return ;
    }
    let n = match lookup_node(nodes, id) {
        None => {
            proof {
                assert(acc.deep_view() =~= acc.deep_view() + Seq::empty());
            }
            return ;
        },
        Some(n) => n,
    };
    let ghost base = acc.deep_view();
    let ghost dn = n.deep_view();
    let ghost own: Seq<(u32, PropModel)> = if dn.kind == NodeKind::ContractDefinition {
        seq![(dn.id, spec_prop_of(nodes.deep_view(), dn))]
    } else {
        Seq::empty()
    };
    if n.kind == NodeKind::ContractDefinition {
        let prop = prop_of(nodes, n);
        acc.push((n.id, prop));
        proof {
            assert(acc.deep_view() =~= base + own);
        }
    } else {
        proof {
            assert(acc.deep_view() =~= base + own);
        }
    }
    let ghost f1 = (fuel - 1) as nat;
    let ghost mut done: Seq<(u32, PropModel)> = Seq::empty();
    let children = &n.children;
    let mut i: usize = 0;
    while i < children.len()
        invariant
            0 <= i <= children@.len(),
            acc.deep_view() == base + own + done,
            collect_contracts_list(nodes.deep_view(), dn.children, 0, f1) == done
                + collect_contracts_list(nodes.deep_view(), dn.children, i as int, f1),
        decreases children@.len() - i,
    {
        let ghost pre = acc.deep_view();
        walk_contracts(nodes, acc, children[i], fuel - 1);
        proof {
            let step = collect_contracts(nodes.deep_view(), dn.children[i as int], f1);
            assert(collect_contracts_list(nodes.deep_view(), dn.children, i as int, f1) == step
                + collect_contracts_list(nodes.deep_view(), dn.children, i + 1, f1));
            done = done + step;
            assert(acc.deep_view() =~= base + own + done);
            assert(collect_contracts_list(nodes.deep_view(), dn.children, 0, f1) =~= done
                + collect_contracts_list(nodes.deep_view(), dn.children, i + 1, f1));
        }
        i = i + 1;
    }
    proof {
        assert(collect_contracts_list(nodes.deep_view(), dn.children, children@.len() as int, f1)
            =~= Seq::<(u32, PropModel)>::empty());
        assert(acc.deep_view() =~= base + (own + collect_contracts_list(
            nodes.deep_view(),
            dn.children,
            0,
            f1,
        )));
        assert(collect_contracts(nodes.deep_view(), id, fuel as nat) == own
            + collect_contracts_list(nodes.deep_view(), dn.children, 0, f1));
    }
}

/// The ids of the nodes of the subtree rooted at `id` whose kind is `k1` or
/// `k2`, in pre-order; `fuel` bounds the walking depth.
pub open spec fn collect_kinds(
    nodes: Seq<NodeModel>,
    id: u32,
    k1: NodeKind,
    k2: NodeKind,
    fuel: nat,
) -> Seq<u32>
    decreases fuel, 0int,
{
    if fuel == 0 {
        Seq::empty()
    } else {
        match find_node(nodes, id) {
            None => Seq::empty(),
            Some(n) => {
                let own: Seq<u32> = if n.kind == k1 || n.kind == k2 {
                    seq![n.id]
                } else {
                    Seq::empty()
                };
                own + collect_kinds_list(nodes, n.children, 0, k1, k2, (fuel - 1) as nat)
            },
        }
    }
}

/// The matching ids found under the children from position `i` on.
pub open spec fn collect_kinds_list(
    nodes: Seq<NodeModel>,
    ids: Seq<u32>,
    i: int,
    k1: NodeKind,
    k2: NodeKind,
    fuel: nat,
) -> Seq<u32>
    decreases fuel, ids.len() - i + 1,
{
    if i < 0 || i >= ids.len() {
        Seq::empty()
    } else {
        collect_kinds(nodes, ids[i], k1, k2, fuel) + collect_kinds_list(
            nodes,
            ids,
            i + 1,
            k1,
            k2,
            fuel,
        )
    }
}

/// Walk the subtree rooted at `id` and append the ids of the nodes whose
/// kind is `k1` or `k2`.
#[verifier::loop_isolation(false)]
pub fn walk_kinds(
    nodes: &Vec<AstNode>,
    acc: &mut Vec<u32>,
    id: u32,
    k1: NodeKind,
    k2: NodeKind,
    fuel: usize,
)
    ensures
        final(acc)@ == old(acc)@ + collect_kinds(nodes.deep_view(), id, k1, k2, fuel as nat),
    decreases fuel,
{
    if fuel == 0 {
        proof {
            assert(acc@ =~= acc@ + Seq::<u32>::empty());
        }
        return ;
    }
    let n = match lookup_node(nodes, id) {
        None => {
            proof {
                assert(acc@ =~= acc@ + Seq::<u32>::empty());
            }
            return ;
        },
        Some(n) => n,
    };
    let ghost base = acc@;
    let ghost dn = n.deep_view();
    let ghost own: Seq<u32> = if dn.kind == k1 || dn.kind == k2 {
        seq![dn.id]
    } else {
        Seq::empty()
    };
    if n.kind == k1 || n.kind == k2 {
        acc.push(n.id);
    }
    proof {
        assert(acc@ =~= base + own);
    }
    let ghost f1 = (fuel - 1) as nat;
    let ghost mut done: Seq<u32> = Seq::empty();
    let children = &n.children;
    let mut i: usize = 0;
    while i < children.len()
        invariant
            0 <= i <= children@.len(),
            acc@ == base + own + done,
            collect_kinds_list(nodes.deep_view(), dn.children, 0, k1, k2, f1) == done
                + collect_kinds_list(nodes.deep_view(), dn.children, i as int, k1, k2, f1),
        decreases children@.len() - i,
    {
        walk_kinds(nodes, acc, children[i], k1, k2, fuel - 1);
        proof {
            let step = collect_kinds(nodes.deep_view(), dn.children[i as int], k1, k2, f1);
            done = done + step;
            assert(acc@ =~= base + own + done);
            assert(collect_kinds_list(nodes.deep_view(), dn.children, 0, k1, k2, f1) =~= done
                + collect_kinds_list(nodes.deep_view(), dn.children, i + 1, k1, k2, f1));
        }
        i = i + 1;
    }
    proof {
        assert(collect_kinds_list(nodes.deep_view(), dn.children, children@.len() as int, k1, k2, f1)
            =~= Seq::<u32>::empty());
        assert(acc@ =~= base + (own + collect_kinds_list(
            nodes.deep_view(),
            dn.children,
            0,
            k1,
            k2,
            f1,
        )));
    }
}

/// Only the ids that the arena resolves, from position `i` on.
pub open spec fn present_from(nodes: Seq<NodeModel>, ids: Seq<u32>, i: int) -> Seq<u32>
    decreases ids.len() - i,
{
    if i < 0 || i >= ids.len() {
        Seq::empty()
    } else {
        let rest = present_from(nodes, ids, i + 1);
        if find_node(nodes, ids[i]) is Some {
            seq![ids[i]] + rest
        } else {
            rest
        }
    }
}

/// Keep only the ids that the arena resolves.
#[verifier::loop_isolation(false)]
fn filter_present(nodes: &Vec<AstNode>, ids: &Vec<u32>) -> (r: Vec<u32>)
    ensures
        r@ == present_from(nodes.deep_view(), ids@, 0),
{
    let mut r: Vec<u32> = Vec::new();
    let mut i: usize = 0;
    while i < ids.len()
        invariant
            0 <= i <= ids@.len(),
            present_from(nodes.deep_view(), ids@, 0) == r@ + present_from(
                nodes.deep_view(),
                ids@,
                i as int,
            ),
        decreases ids@.len() - i,
    {
        let ghost pre = r@;
        if lookup_node(nodes, ids[i]).is_some() {
            r.push(ids[i]);
            proof {
                assert(pre + present_from(nodes.deep_view(), ids@, i as int) =~= r@ + present_from(
                    nodes.deep_view(),
                    ids@,
                    i + 1,
                ));
            }
        } else {
            proof {
                assert(pre + present_from(nodes.deep_view(), ids@, i as int) =~= r@ + present_from(
                    nodes.deep_view(),
                    ids@,
                    i + 1,
                ));
            }
        }
        i = i + 1;
    }
    proof {
        assert(present_from(nodes.deep_view(), ids@, ids@.len() as int) =~= Seq::<u32>::empty());
        assert(r@ + Seq::<u32>::empty() =~= r@);
    }
    r
}

/// Whether a plain id list holds `x`.
#[verifier::loop_isolation(false)]
pub fn ids_contain(v: &Vec<u32>, x: u32) -> (r: bool)
    ensures
        r <==> v@.contains(x),
{
    let mut i: usize = 0;
    while i < v.len()
        invariant
            0 <= i <= v@.len(),
            forall|j: int| 0 <= j < i ==> v@[j] != x,
        decreases v@.len() - i,
    {
        if v[i] == x {
            assert(v@[i as int] == x);
            return true;
        }
        i = i + 1;
    }
    false
}

/// Append every id of `src` to `acc`, in order.
#[verifier::loop_isolation(false)]
fn extend_ids(acc: &mut Vec<u32>, src: &Vec<u32>)
    ensures
        final(acc)@ == old(acc)@ + src@,
{
    let ghost base = acc@;
    let mut i: usize = 0;
    while i < src.len()
        invariant
            0 <= i <= src@.len(),
            acc@ == base + src@.take(i as int),
        decreases src@.len() - i,
    {
        acc.push(src[i]);
        proof {
            assert(base + src@.take(i as int) + seq![src@[i as int]] =~= base + src@.take(i + 1));
        }
        i = i + 1;
    }
    proof {
        assert(base + src@.take(src@.len() as int) =~= base + src@);
    }
}

/// One stage of the inheritance walk: what contract `cid` and its not yet
/// visited ancestors contribute, ancestors first, together with the visited
/// set after the walk.  `states` selects state variables instead of
/// functions.
pub open spec fn chase_members(
    contracts: Seq<(u32, PropModel)>,
    cid: u32,
    visited: Seq<u32>,
    states: bool,
    fuel: nat,
) -> (Seq<u32>, Seq<u32>)
    decreases fuel, 0int,
{
    if visited.contains(cid) {
        (Seq::empty(), visited)
    } else {
        match find_contract(contracts, cid) {
            None => (Seq::empty(), visited),
            Some(c) => {
                if fuel == 0 {
                    (Seq::empty(), visited)
                } else {
                    let pr = chase_list(
                        contracts,
                        c.1.parents,
                        0,
                        visited.push(cid),
                        states,
                        (fuel - 1) as nat,
                    );
                    ((pr.0 + if states {
                        c.1.states
                    } else {
                        c.1.functions
                    }), pr.1)
                }
            },
        }
    }
}

/// The contributions of the contracts `ids[i..]`, threading the visited set
/// from left to right.
pub open spec fn chase_list(
    contracts: Seq<(u32, PropModel)>,
    ids: Seq<u32>,
    i: int,
    visited: Seq<u32>,
    states: bool,
    fuel: nat,
) -> (Seq<u32>, Seq<u32>)
    decreases fuel, ids.len() - i + 1,
{
    if i < 0 || i >= ids.len() {
        (Seq::empty(), visited)
    } else {
        let head = chase_members(contracts, ids[i], visited, states, fuel);
        let rest = chase_list(contracts, ids, i + 1, head.1, states, fuel);
        (head.0 + rest.0, rest.1)
    }
}

/// Walk the inheritance graph upward from `cid`, appending member ids,
/// ancestors first; a contract already in `visited` contributes nothing
/// again.
#[verifier::loop_isolation(false)]
fn chase_rec(
    contracts: &Vec<(u32, ContractProp)>,
    cid: u32,
    states: bool,
    acc: &mut Vec<u32>,
    visited: &mut Vec<u32>,
    fuel: usize,
)
    ensures
        ({
            let pr = chase_members(contracts.deep_view(), cid, old(visited)@, states, fuel as nat);
            final(acc)@ == old(acc)@ + pr.0 && final(visited)@ == pr.1
        }),
    decreases fuel,
{
    proof {
        assert(acc@ + Seq::<u32>::empty() =~= acc@);
    }
    if ids_contain(visited, cid) {
        return ;
    }
    let prop = match lookup_contract(contracts, cid) {
        None => {
            return ;
        },
        Some(p) => p,
    };
    if fuel == 0 {
        return ;
    }
    visited.push(cid);
    let ghost base = acc@;
    let ghost vis1 = visited@;
    let ghost f1 = (fuel - 1) as nat;
    let ghost dc = contracts.deep_view();
    let ghost parents = prop.parents@;
    let ghost mut done: Seq<u32> = Seq::empty();
    proof {
        assert(Seq::<u32>::empty() + chase_list(dc, parents, 0, vis1, states, f1).0 =~= chase_list(
            dc,
            parents,
            0,
            vis1,
            states,
            f1,
        ).0);
    }
    let mut i: usize = 0;
    while i < prop.parents.len()
        invariant
            0 <= i <= parents.len(),
            acc@ == base + done,
            chase_list(dc, parents, 0, vis1, states, f1) == ({
                let rest = chase_list(dc, parents, i as int, visited@, states, f1);
                (done + rest.0, rest.1)
            }),
        decreases parents.len() - i,
    {
        let ghost pre_vis = visited@;
        chase_rec(contracts, prop.parents[i], states, acc, visited, fuel - 1);
        proof {
            let head = chase_members(dc, parents[i as int], pre_vis, states, f1);
            done = done + head.0;
            assert(acc@ =~= base + done);
            let rest = chase_list(dc, parents, i + 1, visited@, states, f1);
            assert(chase_list(dc, parents, i as int, pre_vis, states, f1) == (
                head.0 + rest.0,
                rest.1,
            ));
            assert(chase_list(dc, parents, 0, vis1, states, f1).0 =~= done + rest.0);
        }
        i = i + 1;
    }
    proof {
        let fin = chase_list(dc, parents, parents.len() as int, visited@, states, f1);
        assert(fin.0 =~= Seq::<u32>::empty());
        assert(chase_list(dc, parents, 0, vis1, states, f1).0 =~= done + Seq::<u32>::empty());
        assert(chase_list(dc, parents, 0, vis1, states, f1).0 =~= done);
    }
    if states {
        extend_ids(acc, &prop.states);
    } else {
        extend_ids(acc, &prop.functions);
    }
    proof {
        let pr = chase_members(dc, cid, old(visited)@, states, fuel as nat);
        assert(acc@ =~= old(acc)@ + pr.0);
    }
}

/// The name of the declaration `id`, when the arena resolves it and it
/// carries one.
pub open spec fn member_name_of(nodes: Seq<NodeModel>, id: u32) -> Option<Seq<char>> {
    match find_node(nodes, id) {
        Some(n) => n.name,
        None => None,
    }
}

/// Whether a nearer entry — later in the parents-first order — declares the
/// same name as `ids[i]`, overriding it.
pub open spec fn overridden_later(nodes: Seq<NodeModel>, ids: Seq<u32>, i: int) -> bool {
    exists|j: int|
        i < j < ids.len() && member_name_of(nodes, ids[i]) is Some && member_name_of(
            nodes,
            #[trigger] ids[j],
        ) == member_name_of(nodes, ids[i])
}

/// The members `ids[i..]` with overridden entries dropped: a named
/// declaration leaves the list when a nearer contract declares the same
/// name; unnamed or unresolved entries stay.
pub open spec fn dedup_overrides_from(nodes: Seq<NodeModel>, ids: Seq<u32>, i: int) -> Seq<u32>
    decreases ids.len() - i,
{
    if i < 0 || i >= ids.len() {
        Seq::empty()
    } else {
        let head: Seq<u32> = if overridden_later(nodes, ids, i) {
            Seq::empty()
        } else {
            seq![ids[i]]
        };
        head + dedup_overrides_from(nodes, ids, i + 1)
    }
}

/// Drop overridden members: exec mirror of `dedup_overrides_from`.
#[verifier::loop_isolation(false)]
fn dedup_overrides(nodes: &Vec<AstNode>, ids: &Vec<u32>) -> (r: Vec<u32>)
    ensures
        r@ == dedup_overrides_from(nodes.deep_view(), ids@, 0),
{
    let ghost nv = nodes.deep_view();
    let ghost iv = ids@;
    let mut r: Vec<u32> = Vec::new();
    let ghost mut done: Seq<u32> = Seq::empty();
    proof {
        assert(r@ =~= done);
    }
    let mut i: usize = 0;
    while i < ids.len()
        invariant
            0 <= i <= iv.len(),
            r@ == done,
            dedup_overrides_from(nv, iv, 0) == done + dedup_overrides_from(nv, iv, i as int),
        decreases iv.len() - i,
    {
        let name_i: Option<String> = match lookup_node(nodes, ids[i]) {
            Some(n) => match &n.name {
                Some(s) => Some(s.clone()),
                None => None,
            },
            None => None,
        };
        proof {
            match name_i {
                Some(ref s) => {
                    assert(member_name_of(nv, iv[i as int]) == Some(s@));
                },
                None => {
                    assert(member_name_of(nv, iv[i as int]) is None);
                },
            }
        }
        let keep: bool = match &name_i {
            None => {
                proof {
                    assert(!overridden_later(nv, iv, i as int));
                }
                true
            },
            Some(ni) => {
                let mut hit = false;
                let mut j: usize = i + 1;
                while j < ids.len() && !hit
                    invariant
                        i + 1 <= j <= iv.len() || (j == i + 1 && iv.len() <= i + 1),
                        hit ==> overridden_later(nv, iv, i as int),
                        !hit ==> forall|m: int|
                            i < m < j ==> member_name_of(nv, #[trigger] iv[m]) != member_name_of(
                                nv,
                                iv[i as int],
                            ),
                    decreases iv.len() - j + (if hit { 0int } else { 1int }),
                {
                    let same = match lookup_node(nodes, ids[j]) {
                        Some(n) => match &n.name {
                            Some(s) => crate::variable::str_eq(s, ni),
                            None => false,
                        },
                        None => false,
                    };
                    if same {
                        proof {
                            assert(member_name_of(nv, iv[j as int]) == member_name_of(
                                nv,
                                iv[i as int],
                            ));
                        }
                        hit = true;
                    } else {
                        proof {
                            assert(member_name_of(nv, iv[j as int]) != member_name_of(
                                nv,
                                iv[i as int],
                            ));
                        }
                        j = j + 1;
                    }
                }
                proof {
                    if !hit {
                        assert(!overridden_later(nv, iv, i as int));
                    }
                }
                !hit
            },
        };
        if keep {
            r.push(ids[i]);
            proof {
                done = done + seq![iv[i as int]];
                assert(r@ =~= done);
                assert(dedup_overrides_from(nv, iv, 0) =~= done + dedup_overrides_from(
                    nv,
                    iv,
                    i + 1,
                ));
            }
        } else {
            proof {
                assert(dedup_overrides_from(nv, iv, 0) =~= done + dedup_overrides_from(
                    nv,
                    iv,
                    i + 1,
                ));
            }
        }
        i = i + 1;
    }
    proof {
        assert(dedup_overrides_from(nv, iv, iv.len() as int) =~= Seq::<u32>::empty());
        assert(done + Seq::<u32>::empty() =~= done);
    }
    r
}

/// What the function lookup returns for contract `id`: the functions and
/// modifiers of its ancestors, furthest ancestors first, then its own, each
/// contract listed once and overridden names dropped in favour of the
/// nearest declaration.
pub open spec fn spec_functions_by_contract_id(d: DictModel, id: u32) -> Seq<u32> {
    dedup_overrides_from(
        d.nodes,
        chase_members(d.contracts, id, Seq::empty(), false, d.contracts.len()).0,
        0,
    )
}

/// The state variables visible in contract `id`: inherited ones first, its
/// own last, each contract listed once and overridden names dropped in
/// favour of the nearest declaration.
pub open spec fn spec_states_by_contract_id(d: DictModel, id: u32) -> Seq<u32> {
    dedup_overrides_from(
        d.nodes,
        chase_members(d.contracts, id, Seq::empty(), true, d.contracts.len()).0,
        0,
    )
}

/// The predicate selecting a contract record whose functions include `id`.
pub open spec fn contract_owning_function(id: u32) -> spec_fn((u32, PropModel)) -> bool {
    |c: (u32, PropModel)| c.1.functions.contains(id)
}

/// The predicate selecting a contract definition named `name`.
pub open spec fn contract_named(nodes: Seq<NodeModel>, name: Seq<char>) -> spec_fn(
    (u32, PropModel),
) -> bool {
    |c: (u32, PropModel)|
        match find_node(nodes, c.0) {
            Some(n) => n.name == Some(name),
            None => false,
        }
}

/// The id of the first registered contract named `name`, if any.
pub open spec fn spec_contract_by_name(d: DictModel, name: Seq<char>) -> Option<u32> {
    match find_first(d.contracts, contract_named(d.nodes, name)) {
        Some(c) => Some(c.0),
        None => None,
    }
}

/// What the state lookup returns for function `id`: the states visible in
/// the first registered contract that owns the function.
pub open spec fn spec_states_by_function_id(d: DictModel, id: u32) -> Seq<u32> {
    match find_first(d.contracts, contract_owning_function(id)) {
        Some(c) => spec_states_by_contract_id(d, c.0),
        None => Seq::empty(),
    }
}

/// The predicate selecting a struct definition named `name`.
pub open spec fn struct_named(name: Seq<char>) -> spec_fn(NodeModel) -> bool {
    |n: NodeModel| n.kind == NodeKind::StructDefinition && n.name == Some(name)
}

/// The id of the first struct definition named `name`, if any.
pub open spec fn spec_struct_by_name(d: DictModel, name: Seq<char>) -> Option<u32> {
    match find_first(d.nodes, struct_named(name)) {
        Some(n) => Some(n.id),
        None => None,
    }
}

/// The predicate selecting a using-for directive whose target type is
/// `kind`.
pub open spec fn using_for_of_kind(nodes: Seq<NodeModel>, kind: Seq<char>) -> spec_fn(
    NodeModel,
) -> bool {
    |n: NodeModel|
        n.kind == NodeKind::UsingForDirective && n.children.len() >= 2 && (match find_node(
            nodes,
            n.children[1],
        ) {
            Some(t) => t.type_str == Some(kind),
            None => false,
        })
}

/// The library that a using-for directive registers for type `kind`, if
/// any: the declaration referenced by the directive's first child.
pub open spec fn spec_library_by_kind(d: DictModel, kind: Seq<char>) -> Option<u32> {
    match find_first(d.nodes, using_for_of_kind(d.nodes, kind)) {
        None => None,
        Some(u) => match find_node(d.nodes, u.children[0]) {
            Some(l) => l.referenced_declaration,
            None => None,
        },
    }
}

/// Allows searching the AST by node id, and keeps one property record per
/// contract definition met during `traverse`.
#[derive(Debug)]
pub struct Dictionary {
    pub nodes: Vec<AstNode>,
    pub contracts: Vec<(u32, ContractProp)>,
}

/// Mathematical value of a `Dictionary`.
#[verifier::ext_equal]
pub struct DictModel {
    pub nodes: Seq<NodeModel>,
    pub contracts: Seq<(u32, PropModel)>,
}

impl DeepView for Dictionary {
    type V = DictModel;

    open spec fn deep_view(&self) -> DictModel {
        DictModel { nodes: self.nodes.deep_view(), contracts: self.contracts.deep_view() }
    }
}

/// The predicate selecting the record of contract `id`.
pub open spec fn contract_key_is(id: u32) -> spec_fn((u32, PropModel)) -> bool {
    |c: (u32, PropModel)| c.0 == id
}

/// The contract record for `id`, if one was registered: the first such
/// record.
pub open spec fn find_contract(contracts: Seq<(u32, PropModel)>, id: u32) -> Option<
    (u32, PropModel),
> {
    find_first(contracts, contract_key_is(id))
}

/// Look a contract record up by contract id.
#[verifier::loop_isolation(false)]
fn lookup_contract(contracts: &Vec<(u32, ContractProp)>, id: u32) -> (r: Option<&ContractProp>)
    ensures
        match r {
            Some(p) => find_contract(contracts.deep_view(), id) matches Some(c) && c.1
                == p.deep_view(),
            None => find_contract(contracts.deep_view(), id) is None,
        },
{
    let ghost p = contract_key_is(id);
    let mut i: usize = 0;
    while i < contracts.len()
        invariant
            0 <= i <= contracts@.len(),
            forall|j: int| 0 <= j < i ==> !p(contracts.deep_view()[j]),
        decreases contracts@.len() - i,
    {
        proof {
            assert(contracts.deep_view()[i as int] == (
                contracts@[i as int].0,
                contracts@[i as int].1.deep_view(),
            ));
        }
        if contracts[i].0 == id {
            proof {
                lemma_find_first_at(contracts.deep_view(), p, i as int);
                assert(find_contract(contracts.deep_view(), id) == Some(
                    contracts.deep_view()[i as int],
                ));
            }
            return Some(&contracts[i].1);
        }
        i = i + 1;
    }
    proof {
        lemma_find_first_none(contracts.deep_view(), p);
    }
    None
}

impl Dictionary {
    /// A dictionary over the given arena, with no contract registered yet.
    pub fn new(nodes: Vec<AstNode>) -> (r: Dictionary)
        ensures
            r.deep_view().nodes == nodes.deep_view(),
            r.deep_view().contracts == Seq::<(u32, PropModel)>::empty(),
    {
        let r = Dictionary { nodes, contracts: Vec::new() };
        proof {
            assert(r.contracts.deep_view() =~= Seq::<(u32, PropModel)>::empty());
        }
        r
    }

    /// Walk the subtree rooted at `id` and register a property record for
    /// every contract definition in it, in pre-order.  The walking depth is
    /// bounded by the size of the arena, which covers every well-formed tree.
    pub fn traverse(&mut self, id: u32)
        ensures
            final(self).deep_view().nodes == old(self).deep_view().nodes,
            final(self).deep_view().contracts == old(self).deep_view().contracts
                + collect_contracts(old(self).deep_view().nodes, id, old(self).nodes@.len()),
    {
        let fuel = self.nodes.len();
        walk_contracts(&self.nodes, &mut self.contracts, id, fuel);
    }

    /// Find a node by its id.
    pub fn lookup(&self, id: u32) -> (r: Option<&AstNode>)
        ensures
            match r {
                Some(n) => find_node(self.deep_view().nodes, id) == Some(n.deep_view()),
                None => find_node(self.deep_view().nodes, id) is None,
            },
    {
        lookup_node(&self.nodes, id)
    }

    /// The functions and modifiers in scope for contract `id`: inherited
    /// ones first (furthest ancestors first), the contract's own last, each
    /// ancestor contributing once, and an overridden name kept only at its
    /// nearest declaration.
    pub fn lookup_functions_by_contract_id(&self, id: u32) -> (r: Vec<u32>)
        ensures
            r@ == spec_functions_by_contract_id(self.deep_view(), id),
    {
        let mut acc: Vec<u32> = Vec::new();
        let mut visited: Vec<u32> = Vec::new();
        proof {
            assert(visited@ =~= Seq::<u32>::empty());
        }
        chase_rec(&self.contracts, id, false, &mut acc, &mut visited, self.contracts.len());
        proof {
            let raw = chase_members(
                self.deep_view().contracts,
                id,
                Seq::empty(),
                false,
                self.contracts@.len() as nat,
            ).0;
            assert(acc@ =~= Seq::<u32>::empty() + raw);
            assert(acc@ =~= raw);
        }
        dedup_overrides(&self.nodes, &acc)
    }

    /// The state variables in scope for contract `id`: inherited ones
    /// first, a shadowed name kept only at its nearest declaration.
    pub fn lookup_states_by_contract_id(&self, id: u32) -> (r: Vec<u32>)
        ensures
            r@ == spec_states_by_contract_id(self.deep_view(), id),
    {
        let mut acc: Vec<u32> = Vec::new();
        let mut visited: Vec<u32> = Vec::new();
        proof {
            assert(visited@ =~= Seq::<u32>::empty());
        }
        chase_rec(&self.contracts, id, true, &mut acc, &mut visited, self.contracts.len());
        proof {
            let raw = chase_members(
                self.deep_view().contracts,
                id,
                Seq::empty(),
                true,
                self.contracts@.len() as nat,
            ).0;
            assert(acc@ =~= Seq::<u32>::empty() + raw);
            assert(acc@ =~= raw);
        }
        dedup_overrides(&self.nodes, &acc)
    }

    /// The state variables visible in the body of function `id`: those of
    /// the first registered contract that owns the function, inherited ones
    /// first and shadowed names kept only at their nearest declaration.
    #[verifier::loop_isolation(false)]
    pub fn lookup_states_by_function_id(&self, id: u32) -> (r: Vec<u32>)
        ensures
            r@ == spec_states_by_function_id(self.deep_view(), id),
    {
        let ghost p = contract_owning_function(id);
        let mut i: usize = 0;
        while i < self.contracts.len()
            invariant
                0 <= i <= self.contracts@.len(),
                forall|j: int| 0 <= j < i ==> !p(self.contracts.deep_view()[j]),
            decreases self.contracts@.len() - i,
        {
            proof {
                assert(self.contracts.deep_view()[i as int] == (
                    self.contracts@[i as int].0,
                    self.contracts@[i as int].1.deep_view(),
                ));
            }
            if ids_contain(&self.contracts[i].1.functions, id) {
                proof {
                    lemma_find_first_at(self.contracts.deep_view(), p, i as int);
                }
                return self.lookup_states_by_contract_id(self.contracts[i].0);
            }
            i = i + 1;
        }
        proof {
            lemma_find_first_none(self.contracts.deep_view(), p);
        }
        Vec::new()
    }

    /// The id of the first registered contract named `name`, if any.
    #[verifier::loop_isolation(false)]
    pub fn find_contract_by_name(&self, name: &str) -> (r: Option<u32>)
        ensures
            r == spec_contract_by_name(self.deep_view(), name@),
    {
        let ghost p = contract_named(self.deep_view().nodes, name@);
        let mut i: usize = 0;
        while i < self.contracts.len()
            invariant
                0 <= i <= self.contracts@.len(),
                forall|j: int| 0 <= j < i ==> !p(self.contracts.deep_view()[j]),
            decreases self.contracts@.len() - i,
        {
            proof {
                assert(self.contracts.deep_view()[i as int] == (
                    self.contracts@[i as int].0,
                    self.contracts@[i as int].1.deep_view(),
                ));
            }
            let matches_name = match lookup_node(&self.nodes, self.contracts[i].0) {
                Some(n) => crate::strutil::opt_str_is(&n.name, name),
                None => false,
            };
            if matches_name {
                proof {
                    lemma_find_first_at(self.contracts.deep_view(), p, i as int);
                }
                return Some(self.contracts[i].0);
            }
            i = i + 1;
        }
        proof {
            lemma_find_first_none(self.contracts.deep_view(), p);
        }
        None
    }

    /// The id of the registered contract named `name`.  The contract must
    /// exist.
    pub fn lookup_contract_by_name(&self, name: &str) -> (r: u32)
        requires
            spec_contract_by_name(self.deep_view(), name@) is Some,
        ensures
            Some(r) == spec_contract_by_name(self.deep_view(), name@),
    {
        match self.find_contract_by_name(name) {
            Some(id) => id,
            None => {
                proof {
                    assert(false);
                }
                unreached()
            },
        }
    }

    /// The id of the first struct definition named `name`, if any.
    #[verifier::loop_isolation(false)]
    pub fn find_struct_by_name(&self, name: &str) -> (r: Option<u32>)
        ensures
            r == spec_struct_by_name(self.deep_view(), name@),
    {
        let ghost p = struct_named(name@);
        let mut i: usize = 0;
        while i < self.nodes.len()
            invariant
                0 <= i <= self.nodes@.len(),
                forall|j: int| 0 <= j < i ==> !p(self.nodes.deep_view()[j]),
            decreases self.nodes@.len() - i,
        {
            let n = &self.nodes[i];
            if n.kind == NodeKind::StructDefinition && crate::strutil::opt_str_is(&n.name, name) {
                proof {
                    lemma_find_first_at(self.nodes.deep_view(), p, i as int);
                }
                return Some(n.id);
            }
            i = i + 1;
        }
        proof {
            lemma_find_first_none(self.nodes.deep_view(), p);
        }
        None
    }

    /// The library registered by a using-for directive for type `kind`, if
    /// any.
    #[verifier::loop_isolation(false)]
    pub fn find_library_by_kind(&self, kind: &str) -> (r: Option<u32>)
        ensures
            r == spec_library_by_kind(self.deep_view(), kind@),
    {
        let ghost p = using_for_of_kind(self.deep_view().nodes, kind@);
        let mut i: usize = 0;
        while i < self.nodes.len()
            invariant
                0 <= i <= self.nodes@.len(),
                forall|j: int| 0 <= j < i ==> !p(self.nodes.deep_view()[j]),
            decreases self.nodes@.len() - i,
        {
            let n = &self.nodes[i];
            let is_hit = n.kind == NodeKind::UsingForDirective && n.children.len() >= 2 && (
            match lookup_node(&self.nodes, n.children[1]) {
                Some(t) => crate::strutil::opt_str_is(&t.type_str, kind),
                None => false,
            });
            if is_hit {
                proof {
                    lemma_find_first_at(self.nodes.deep_view(), p, i as int);
                }
                return match lookup_node(&self.nodes, n.children[0]) {
                    Some(l) => l.referenced_declaration,
                    None => None,
                };
            }
            i = i + 1;
        }
        proof {
            lemma_find_first_none(self.nodes.deep_view(), p);
        }
        None
    }

    /// The return and placeholder statements of the function or modifier
    /// definition `id`, in pre-order; empty for any other node.
    pub fn lookup_returns(&self, id: u32) -> (r: Vec<u32>)
        ensures
            r@ == spec_lookup_returns(self.deep_view(), id),
    {
        let mut r: Vec<u32> = Vec::new();
        match lookup_node(&self.nodes, id) {
            Some(n) if n.kind == NodeKind::FunctionDefinition || n.kind
                == NodeKind::ModifierDefinition => {
                walk_kinds(
                    &self.nodes,
                    &mut r,
                    id,
                    NodeKind::Return,
                    NodeKind::PlaceholderStatement,
                    self.nodes.len(),
                );
                proof {
                    assert(Seq::<u32>::empty() + collect_kinds(
                        self.deep_view().nodes,
                        id,
                        NodeKind::Return,
                        NodeKind::PlaceholderStatement,
                        self.nodes@.len(),
                    ) =~= collect_kinds(
                        self.deep_view().nodes,
                        id,
                        NodeKind::Return,
                        NodeKind::PlaceholderStatement,
                        self.nodes@.len(),
                    ));
                }
            },
            _ => {},
        }
        r
    }

    /// Every function call or modifier invocation in the subtree rooted at
    /// `id`, in pre-order; `id` itself is included when it is one.
    pub fn lookup_function_calls(&self, id: u32) -> (r: Vec<u32>)
        ensures
            r@ == collect_kinds(
                self.deep_view().nodes,
                id,
                NodeKind::FunctionCall,
                NodeKind::ModifierInvocation,
                self.deep_view().nodes.len(),
            ),
    {
        let mut r: Vec<u32> = Vec::new();
        walk_kinds(
            &self.nodes,
            &mut r,
            id,
            NodeKind::FunctionCall,
            NodeKind::ModifierInvocation,
            self.nodes.len(),
        );
        proof {
            assert(Seq::<u32>::empty() + collect_kinds(
                self.deep_view().nodes,
                id,
                NodeKind::FunctionCall,
                NodeKind::ModifierInvocation,
                self.nodes@.len(),
            ) =~= collect_kinds(
                self.deep_view().nodes,
                id,
                NodeKind::FunctionCall,
                NodeKind::ModifierInvocation,
                self.nodes@.len(),
            ));
        }
        r
    }

    /// The parameters of a definition (the children of its leading parameter
    /// list) or of a call (every child after the callee), kept only when the
    /// arena resolves them.
    pub fn lookup_parameters(&self, id: u32) -> (r: Vec<u32>)
        ensures
            r@ == spec_lookup_parameters(self.deep_view(), id),
    {
        let n = match lookup_node(&self.nodes, id) {
            None => {
                return Vec::new();
            },
            Some(n) => n,
        };
        match n.kind {
            NodeKind::FunctionDefinition | NodeKind::ModifierDefinition => {
                if n.children.len() > 0 {
                    match lookup_node(&self.nodes, n.children[0]) {
                        Some(pl) if pl.kind == NodeKind::ParameterList => {
                            filter_present(&self.nodes, &pl.children)
                        },
                        _ => Vec::new(),
                    }
                } else {
                    Vec::new()
                }
            },
            NodeKind::FunctionCall | NodeKind::ModifierInvocation => {
                if n.children.len() == 0 {
                    return Vec::new();
                }
                let mut rest: Vec<u32> = Vec::new();
                let mut i: usize = 1;
                while i < n.children.len()
                    invariant
                        1 <= i <= n.children@.len(),
                        rest@ == n.children@.subrange(1, i as int),
                    decreases n.children@.len() - i,
                {
                    rest.push(n.children[i]);
                    proof {
                        assert(rest@ =~= n.children@.subrange(1, i + 1));
                    }
                    i = i + 1;
                }
                proof {
                    assert(rest@ =~= n.children@.drop_first());
                }
                filter_present(&self.nodes, &rest)
            },
            _ => Vec::new(),
        }
    }
}

/// What `lookup_returns` finds: the return and placeholder statements under
/// a function or modifier definition.
pub open spec fn spec_lookup_returns(d: DictModel, id: u32) -> Seq<u32> {
    match find_node(d.nodes, id) {
        Some(n) => {
            if n.kind == NodeKind::FunctionDefinition || n.kind == NodeKind::ModifierDefinition {
                collect_kinds(
                    d.nodes,
                    id,
                    NodeKind::Return,
                    NodeKind::PlaceholderStatement,
                    d.nodes.len(),
                )
            } else {
                Seq::empty()
            }
        },
        None => Seq::empty(),
    }
}

/// What `lookup_parameters` finds.
pub open spec fn spec_lookup_parameters(d: DictModel, id: u32) -> Seq<u32> {
    match find_node(d.nodes, id) {
        None => Seq::empty(),
        Some(n) => match n.kind {
            NodeKind::FunctionDefinition | NodeKind::ModifierDefinition => {
                if n.children.len() > 0 {
                    match find_node(d.nodes, n.children[0]) {
                        Some(pl) => {
                            if pl.kind == NodeKind::ParameterList {
                                present_from(d.nodes, pl.children, 0)
                            } else {
                                Seq::empty()
                            }
                        },
                        None => Seq::empty(),
                    }
                } else {
                    Seq::empty()
                }
            },
            NodeKind::FunctionCall | NodeKind::ModifierInvocation => {
                if n.children.len() == 0 {
                    Seq::empty()
                } else {
                    present_from(d.nodes, n.children.drop_first(), 0)
                }
            },
            _ => Seq::empty(),
        },
    }
}

} // verus!

use vstd::prelude::*;

use crate::ast::{find_node, NodeKind};
use crate::cfg::{find_entry, lookup_entry, Cfg, CfgModel};
use crate::dict::{Dictionary, DictModel};
use crate::flow::{find_amap, spec_actions_map, spec_find_links, DataFlowGraph};
use crate::link::{links_extend_unique, links_insert_unique, DataLink, LinkModel};
use crate::oracle::{Action, ActionModel};
use crate::variable::{spec_compare, Variable, VariableComparison, VariableModel};
use crate::vecset::{extend_unique, find_first, push_unique};
use crate::vecset::{lemma_find_first_at, lemma_find_first_none};
use crate::vertex::{Vertex, VertexModel};

verus! {

/// The call-stack mark on a link: entering a call pushes its site id,
/// returning from it pops the same id.
#[derive(Debug, Clone, Copy, PartialEq, Eq, Structural)]
pub enum StackContext {
    Push(u32),
    Pop(u32),
}

impl DeepView for StackContext {
    type V = StackContext;

    open spec fn deep_view(&self) -> StackContext {
        *self
    }
}

/// Mathematical value of a `DataFlowGraph`.
#[verifier::ext_equal]
pub struct DfgModel {
    pub cfg: CfgModel,
    pub new_actions: Seq<(u32, Seq<ActionModel>)>,
}

impl DeepView for DataFlowGraph {
    type V = DfgModel;

    open spec fn deep_view(&self) -> DfgModel {
        DfgModel { cfg: self.cfg.deep_view(), new_actions: self.new_actions.deep_view() }
    }
}

/// The variables of the actions `acts[i..]`, in order, duplicates kept.
pub open spec fn vars_of_actions(acts: Seq<ActionModel>, i: int) -> Seq<VariableModel>
    decreases acts.len() - i,
{
    if i < 0 || i >= acts.len() {
        Seq::empty()
    } else {
        let head = match acts[i] {
            ActionModel::Use(v, _) => v,
            ActionModel::Kill(v, _) => v,
        };
        seq![head] + vars_of_actions(acts, i + 1)
    }
}

/// The variables recorded at a site: those of its actions, first occurrences
/// kept; empty when the site has no actions.
pub open spec fn spec_vars_at(all_actions: Seq<(u32, Seq<ActionModel>)>, id: u32) -> Seq<
    VariableModel,
> {
    match find_amap(all_actions, id) {
        Some(e) => extend_unique(Seq::<VariableModel>::empty(), vars_of_actions(e.1, 0)),
        None => Seq::empty(),
    }
}

/// The kill variables of the actions `acts[i..]`.
pub open spec fn kill_vars_of(acts: Seq<ActionModel>, i: int) -> Seq<VariableModel>
    decreases acts.len() - i,
{
    if i < 0 || i >= acts.len() {
        Seq::empty()
    } else {
        let head: Seq<VariableModel> = match acts[i] {
            ActionModel::Kill(v, _) => seq![v],
            _ => Seq::empty(),
        };
        head + kill_vars_of(acts, i + 1)
    }
}

/// The use variables of the actions `acts[i..]`.
pub open spec fn use_vars_of(acts: Seq<ActionModel>, i: int) -> Seq<VariableModel>
    decreases acts.len() - i,
{
    if i < 0 || i >= acts.len() {
        Seq::empty()
    } else {
        let head: Seq<VariableModel> = match acts[i] {
            ActionModel::Use(v, _) => seq![v],
            _ => Seq::empty(),
        };
        head + use_vars_of(acts, i + 1)
    }
}

/// The links the pair (`k`, `u`) contributes: one link from `(k, fid)` to
/// `(u, tid)` labeled `k` when the comparison is not `NotEqual`, and no link
/// from a node to itself.
pub open spec fn pair_links(k: VariableModel, fid: u32, u: VariableModel, tid: u32) -> Seq<
    LinkModel,
> {
    if spec_compare(k.attributes, u.attributes) != VariableComparison::NotEqual && !(fid == tid && k
        == u) {
        seq![LinkModel { from: (k, fid), to: (u, tid), var: k }]
    } else {
        Seq::empty()
    }
}

/// The links of one source variable against the sink variables `tov[j..]`,
/// accumulated without duplicates.
pub open spec fn links_between_inner(
    k: VariableModel,
    fid: u32,
    tov: Seq<VariableModel>,
    tid: u32,
    j: int,
    acc: Seq<LinkModel>,
) -> Seq<LinkModel>
    decreases tov.len() - j,
{
    if j < 0 || j >= tov.len() {
        acc
    } else {
        let pl = pair_links(k, fid, tov[j], tid);
        let acc1 = if pl.len() > 0 {
            push_unique(acc, pl[0])
        } else {
            acc
        };
        links_between_inner(k, fid, tov, tid, j + 1, acc1)
    }
}

/// The links between two variable sets at two sites, accumulated without
/// duplicates: one link per comparable pair, from the source site to the
/// sink site, labeled with the source variable.
pub open spec fn links_between(
    fromv: Seq<VariableModel>,
    fid: u32,
    tov: Seq<VariableModel>,
    tid: u32,
    i: int,
    acc: Seq<LinkModel>,
) -> Seq<LinkModel>
    decreases fromv.len() - i,
{
    if i < 0 || i >= fromv.len() {
        acc
    } else {
        links_between(fromv, fid, tov, tid, i + 1, links_between_inner(
            fromv[i],
            fid,
            tov,
            tid,
            0,
            acc,
        ))
    }
}

/// Add the links between two variable lists at two sites: exec mirror of
/// `links_between`.
#[verifier::loop_isolation(false)]
pub fn add_links_between(
    fromv: &Vec<Variable>,
    fid: u32,
    tov: &Vec<Variable>,
    tid: u32,
    acc: &mut Vec<DataLink>,
)
    ensures
        final(acc).deep_view() == links_between(
            fromv.deep_view(),
            fid,
            tov.deep_view(),
            tid,
            0,
            old(acc).deep_view(),
        ),
{
    let ghost fv = fromv.deep_view();
    let ghost tv = tov.deep_view();
    let ghost goal = links_between(fv, fid, tv, tid, 0, old(acc).deep_view());
    let mut i: usize = 0;
    while i < fromv.len()
        invariant
            0 <= i <= fv.len(),
            goal == links_between(fv, fid, tv, tid, i as int, acc.deep_view()),
        decreases fv.len() - i,
    {
        let k = &fromv[i];
        let ghost inner_start = acc.deep_view();
        let mut j: usize = 0;
        while j < tov.len()
            invariant
                0 <= j <= tv.len(),
                0 <= i < fv.len(),
                links_between_inner(fv[i as int], fid, tv, tid, 0, inner_start)
                    == links_between_inner(fv[i as int], fid, tv, tid, j as int, acc.deep_view()),
            decreases tv.len() - j,
        {
            let u = &tov[j];
            let cmp = k.contains(u);
            let same_node = fid == tid && k.same_as(u);
            let ghost pre = acc.deep_view();
            if !matches!(cmp, VariableComparison::NotEqual) && !same_node {
                links_insert_unique(
                    acc,
                    DataLink {
                        from: (k.duplicate(), fid),
                        to: (u.duplicate(), tid),
                        var: k.duplicate(),
                    },
                );
                proof {
                    let pl = pair_links(fv[i as int], fid, tv[j as int], tid);
                    assert(pl.len() > 0);
                    assert(acc.deep_view() == push_unique(pre, pl[0]));
                    assert(links_between_inner(fv[i as int], fid, tv, tid, j as int, pre)
                        == links_between_inner(fv[i as int], fid, tv, tid, j + 1, acc.deep_view()));
                }
            } else {
                proof {
                    let pl = pair_links(fv[i as int], fid, tv[j as int], tid);
                    assert(pl.len() == 0);
                    assert(links_between_inner(fv[i as int], fid, tv, tid, j as int, pre)
                        == links_between_inner(fv[i as int], fid, tv, tid, j + 1, acc.deep_view()));
                }
            }
            j = j + 1;
        }
        proof {
            assert(links_between_inner(fv[i as int], fid, tv, tid, tv.len() as int, acc.deep_view())
                == acc.deep_view());
            assert(goal == links_between(fv, fid, tv, tid, i + 1, acc.deep_view()));
        }
        i = i + 1;
    }
}

/// The kill variables of an action list, first occurrences kept.
#[verifier::loop_isolation(false)]
pub fn kill_vars(acts: &Vec<Action>) -> (r: Vec<Variable>)
    ensures
        r.deep_view() == extend_unique(
            Seq::<VariableModel>::empty(),
            kill_vars_of(acts.deep_view(), 0),
        ),
{
    let ghost av = acts.deep_view();
    let mut r: Vec<Variable> = Vec::new();
    let ghost mut done: Seq<VariableModel> = Seq::empty();
    proof {
        assert(r.deep_view() =~~= extend_unique(Seq::<VariableModel>::empty(), done));
    }
    let mut i: usize = 0;
    while i < acts.len()
        invariant
            0 <= i <= av.len(),
            r.deep_view() == extend_unique(Seq::<VariableModel>::empty(), done),
            kill_vars_of(av, 0) == done + kill_vars_of(av, i as int),
        decreases av.len() - i,
    {
        match &acts[i] {
            Action::Kill(v, _) => {
                crate::variable::vars_insert_unique(&mut r, v.duplicate());
                proof {
                    crate::vecset::lemma_extend_unique_snoc(
                        Seq::<VariableModel>::empty(),
                        done,
                        v.deep_view(),
                    );
                    done = done.push(v.deep_view());
                    assert(kill_vars_of(av, 0) =~~= done + kill_vars_of(av, i + 1));
                }
            },
            Action::Use(_, _) => {
                proof {
                    assert(kill_vars_of(av, 0) =~~= done + kill_vars_of(av, i + 1));
                }
            },
        }
        i = i + 1;
    }
    proof {
        assert(kill_vars_of(av, av.len() as int) =~~= Seq::<VariableModel>::empty());
        assert(done + Seq::<VariableModel>::empty() =~~= done);
    }
    r
}

/// The use variables of an action list, first occurrences kept.
#[verifier::loop_isolation(false)]
pub fn use_vars(acts: &Vec<Action>) -> (r: Vec<Variable>)
    ensures
        r.deep_view() == extend_unique(
            Seq::<VariableModel>::empty(),
            use_vars_of(acts.deep_view(), 0),
        ),
{
    let ghost av = acts.deep_view();
    let mut r: Vec<Variable> = Vec::new();
    let ghost mut done: Seq<VariableModel> = Seq::empty();
    proof {
        assert(r.deep_view() =~~= extend_unique(Seq::<VariableModel>::empty(), done));
    }
    let mut i: usize = 0;
    while i < acts.len()
        invariant
            0 <= i <= av.len(),
            r.deep_view() == extend_unique(Seq::<VariableModel>::empty(), done),
            use_vars_of(av, 0) == done + use_vars_of(av, i as int),
        decreases av.len() - i,
    {
        match &acts[i] {
            Action::Use(v, _) => {
                crate::variable::vars_insert_unique(&mut r, v.duplicate());
                proof {
                    crate::vecset::lemma_extend_unique_snoc(
                        Seq::<VariableModel>::empty(),
                        done,
                        v.deep_view(),
                    );
                    done = done.push(v.deep_view());
                    assert(use_vars_of(av, 0) =~~= done + use_vars_of(av, i + 1));
                }
            },
            Action::Kill(_, _) => {
                proof {
                    assert(use_vars_of(av, 0) =~~= done + use_vars_of(av, i + 1));
                }
            },
        }
        i = i + 1;
    }
    proof {
        assert(use_vars_of(av, av.len() as int) =~~= Seq::<VariableModel>::empty());
        assert(done + Seq::<VariableModel>::empty() =~~= done);
    }
    r
}

/// The per-vertex assignment links: within each vertex, every kill variable
/// links to every comparable use variable of the same vertex.
pub open spec fn assignment_links(
    all_actions: Seq<(u32, Seq<ActionModel>)>,
    i: int,
    acc: Seq<LinkModel>,
) -> Seq<LinkModel>
    decreases all_actions.len() - i,
{
    if i < 0 || i >= all_actions.len() {
        acc
    } else {
        let vid = all_actions[i].0;
        let acts = all_actions[i].1;
        let kv = extend_unique(Seq::<VariableModel>::empty(), kill_vars_of(acts, 0));
        let uv = extend_unique(Seq::<VariableModel>::empty(), use_vars_of(acts, 0));
        let tmp = links_between(kv, vid, uv, vid, 0, Seq::empty());
        assignment_links(all_actions, i + 1, extend_unique(acc, tmp))
    }
}

/// The context marks of the links `ls[i..]`: one per link, keyed by its
/// endpoints.
pub open spec fn ctx_pairs(ls: Seq<LinkModel>, sc: StackContext, i: int) -> Seq<
    ((u32, u32), StackContext),
>
    decreases ls.len() - i,
{
    if i < 0 || i >= ls.len() {
        Seq::empty()
    } else {
        seq![((ls[i].from.1, ls[i].to.1), sc)] + ctx_pairs(ls, sc, i + 1)
    }
}

/// The index links of one subscript site: the site's variables link to each
/// extra argument's, to the subscript expression's, and, when the base is
/// not itself a subscript, from the base to the site.
pub open spec fn index_links_at(
    d: DictModel,
    all_actions: Seq<(u32, Seq<ActionModel>)>,
    iid: u32,
    params: Seq<u32>,
    acc: Seq<LinkModel>,
) -> Seq<LinkModel> {
    let ivars = spec_vars_at(all_actions, iid);
    let acc1 = if params.len() >= 2 {
        let acc_extras = index_extras(all_actions, ivars, iid, params, 2, acc);
        extend_unique(
            acc_extras,
            links_between(ivars, iid, spec_vars_at(all_actions, params[1]), params[1], 0, Seq::empty()),
        )
    } else {
        acc
    };
    if params.len() >= 1 {
        match find_node(d.nodes, params[0]) {
            Some(b) => {
                if b.kind != NodeKind::IndexAccess {
                    extend_unique(
                        acc1,
                        links_between(ivars, params[0], ivars, iid, 0, Seq::empty()),
                    )
                } else {
                    acc1
                }
            },
            None => acc1,
        }
    } else {
        acc1
    }
}

/// The links of a site's variables to each extra argument `params[j..]`.
pub open spec fn index_extras(
    all_actions: Seq<(u32, Seq<ActionModel>)>,
    ivars: Seq<VariableModel>,
    iid: u32,
    params: Seq<u32>,
    j: int,
    acc: Seq<LinkModel>,
) -> Seq<LinkModel>
    decreases params.len() - j,
{
    if j < 2 || j >= params.len() {
        acc
    } else {
        let tmp = links_between(
            ivars,
            iid,
            spec_vars_at(all_actions, params[j]),
            params[j],
            0,
            Seq::empty(),
        );
        index_extras(all_actions, ivars, iid, params, j + 1, extend_unique(acc, tmp))
    }
}

/// The index links of the subscript sites `indexes[i..]`.
pub open spec fn index_links(
    d: DictModel,
    all_actions: Seq<(u32, Seq<ActionModel>)>,
    indexes: Seq<(u32, Seq<u32>)>,
    i: int,
    acc: Seq<LinkModel>,
) -> Seq<LinkModel>
    decreases indexes.len() - i,
{
    if i < 0 || i >= indexes.len() {
        acc
    } else {
        index_links(d, all_actions, indexes, i + 1, index_links_at(
            d,
            all_actions,
            indexes[i].0,
            indexes[i].1,
            acc,
        ))
    }
}

/// The call links pairing defined parameters with invoked arguments: the
/// i-th defined parameter links to the i-th invoked argument (the argument
/// after the callee), each link marked `Pop` of the call site; a position
/// with no defined parameter is skipped.
pub open spec fn fcall_pairing(
    all_actions: Seq<(u32, Seq<ActionModel>)>,
    defined: Seq<u32>,
    invoked: Seq<u32>,
    fid: u32,
    idx: int,
    acc_l: Seq<LinkModel>,
    acc_c: Seq<((u32, u32), StackContext)>,
) -> (Seq<LinkModel>, Seq<((u32, u32), StackContext)>)
    decreases invoked.len() - idx,
{
    if idx < 0 || idx + 1 >= invoked.len() {
        (acc_l, acc_c)
    } else {
        if idx < defined.len() {
            let d_id = defined[idx];
            let i_id = invoked[idx + 1];
            let tmp = links_between(
                spec_vars_at(all_actions, d_id),
                d_id,
                spec_vars_at(all_actions, i_id),
                i_id,
                0,
                Seq::empty(),
            );
            fcall_pairing(
                all_actions,
                defined,
                invoked,
                fid,
                idx + 1,
                extend_unique(acc_l, tmp),
                acc_c + ctx_pairs(tmp, StackContext::Pop(fid), 0),
            )
        } else {
            fcall_pairing(all_actions, defined, invoked, fid, idx + 1, acc_l, acc_c)
        }
    }
}

/// The call links from a call site to the return statements of the callee,
/// each marked `Push` of the call site.
pub open spec fn fcall_returns(
    all_actions: Seq<(u32, Seq<ActionModel>)>,
    fvars: Seq<VariableModel>,
    fid: u32,
    ret_ids: Seq<u32>,
    i: int,
    acc_l: Seq<LinkModel>,
    acc_c: Seq<((u32, u32), StackContext)>,
) -> (Seq<LinkModel>, Seq<((u32, u32), StackContext)>)
    decreases ret_ids.len() - i,
{
    if i < 0 || i >= ret_ids.len() {
        (acc_l, acc_c)
    } else {
        let r = ret_ids[i];
        let tmp = links_between(fvars, fid, spec_vars_at(all_actions, r), r, 0, Seq::empty());
        fcall_returns(
            all_actions,
            fvars,
            fid,
            ret_ids,
            i + 1,
            extend_unique(acc_l, tmp),
            acc_c + ctx_pairs(tmp, StackContext::Push(fid), 0),
        )
    }
}

/// The link from a call's base expression to the call site, unless the base
/// is itself a call.
pub open spec fn fcall_base(
    d: DictModel,
    fvars: Seq<VariableModel>,
    fid: u32,
    invoked: Seq<u32>,
    acc: Seq<LinkModel>,
) -> Seq<LinkModel> {
    if invoked.len() >= 1 {
        match find_node(d.nodes, invoked[0]) {
            Some(b) => {
                if b.kind != NodeKind::FunctionCall {
                    extend_unique(acc, links_between(fvars, invoked[0], fvars, fid, 0, Seq::empty()))
                } else {
                    acc
                }
            },
            None => acc,
        }
    } else {
        acc
    }
}

/// The links of one call site.  A call whose callee resolves to a function
/// with recorded return statements is internal: the site links to each return
/// (`Push`), defined parameters link to invoked arguments (`Pop`), and the
/// base links to the site.  Any other call is treated like a subscript site.
pub open spec fn fcall_links_at(
    d: DictModel,
    all_actions: Seq<(u32, Seq<ActionModel>)>,
    all_returns: Seq<(u32, Seq<u32>)>,
    all_params: Seq<(u32, Seq<u32>)>,
    fid: u32,
    invoked: Seq<u32>,
    acc_l: Seq<LinkModel>,
    acc_c: Seq<((u32, u32), StackContext)>,
) -> (Seq<LinkModel>, Seq<((u32, u32), StackContext)>) {
    match find_node(d.nodes, fid) {
        None => (acc_l, acc_c),
        Some(w) => {
            if w.children.len() == 0 {
                (acc_l, acc_c)
            } else {
                let decl: Option<u32> = match find_node(d.nodes, w.children[0]) {
                    Some(c0) => c0.referenced_declaration,
                    None => None,
                };
                let fvars = spec_vars_at(all_actions, fid);
                let user = match decl {
                    Some(dd) => find_entry(all_returns, dd) is Some,
                    None => false,
                };
                if !user {
                    let acc1 = if invoked.len() >= 2 {
                        let with_extras = index_extras(all_actions, fvars, fid, invoked, 2, acc_l);
                        extend_unique(
                            with_extras,
                            links_between(
                                fvars,
                                fid,
                                spec_vars_at(all_actions, invoked[1]),
                                invoked[1],
                                0,
                                Seq::empty(),
                            ),
                        )
                    } else {
                        acc_l
                    };
                    (fcall_base(d, fvars, fid, invoked, acc1), acc_c)
                } else {
                    let dd = decl.unwrap();
                    let ret_ids = find_entry(all_returns, dd).unwrap().1;
                    let rc = fcall_returns(all_actions, fvars, fid, ret_ids, 0, acc_l, acc_c);
                    let pc = match find_entry(all_params, dd) {
                        Some(defs) => fcall_pairing(
                            all_actions,
                            defs.1,
                            invoked,
                            fid,
                            0,
                            rc.0,
                            rc.1,
                        ),
                        None => rc,
                    };
                    (fcall_base(d, fvars, fid, invoked, pc.0), pc.1)
                }
            }
        },
    }
}

/// The links and context of the call sites `fcalls[i..]`.
pub open spec fn fcall_links(
    d: DictModel,
    all_actions: Seq<(u32, Seq<ActionModel>)>,
    all_returns: Seq<(u32, Seq<u32>)>,
    all_params: Seq<(u32, Seq<u32>)>,
    fcalls: Seq<(u32, Seq<u32>)>,
    i: int,
    acc_l: Seq<LinkModel>,
    acc_c: Seq<((u32, u32), StackContext)>,
) -> (Seq<LinkModel>, Seq<((u32, u32), StackContext)>)
    decreases fcalls.len() - i,
{
    if i < 0 || i >= fcalls.len() {
        (acc_l, acc_c)
    } else {
        let at = fcall_links_at(
            d,
            all_actions,
            all_returns,
            all_params,
            fcalls[i].0,
            fcalls[i].1,
            acc_l,
            acc_c,
        );
        fcall_links(d, all_actions, all_returns, all_params, fcalls, i + 1, at.0, at.1)
    }
}

/// The per-vertex actions of all analyzed functions, in function order.
pub open spec fn agg_actions(d: DictModel, cfgs: Seq<CfgModel>, i: int) -> Seq<
    (u32, Seq<ActionModel>),
>
    decreases cfgs.len() - i,
{
    if i < 0 || i >= cfgs.len() {
        Seq::empty()
    } else {
        spec_actions_map(d, cfgs[i].vertices, 0) + agg_actions(d, cfgs, i + 1)
    }
}

/// All execution paths of all analyzed functions.
pub open spec fn agg_paths(cfgs: Seq<CfgModel>, i: int) -> Seq<Seq<u32>>
    decreases cfgs.len() - i,
{
    if i < 0 || i >= cfgs.len() {
        Seq::empty()
    } else {
        cfgs[i].execution_paths + agg_paths(cfgs, i + 1)
    }
}

/// All subscript sites of all analyzed functions.
pub open spec fn agg_indexes(cfgs: Seq<CfgModel>, i: int) -> Seq<(u32, Seq<u32>)>
    decreases cfgs.len() - i,
{
    if i < 0 || i >= cfgs.len() {
        Seq::empty()
    } else {
        cfgs[i].indexes + agg_indexes(cfgs, i + 1)
    }
}

/// All call sites of all analyzed functions.
pub open spec fn agg_fcalls(cfgs: Seq<CfgModel>, i: int) -> Seq<(u32, Seq<u32>)>
    decreases cfgs.len() - i,
{
    if i < 0 || i >= cfgs.len() {
        Seq::empty()
    } else {
        cfgs[i].fcalls + agg_fcalls(cfgs, i + 1)
    }
}

/// All return tables of all analyzed functions.
pub open spec fn agg_returns(cfgs: Seq<CfgModel>, i: int) -> Seq<(u32, Seq<u32>)>
    decreases cfgs.len() - i,
{
    if i < 0 || i >= cfgs.len() {
        Seq::empty()
    } else {
        cfgs[i].returns_map + agg_returns(cfgs, i + 1)
    }
}

/// All parameter tables of all analyzed functions.
pub open spec fn agg_params(cfgs: Seq<CfgModel>, i: int) -> Seq<(u32, Seq<u32>)>
    decreases cfgs.len() - i,
{
    if i < 0 || i >= cfgs.len() {
        Seq::empty()
    } else {
        cfgs[i].parameters + agg_params(cfgs, i + 1)
    }
}

/// All vertices of all analyzed functions.
pub open spec fn agg_vertices(cfgs: Seq<CfgModel>, i: int) -> Seq<VertexModel>
    decreases cfgs.len() - i,
{
    if i < 0 || i >= cfgs.len() {
        Seq::empty()
    } else {
        cfgs[i].vertices + agg_vertices(cfgs, i + 1)
    }
}

/// The union of the intra-procedural links of the functions `cfgs[i..]`.
pub open spec fn internal_links(d: DictModel, cfgs: Seq<CfgModel>, i: int, acc: Seq<LinkModel>) -> Seq<
    LinkModel,
>
    decreases cfgs.len() - i,
{
    if i < 0 || i >= cfgs.len() {
        acc
    } else {
        internal_links(d, cfgs, i + 1, extend_unique(acc, spec_find_links(d, cfgs[i])))
    }
}

/// One analyzed data-flow graph per function.
pub open spec fn dfgs_of(d: DictModel, cfgs: Seq<CfgModel>, i: int) -> Seq<(u32, DfgModel)>
    decreases cfgs.len() - i,
{
    if i < 0 || i >= cfgs.len() {
        Seq::empty()
    } else {
        seq![
            (
                cfgs[i].function_id,
                DfgModel { cfg: cfgs[i], new_actions: spec_actions_map(d, cfgs[i].vertices, 0) },
            ),
        ] + dfgs_of(d, cfgs, i + 1)
    }
}

/// The variables of the contract's state declarations `ids[i..]`, read from
/// the recorded actions, without duplicates.
pub open spec fn states_set(
    all_actions: Seq<(u32, Seq<ActionModel>)>,
    ids: Seq<u32>,
    i: int,
    acc: Seq<VariableModel>,
) -> Seq<VariableModel>
    decreases ids.len() - i,
{
    if i < 0 || i >= ids.len() {
        acc
    } else {
        states_set(all_actions, ids, i + 1, extend_unique(acc, spec_vars_at(all_actions, ids[i])))
    }
}

/// Mathematical value of a `Network`.
#[verifier::ext_equal]
pub struct NetModel {
    pub dict: DictModel,
    pub contract_id: u32,
    pub links: Seq<LinkModel>,
    pub context: Seq<((u32, u32), StackContext)>,
    pub dfgs: Seq<(u32, DfgModel)>,
    pub all_actions: Seq<(u32, Seq<ActionModel>)>,
    pub all_indexes: Seq<(u32, Seq<u32>)>,
    pub all_execution_paths: Seq<Seq<u32>>,
    pub all_fcalls: Seq<(u32, Seq<u32>)>,
    pub all_returns: Seq<(u32, Seq<u32>)>,
    pub all_vertices: Seq<VertexModel>,
    pub all_defined_parameters: Seq<(u32, Seq<u32>)>,
    pub all_states: Seq<VariableModel>,
}

/// The whole network built over a dictionary, a chosen contract and its
/// per-function CFGs: the per-function links, then the assignment, index and
/// call families, all deduplicated in that order.
pub open spec fn spec_network(d: DictModel, cid: u32, cfgs: Seq<CfgModel>) -> NetModel {
    let internal = internal_links(d, cfgs, 0, Seq::empty());
    let aa = agg_actions(d, cfgs, 0);
    let idxs = agg_indexes(cfgs, 0);
    let fcs = agg_fcalls(cfgs, 0);
    let rets = agg_returns(cfgs, 0);
    let prms = agg_params(cfgs, 0);
    let states = states_set(
        aa,
        crate::dict::spec_states_by_contract_id(d, cid),
        0,
        Seq::empty(),
    );
    let fam_a = assignment_links(aa, 0, Seq::empty());
    let fam_i = index_links(d, aa, idxs, 0, Seq::empty());
    let fam_f = fcall_links(d, aa, rets, prms, fcs, 0, Seq::empty(), Seq::empty());
    let external = extend_unique(
        extend_unique(extend_unique(Seq::<LinkModel>::empty(), fam_a), fam_i),
        fam_f.0,
    );
    NetModel {
        dict: d,
        contract_id: cid,
        links: extend_unique(extend_unique(Seq::<LinkModel>::empty(), internal), external),
        context: fam_f.1,
        dfgs: dfgs_of(d, cfgs, 0),
        all_actions: aa,
        all_indexes: idxs,
        all_execution_paths: agg_paths(cfgs, 0),
        all_fcalls: fcs,
        all_returns: rets,
        all_vertices: agg_vertices(cfgs, 0),
        all_defined_parameters: prms,
        all_states: states,
    }
}

/// Copy a plain id list.
#[verifier::loop_isolation(false)]
pub fn dup_ids(v: &Vec<u32>) -> (r: Vec<u32>)
    ensures
        r@ == v@,
{
    let mut r: Vec<u32> = Vec::new();
    let mut i: usize = 0;
    while i < v.len()
        invariant
            0 <= i <= v@.len(),
            r@ == v@.take(i as int),
        decreases v@.len() - i,
    {
        r.push(v[i]);
        proof {
            assert(r@ =~= v@.take(i + 1));
        }
        i = i + 1;
    }
    proof {
        assert(v@.take(v@.len() as int) =~= v@);
    }
    r
}

/// The variables recorded at a site: exec mirror of `spec_vars_at`.
#[verifier::loop_isolation(false)]
pub fn vars_at(all_actions: &Vec<(u32, Vec<Action>)>, id: u32) -> (r: Vec<Variable>)
    ensures
        r.deep_view() == spec_vars_at(all_actions.deep_view(), id),
{
    let mut r: Vec<Variable> = Vec::new();
    proof {
        assert(r.deep_view() =~~= Seq::<VariableModel>::empty());
    }
    let acts = match crate::flow::lookup_actions(all_actions, id) {
        None => {
            return r;
        },
        Some(a) => a,
    };
    let ghost av = acts.deep_view();
    let ghost mut done: Seq<VariableModel> = Seq::empty();
    proof {
        assert(r.deep_view() =~~= extend_unique(Seq::<VariableModel>::empty(), done));
    }
    let mut i: usize = 0;
    while i < acts.len()
        invariant
            0 <= i <= av.len(),
            r.deep_view() == extend_unique(Seq::<VariableModel>::empty(), done),
            vars_of_actions(av, 0) == done + vars_of_actions(av, i as int),
        decreases av.len() - i,
    {
        let v = match &acts[i] {
            Action::Use(v, _) => v,
            Action::Kill(v, _) => v,
        };
        crate::variable::vars_insert_unique(&mut r, v.duplicate());
        proof {
            crate::vecset::lemma_extend_unique_snoc(
                Seq::<VariableModel>::empty(),
                done,
                v.deep_view(),
            );
            done = done.push(v.deep_view());
            assert(vars_of_actions(av, 0) =~~= done + vars_of_actions(av, i + 1));
        }
        i = i + 1;
    }
    proof {
        assert(vars_of_actions(av, av.len() as int) =~~= Seq::<VariableModel>::empty());
        assert(done + Seq::<VariableModel>::empty() =~~= done);
    }
    r
}

/// Append a copy of every action-table entry.
#[verifier::loop_isolation(false)]
fn append_amap(dst: &mut Vec<(u32, Vec<Action>)>, src: &Vec<(u32, Vec<Action>)>)
    ensures
        final(dst).deep_view() == old(dst).deep_view() + src.deep_view(),
{
    let ghost sv = src.deep_view();
    let mut i: usize = 0;
    while i < src.len()
        invariant
            0 <= i <= sv.len(),
            dst.deep_view() == old(dst).deep_view() + sv.take(i as int),
        decreases sv.len() - i,
    {
        let ghost pre = dst.deep_view();
        dst.push((src[i].0, crate::oracle::dup_actions(&src[i].1)));
        proof {
            assert(dst.deep_view() =~~= pre.push(sv[i as int]));
            assert(pre.push(sv[i as int]) =~~= old(dst).deep_view() + sv.take(i + 1));
        }
        i = i + 1;
    }
    proof {
        assert(sv.take(sv.len() as int) =~~= sv);
    }
}

/// Append a copy of every id-list entry.
#[verifier::loop_isolation(false)]
fn append_entries(dst: &mut Vec<(u32, Vec<u32>)>, src: &Vec<(u32, Vec<u32>)>)
    ensures
        final(dst).deep_view() == old(dst).deep_view() + src.deep_view(),
{
    let ghost sv = src.deep_view();
    let mut i: usize = 0;
    while i < src.len()
        invariant
            0 <= i <= sv.len(),
            dst.deep_view() == old(dst).deep_view() + sv.take(i as int),
        decreases sv.len() - i,
    {
        let ghost pre = dst.deep_view();
        dst.push((src[i].0, dup_ids(&src[i].1)));
        proof {
            assert(dst.deep_view() =~~= pre.push(sv[i as int]));
            assert(pre.push(sv[i as int]) =~~= old(dst).deep_view() + sv.take(i + 1));
        }
        i = i + 1;
    }
    proof {
        assert(sv.take(sv.len() as int) =~~= sv);
    }
}

/// Append a copy of every path.
#[verifier::loop_isolation(false)]
fn append_paths(dst: &mut Vec<Vec<u32>>, src: &Vec<Vec<u32>>)
    ensures
        final(dst).deep_view() == old(dst).deep_view() + src.deep_view(),
{
    let ghost sv = src.deep_view();
    let mut i: usize = 0;
    while i < src.len()
        invariant
            0 <= i <= sv.len(),
            dst.deep_view() == old(dst).deep_view() + sv.take(i as int),
        decreases sv.len() - i,
    {
        let ghost pre = dst.deep_view();
        dst.push(dup_ids(&src[i]));
        proof {
            assert(dst.deep_view() =~~= pre.push(sv[i as int]));
            assert(pre.push(sv[i as int]) =~~= old(dst).deep_view() + sv.take(i + 1));
        }
        i = i + 1;
    }
    proof {
        assert(sv.take(sv.len() as int) =~~= sv);
    }
}

/// Append a copy of every vertex.
#[verifier::loop_isolation(false)]
fn append_vertices(dst: &mut Vec<Vertex>, src: &Vec<Vertex>)
    ensures
        final(dst).deep_view() == old(dst).deep_view() + src.deep_view(),
{
    let ghost sv = src.deep_view();
    let mut i: usize = 0;
    while i < src.len()
        invariant
            0 <= i <= sv.len(),
            dst.deep_view() == old(dst).deep_view() + sv.take(i as int),
        decreases sv.len() - i,
    {
        let ghost pre = dst.deep_view();
        dst.push(
            Vertex {
                id: src[i].id,
                source: src[i].source.clone(),
                shape: src[i].shape,
            },
        );
        proof {
            assert(dst.deep_view() =~~= pre.push(sv[i as int]));
            assert(pre.push(sv[i as int]) =~~= old(dst).deep_view() + sv.take(i + 1));
        }
        i = i + 1;
    }
    proof {
        assert(sv.take(sv.len() as int) =~~= sv);
    }
}

/// The whole-contract data-dependency network: the union of the per-function
/// data-flow graphs, stitched with assignment, index and call/return links,
/// with a call-stack mark per call edge.
pub struct Network {
    pub dict: Dictionary,
    pub links: Vec<DataLink>,
    pub dfgs: Vec<(u32, DataFlowGraph)>,
    pub dot: crate::dot::Dot,
    pub contract_id: u32,
    pub context: Vec<((u32, u32), StackContext)>,
    pub all_actions: Vec<(u32, Vec<Action>)>,
    pub all_indexes: Vec<(u32, Vec<u32>)>,
    pub all_execution_paths: Vec<Vec<u32>>,
    pub all_fcalls: Vec<(u32, Vec<u32>)>,
    pub all_returns: Vec<(u32, Vec<u32>)>,
    pub all_vertices: Vec<Vertex>,
    pub all_defined_parameters: Vec<(u32, Vec<u32>)>,
    pub all_states: Vec<Variable>,
}

impl Network {
    /// Whether this network is exactly the one that `spec_network` describes
    /// for its dictionary, contract and the given CFGs.
    pub open spec fn built_from(&self, cfgs: Seq<CfgModel>) -> bool {
        let m = spec_network(self.dict.deep_view(), self.contract_id, cfgs);
        &&& self.links.deep_view() == m.links
        &&& self.context.deep_view() == m.context
        &&& self.dfgs.deep_view() == m.dfgs
        &&& self.all_actions.deep_view() == m.all_actions
        &&& self.all_indexes.deep_view() == m.all_indexes
        &&& self.all_execution_paths.deep_view() == m.all_execution_paths
        &&& self.all_fcalls.deep_view() == m.all_fcalls
        &&& self.all_returns.deep_view() == m.all_returns
        &&& self.all_vertices.deep_view() == m.all_vertices
        &&& self.all_defined_parameters.deep_view() == m.all_defined_parameters
        &&& self.all_states.deep_view() == m.all_states
    }

    /// Build the network of one contract from its dictionary and the CFGs of
    /// its functions: run the per-function analysis, aggregate the per-site
    /// tables, and compute the assignment, index and call link families.
    #[verifier::loop_isolation(false)]
    pub fn new(dict: Dictionary, contract_id: u32, cfgs: Vec<Cfg>) -> (r: Network)
        ensures
            r.dict.deep_view() == dict.deep_view(),
            r.contract_id == contract_id,
            r.built_from(cfgs.deep_view()),
    {
        let ghost dv = dict.deep_view();
        let ghost cv = cfgs.deep_view();
        let ghost m = spec_network(dv, contract_id, cv);
        let mut remaining = cfgs;
        let mut links: Vec<DataLink> = Vec::new();
        let mut dfgs: Vec<(u32, DataFlowGraph)> = Vec::new();
        let ghost mut idone: Seq<LinkModel> = Seq::empty();
        proof {
            assert(links.deep_view() =~~= idone);
            assert(dfgs.deep_view() =~~= Seq::<(u32, DfgModel)>::empty());
        }
        let ghost mut i: int = 0;
        proof {
            lemma_dfgs_of_from(dv, cv, 0, -1);
            assert(remaining.deep_view() =~~= cv.skip(0int));
        }
        while remaining.len() > 0
            invariant
                0 <= i <= cv.len(),
                remaining.deep_view() == cv.skip(i),
                internal_links(dv, cv, 0, Seq::empty()) == internal_links(dv, cv, i, links.deep_view()),
                dfgs.deep_view() == dfgs_of(dv, cv, 0).take(i),
                dfgs_of(dv, cv, 0).len() == cv.len(),
            decreases remaining@.len(),
        {
            let cfg = remaining.remove(0);
            proof {
                assert(cfg.deep_view() == cv.skip(i)[0]);
                assert(cv.skip(i)[0] == cv[i]);
                assert(cv.skip(i).drop_first() =~~= cv.skip(i + 1));
                assert(remaining.deep_view() =~~= cv.skip(i + 1));
            }
            let mut dfg = DataFlowGraph::new(cfg);
            let ls = dfg.find_links(&dict);
            links_extend_unique(&mut links, &ls);
            let fid = dfg.cfg.function_id;
            let ghost predfgs = dfgs.deep_view();
            dfgs.push((fid, dfg));
            proof {
                lemma_dfgs_of_index(dv, cv, i);
                assert(dfgs.deep_view() =~~= predfgs.push(dfgs_of(dv, cv, 0)[i]));
                assert(dfgs.deep_view() =~~= dfgs_of(dv, cv, 0).take(i + 1));
                assert(internal_links(dv, cv, i, idone) == internal_links(
                    dv,
                    cv,
                    i + 1,
                    extend_unique(idone, spec_find_links(dv, cv[i])),
                ));
                idone = extend_unique(idone, spec_find_links(dv, cv[i]));
                i = i + 1;
            }
        }
        proof {
            assert(cv.skip(i).len() == 0);
            assert(i == cv.len());
            assert(internal_links(dv, cv, cv.len() as int, links.deep_view()) == links.deep_view());
            assert(dfgs_of(dv, cv, 0).take(cv.len() as int) =~~= dfgs_of(dv, cv, 0));
        }
        let ghost internal = links.deep_view();
        let mut all_actions: Vec<(u32, Vec<Action>)> = Vec::new();
        let mut all_execution_paths: Vec<Vec<u32>> = Vec::new();
        let mut all_indexes: Vec<(u32, Vec<u32>)> = Vec::new();
        let mut all_fcalls: Vec<(u32, Vec<u32>)> = Vec::new();
        let mut all_returns: Vec<(u32, Vec<u32>)> = Vec::new();
        let mut all_defined_parameters: Vec<(u32, Vec<u32>)> = Vec::new();
        let mut all_vertices: Vec<Vertex> = Vec::new();
        proof {
            assert(all_actions.deep_view() =~~= Seq::<(u32, Seq<ActionModel>)>::empty());
            assert(all_execution_paths.deep_view() =~~= Seq::<Seq<u32>>::empty());
            assert(all_indexes.deep_view() =~~= Seq::<(u32, Seq<u32>)>::empty());
            assert(all_fcalls.deep_view() =~~= Seq::<(u32, Seq<u32>)>::empty());
            assert(all_returns.deep_view() =~~= Seq::<(u32, Seq<u32>)>::empty());
            assert(all_defined_parameters.deep_view() =~~= Seq::<(u32, Seq<u32>)>::empty());
            assert(all_vertices.deep_view() =~~= Seq::<VertexModel>::empty());
        }
        let mut k: usize = 0;
        while k < dfgs.len()
            invariant
                0 <= k <= cv.len(),
                dfgs.deep_view() == dfgs_of(dv, cv, 0),
                dfgs_of(dv, cv, 0).len() == cv.len(),
                all_actions.deep_view() + agg_actions(dv, cv, k as int) == agg_actions(dv, cv, 0),
                all_execution_paths.deep_view() + agg_paths(cv, k as int) == agg_paths(cv, 0),
                all_indexes.deep_view() + agg_indexes(cv, k as int) == agg_indexes(cv, 0),
                all_fcalls.deep_view() + agg_fcalls(cv, k as int) == agg_fcalls(cv, 0),
                all_returns.deep_view() + agg_returns(cv, k as int) == agg_returns(cv, 0),
                all_defined_parameters.deep_view() + agg_params(cv, k as int) == agg_params(cv, 0),
                all_vertices.deep_view() + agg_vertices(cv, k as int) == agg_vertices(cv, 0),
            decreases cv.len() - k,
        {
            proof {
                lemma_dfgs_of_index(dv, cv, k as int);
            }
            let dfg = &dfgs[k].1;
            append_amap(&mut all_actions, &dfg.new_actions);
            append_paths(&mut all_execution_paths, &dfg.cfg.execution_paths);
            append_entries(&mut all_indexes, &dfg.cfg.indexes);
            append_entries(&mut all_fcalls, &dfg.cfg.fcalls);
            append_entries(&mut all_returns, &dfg.cfg.returns_map);
            append_entries(&mut all_defined_parameters, &dfg.cfg.parameters);
            append_vertices(&mut all_vertices, &dfg.cfg.vertices);
            proof {
                assert(all_actions.deep_view() + agg_actions(dv, cv, k + 1) =~~= agg_actions(
                    dv,
                    cv,
                    0,
                ));
                assert(all_execution_paths.deep_view() + agg_paths(cv, k + 1) =~~= agg_paths(cv, 0));
                assert(all_indexes.deep_view() + agg_indexes(cv, k + 1) =~~= agg_indexes(cv, 0));
                assert(all_fcalls.deep_view() + agg_fcalls(cv, k + 1) =~~= agg_fcalls(cv, 0));
                assert(all_returns.deep_view() + agg_returns(cv, k + 1) =~~= agg_returns(cv, 0));
                assert(all_defined_parameters.deep_view() + agg_params(cv, k + 1) =~~= agg_params(
                    cv,
                    0,
                ));
                assert(all_vertices.deep_view() + agg_vertices(cv, k + 1) =~~= agg_vertices(cv, 0));
            }
            k = k + 1;
        }
        proof {
            assert(agg_actions(dv, cv, cv.len() as int) =~~= Seq::<(u32, Seq<ActionModel>)>::empty());
            assert(all_actions.deep_view() =~~= all_actions.deep_view() + Seq::<
                (u32, Seq<ActionModel>),
            >::empty());
            assert(agg_paths(cv, cv.len() as int) =~~= Seq::<Seq<u32>>::empty());
            assert(all_execution_paths.deep_view() =~~= all_execution_paths.deep_view() + Seq::<
                Seq<u32>,
            >::empty());
            assert(agg_indexes(cv, cv.len() as int) =~~= Seq::<(u32, Seq<u32>)>::empty());
            assert(all_indexes.deep_view() =~~= all_indexes.deep_view() + Seq::<
                (u32, Seq<u32>),
            >::empty());
            assert(agg_fcalls(cv, cv.len() as int) =~~= Seq::<(u32, Seq<u32>)>::empty());
            assert(all_fcalls.deep_view() =~~= all_fcalls.deep_view() + Seq::<
                (u32, Seq<u32>),
            >::empty());
            assert(agg_returns(cv, cv.len() as int) =~~= Seq::<(u32, Seq<u32>)>::empty());
            assert(all_returns.deep_view() =~~= all_returns.deep_view() + Seq::<
                (u32, Seq<u32>),
            >::empty());
            assert(agg_params(cv, cv.len() as int) =~~= Seq::<(u32, Seq<u32>)>::empty());
            assert(all_defined_parameters.deep_view() =~~= all_defined_parameters.deep_view() + Seq::<
                (u32, Seq<u32>),
            >::empty());
            assert(agg_vertices(cv, cv.len() as int) =~~= Seq::<VertexModel>::empty());
            assert(all_vertices.deep_view() =~~= all_vertices.deep_view() + Seq::<
                VertexModel,
            >::empty());
        }
        let state_ids = dict.lookup_states_by_contract_id(contract_id);
        let ghost sids = state_ids@;
        let mut all_states: Vec<Variable> = Vec::new();
        proof {
            assert(all_states.deep_view() =~~= Seq::<VariableModel>::empty());
        }
        let mut s: usize = 0;
        while s < state_ids.len()
            invariant
                0 <= s <= sids.len(),
                states_set(all_actions.deep_view(), sids, 0, Seq::empty()) == states_set(
                    all_actions.deep_view(),
                    sids,
                    s as int,
                    all_states.deep_view(),
                ),
            decreases sids.len() - s,
        {
            let ghost pre_states = all_states.deep_view();
            let vs = vars_at(&all_actions, state_ids[s]);
            crate::variable::vars_extend_unique(&mut all_states, &vs);
            proof {
                assert(states_set(all_actions.deep_view(), sids, s as int, pre_states)
                    == states_set(all_actions.deep_view(), sids, s + 1, all_states.deep_view()));
            }
            s = s + 1;
        }
        let asg_links = find_assignment_links_of(&all_actions);
        let idx_links = find_index_links_of(&dict, &all_actions, &all_indexes);
        let fc = find_fcall_links_of(
            &dict,
            &all_actions,
            &all_returns,
            &all_defined_parameters,
            &all_fcalls,
        );
        let (fcl, context) = fc;
        let mut external: Vec<DataLink> = Vec::new();
        proof {
            assert(external.deep_view() =~~= Seq::<LinkModel>::empty());
        }
        links_extend_unique(&mut external, &asg_links);
        links_extend_unique(&mut external, &idx_links);
        links_extend_unique(&mut external, &fcl);
        let mut final_links: Vec<DataLink> = Vec::new();
        proof {
            assert(final_links.deep_view() =~~= Seq::<LinkModel>::empty());
        }
        links_extend_unique(&mut final_links, &links);
        links_extend_unique(&mut final_links, &external);
        proof {
            assert(states_set(all_actions.deep_view(), sids, sids.len() as int, all_states.deep_view())
                == all_states.deep_view());
            assert(sids == crate::dict::spec_states_by_contract_id(dv, contract_id));
            assert(final_links.deep_view() == m.links);
            assert(context.deep_view() == m.context);
            assert(all_states.deep_view() == m.all_states);
        }
        Network {
            dict,
            links: final_links,
            dfgs,
            dot: crate::dot::Dot::new(),
            contract_id,
            context,
            all_actions,
            all_indexes,
            all_execution_paths,
            all_fcalls,
            all_returns,
            all_vertices,
            all_defined_parameters,
            all_states,
        }
    }
}

/// A node of the traversal graph: a variable at a vertex.
pub type NetNode = (Variable, u32);

/// The predicate selecting an adjacency entry by its source node.
pub open spec fn adj_key_is(k: (VariableModel, u32)) -> spec_fn(
    ((VariableModel, u32), Seq<(VariableModel, u32)>),
) -> bool {
    |e: ((VariableModel, u32), Seq<(VariableModel, u32)>)| e.0 == k
}

/// The first adjacency entry for a source node, if any.
pub open spec fn find_adj(
    t: Seq<((VariableModel, u32), Seq<(VariableModel, u32)>)>,
    k: (VariableModel, u32),
) -> Option<((VariableModel, u32), Seq<(VariableModel, u32)>)> {
    find_first(t, adj_key_is(k))
}

/// The adjacency table with `v` appended to the entry of `k`, creating the
/// entry when missing.
pub open spec fn adj_insert(
    t: Seq<((VariableModel, u32), Seq<(VariableModel, u32)>)>,
    k: (VariableModel, u32),
    v: (VariableModel, u32),
) -> Seq<((VariableModel, u32), Seq<(VariableModel, u32)>)>
    decreases t.len(),
{
    if t.len() == 0 {
        seq![(k, seq![v])]
    } else if t[0].0 == k {
        seq![(t[0].0, t[0].1.push(v))] + t.drop_first()
    } else {
        seq![t[0]] + adj_insert(t.drop_first(), k, v)
    }
}

/// If position `j` holds the first entry keyed `k`, insertion extends it.
pub proof fn lemma_adj_insert_at(
    t: Seq<((VariableModel, u32), Seq<(VariableModel, u32)>)>,
    k: (VariableModel, u32),
    v: (VariableModel, u32),
    j: int,
)
    requires
        0 <= j < t.len(),
        t[j].0 == k,
        forall|m: int| 0 <= m < j ==> t[m].0 != k,
    ensures
        adj_insert(t, k, v) == t.update(j, (k, t[j].1.push(v))),
    decreases j,
{
    if j == 0 {
        assert(adj_insert(t, k, v) =~~= t.update(0int, (k, t[0].1.push(v))));
    } else {
        lemma_adj_insert_at(t.drop_first(), k, v, j - 1);
        assert(t.drop_first().update(j - 1, (k, t[j].1.push(v))) =~~= t.update(
            j,
            (k, t[j].1.push(v)),
        ).drop_first());
        assert(seq![t[0]] + t.update(j, (k, t[j].1.push(v))).drop_first() =~~= t.update(
            j,
            (k, t[j].1.push(v)),
        ));
    }
}

/// If no entry carries the key, insertion appends a fresh one.
pub proof fn lemma_adj_insert_none(
    t: Seq<((VariableModel, u32), Seq<(VariableModel, u32)>)>,
    k: (VariableModel, u32),
    v: (VariableModel, u32),
)
    requires
        forall|m: int| 0 <= m < t.len() ==> t[m].0 != k,
    ensures
        adj_insert(t, k, v) == t.push((k, seq![v])),
    decreases t.len(),
{
    if t.len() == 0 {
        assert(adj_insert(t, k, v) =~~= t.push((k, seq![v])));
    } else {
        lemma_adj_insert_none(t.drop_first(), k, v);
        assert(seq![t[0]] + t.drop_first().push((k, seq![v])) =~~= t.push((k, seq![v])));
    }
}

/// The adjacency table of the links `links[i..]`: each link appends its sink
/// to its source's entry.
pub open spec fn build_adj(
    links: Seq<LinkModel>,
    i: int,
    acc: Seq<((VariableModel, u32), Seq<(VariableModel, u32)>)>,
) -> Seq<((VariableModel, u32), Seq<(VariableModel, u32)>)>
    decreases links.len() - i,
{
    if i < 0 || i >= links.len() {
        acc
    } else {
        build_adj(links, i + 1, adj_insert(acc, links[i].from, links[i].to))
    }
}

/// The predicate selecting a context mark by its edge.
pub open spec fn ctx_key_is(k: (u32, u32)) -> spec_fn(((u32, u32), StackContext)) -> bool {
    |e: ((u32, u32), StackContext)| e.0 == k
}

/// The first context mark of an edge, if any.
pub open spec fn ctx_find(ctx: Seq<((u32, u32), StackContext)>, k: (u32, u32)) -> Option<
    ((u32, u32), StackContext),
> {
    find_first(ctx, ctx_key_is(k))
}

/// The stack transition an edge demands: a `Push` mark pushes the call site,
/// a `Pop` mark requires the site on top of the stack and pops it, an
/// unmarked edge leaves the stack alone.
pub open spec fn stack_transition(
    ctx: Seq<((u32, u32), StackContext)>,
    from: u32,
    to: u32,
    stack: Seq<u32>,
) -> (bool, Seq<u32>) {
    match ctx_find(ctx, (from, to)) {
        Some(e) => match e.1 {
            StackContext::Push(id) => (true, stack.push(id)),
            StackContext::Pop(id) => {
                if stack.len() == 0 {
                    (false, stack)
                } else {
                    (stack.last() == id, stack.drop_last())
                }
            },
        },
        None => (true, stack),
    }
}

/// The context-sensitive walk from `source`: the node is marked visited
/// under the current stack and appended to the path; a node without outgoing
/// links emits the path, otherwise each sink is explored when its stack
/// transition is valid and the (sink, stack) pair is new.
pub open spec fn spec_traverse(
    adj: Seq<((VariableModel, u32), Seq<(VariableModel, u32)>)>,
    ctx: Seq<((u32, u32), StackContext)>,
    source: (VariableModel, u32),
    visited: Seq<((VariableModel, u32), Seq<u32>)>,
    stack: Seq<u32>,
    path: Seq<(VariableModel, u32)>,
    acc: Seq<Seq<(VariableModel, u32)>>,
    fuel: nat,
) -> Seq<Seq<(VariableModel, u32)>>
    decreases fuel, 1int, 0int,
{
    let visited1 = visited.push((source, stack));
    let path1 = path.push(source);
    match find_adj(adj, source) {
        None => acc.push(path1),
        Some(e) => spec_traverse_list(adj, ctx, e.1, 0, source, visited1, stack, path1, acc, fuel),
    }
}

/// Explore the sinks `sinks[j..]` of `source` in order.
pub open spec fn spec_traverse_list(
    adj: Seq<((VariableModel, u32), Seq<(VariableModel, u32)>)>,
    ctx: Seq<((u32, u32), StackContext)>,
    sinks: Seq<(VariableModel, u32)>,
    j: int,
    source: (VariableModel, u32),
    visited: Seq<((VariableModel, u32), Seq<u32>)>,
    stack: Seq<u32>,
    path: Seq<(VariableModel, u32)>,
    acc: Seq<Seq<(VariableModel, u32)>>,
    fuel: nat,
) -> Seq<Seq<(VariableModel, u32)>>
    decreases fuel, 0int, sinks.len() - j + 1,
{
    if j < 0 || j >= sinks.len() {
        acc
    } else {
        let sink = sinks[j];
        let tr = stack_transition(ctx, source.1, sink.1, stack);
        let acc1 = if tr.0 && fuel > 0 && !visited.contains((sink, tr.1)) {
            spec_traverse(adj, ctx, sink, visited, tr.1, path, acc, (fuel - 1) as nat)
        } else {
            acc
        };
        spec_traverse_list(adj, ctx, sinks, j + 1, source, visited, stack, path, acc1, fuel)
    }
}

/// What `traverse` returns for a source node.
pub open spec fn spec_traverse_result(
    links: Seq<LinkModel>,
    ctx: Seq<((u32, u32), StackContext)>,
    source: (VariableModel, u32),
) -> Seq<Seq<(VariableModel, u32)>> {
    spec_traverse(
        build_adj(links, 0, Seq::empty()),
        ctx,
        source,
        Seq::empty(),
        Seq::empty(),
        Seq::empty(),
        Seq::empty(),
        usize::MAX as nat,
    )
}

/// The drawing text of the analyzed graphs `dfgs[i..]`: each CFG's vertex
/// lines, then its edge lines.
pub open spec fn dfgs_text(dfgs: Seq<(u32, DfgModel)>, i: int) -> Seq<char>
    decreases dfgs.len() - i,
{
    if i < 0 || i >= dfgs.len() {
        Seq::empty()
    } else {
        crate::dot::cfg_text(dfgs[i].1.cfg) + dfgs_text(dfgs, i + 1)
    }
}

/// The `i`-th analyzed graph is the `i`-th CFG with its action map.
pub proof fn lemma_dfgs_of_index(d: DictModel, cfgs: Seq<CfgModel>, i: int)
    requires
        0 <= i < cfgs.len(),
    ensures
        dfgs_of(d, cfgs, 0).len() == cfgs.len(),
        dfgs_of(d, cfgs, 0)[i] == (
            cfgs[i].function_id,
            DfgModel { cfg: cfgs[i], new_actions: spec_actions_map(d, cfgs[i].vertices, 0) },
        ),
{
    lemma_dfgs_of_from(d, cfgs, 0, i);
}

/// Helper induction for `lemma_dfgs_of_index`.
proof fn lemma_dfgs_of_from(d: DictModel, cfgs: Seq<CfgModel>, j: int, i: int)
    requires
        0 <= j <= cfgs.len(),
        j <= i < cfgs.len() || i == -1,
    ensures
        dfgs_of(d, cfgs, j).len() == cfgs.len() - j,
        i >= j ==> dfgs_of(d, cfgs, j)[i - j] == (
            cfgs[i].function_id,
            DfgModel { cfg: cfgs[i], new_actions: spec_actions_map(d, cfgs[i].vertices, 0) },
        ),
    decreases cfgs.len() - j,
{
    if j < cfgs.len() {
        lemma_dfgs_of_from(d, cfgs, j + 1, if i >= j + 1 {
            i
        } else {
            -1
        });
    }
}

/// The assignment links of every site: exec mirror of `assignment_links`.
#[verifier::loop_isolation(false)]
fn find_assignment_links_of(all_actions: &Vec<(u32, Vec<Action>)>) -> (r: Vec<DataLink>)
    ensures
        r.deep_view() == assignment_links(all_actions.deep_view(), 0, Seq::empty()),
{
    let ghost aa = all_actions.deep_view();
    let mut r: Vec<DataLink> = Vec::new();
    proof {
        assert(r.deep_view() =~~= Seq::<LinkModel>::empty());
    }
    let mut i: usize = 0;
    while i < all_actions.len()
        invariant
            0 <= i <= aa.len(),
            assignment_links(aa, 0, Seq::empty()) == assignment_links(aa, i as int, r.deep_view()),
        decreases aa.len() - i,
    {
        let vid = all_actions[i].0;
        let kv = kill_vars(&all_actions[i].1);
        let uv = use_vars(&all_actions[i].1);
        let mut tmp: Vec<DataLink> = Vec::new();
        proof {
            assert(tmp.deep_view() =~~= Seq::<LinkModel>::empty());
            assert(aa[i as int] == (all_actions@[i as int].0, all_actions@[i as int].1.deep_view()));
        }
        add_links_between(&kv, vid, &uv, vid, &mut tmp);
        links_extend_unique(&mut r, &tmp);
        i = i + 1;
    }
    r
}

/// The index links of every subscript site: exec mirror of `index_links`.
#[verifier::loop_isolation(false)]
fn find_index_links_of(
    dict: &Dictionary,
    all_actions: &Vec<(u32, Vec<Action>)>,
    all_indexes: &Vec<(u32, Vec<u32>)>,
) -> (r: Vec<DataLink>)
    ensures
        r.deep_view() == index_links(
            dict.deep_view(),
            all_actions.deep_view(),
            all_indexes.deep_view(),
            0,
            Seq::empty(),
        ),
{
    let ghost dv = dict.deep_view();
    let ghost aa = all_actions.deep_view();
    let ghost ix = all_indexes.deep_view();
    let mut r: Vec<DataLink> = Vec::new();
    proof {
        assert(r.deep_view() =~~= Seq::<LinkModel>::empty());
    }
    let mut i: usize = 0;
    while i < all_indexes.len()
        invariant
            0 <= i <= ix.len(),
            index_links(dv, aa, ix, 0, Seq::empty()) == index_links(dv, aa, ix, i as int, r.deep_view()),
        decreases ix.len() - i,
    {
        let iid = all_indexes[i].0;
        let params = &all_indexes[i].1;
        proof {
            assert(ix[i as int] == (all_indexes@[i as int].0, all_indexes@[i as int].1@));
        }
        let ivars = vars_at(all_actions, iid);
        let ghost entry_start = r.deep_view();
        if params.len() >= 2 {
            let ghost pv = params@;
            let mut j: usize = 2;
            while j < params.len()
                invariant
                    2 <= j <= pv.len() || (pv.len() < 2 && j == 2),
                    pv.len() >= 2,
                    ivars.deep_view() == spec_vars_at(aa, iid),
                    index_extras(aa, spec_vars_at(aa, iid), iid, pv, 2, entry_start) == index_extras(
                        aa,
                        spec_vars_at(aa, iid),
                        iid,
                        pv,
                        j as int,
                        r.deep_view(),
                    ),
                decreases pv.len() - j,
            {
                let pvars = vars_at(all_actions, params[j]);
                let mut tmp: Vec<DataLink> = Vec::new();
                proof {
                    assert(tmp.deep_view() =~~= Seq::<LinkModel>::empty());
                }
                add_links_between(&ivars, iid, &pvars, params[j], &mut tmp);
                links_extend_unique(&mut r, &tmp);
                j = j + 1;
            }
            let pvars1 = vars_at(all_actions, params[1]);
            let mut tmp1: Vec<DataLink> = Vec::new();
            proof {
                assert(tmp1.deep_view() =~~= Seq::<LinkModel>::empty());
            }
            add_links_between(&ivars, iid, &pvars1, params[1], &mut tmp1);
            links_extend_unique(&mut r, &tmp1);
        }
        if params.len() >= 1 {
            let base_hit = match dict.lookup(params[0]) {
                Some(b) => b.kind != NodeKind::IndexAccess,
                None => false,
            };
            if base_hit {
                let mut tmp2: Vec<DataLink> = Vec::new();
                proof {
                    assert(tmp2.deep_view() =~~= Seq::<LinkModel>::empty());
                }
                add_links_between(&ivars, params[0], &ivars, iid, &mut tmp2);
                links_extend_unique(&mut r, &tmp2);
            }
        }
        proof {
            assert(r.deep_view() == index_links_at(dv, aa, ix[i as int].0, ix[i as int].1, entry_start));
            assert(index_links(dv, aa, ix, i as int, entry_start) == index_links(
                dv,
                aa,
                ix,
                i + 1,
                r.deep_view(),
            ));
        }
        i = i + 1;
    }
    r
}

/// The call links and context of every call site: exec mirror of
/// `fcall_links`.
#[verifier::loop_isolation(false)]
fn find_fcall_links_of(
    dict: &Dictionary,
    all_actions: &Vec<(u32, Vec<Action>)>,
    all_returns: &Vec<(u32, Vec<u32>)>,
    all_params: &Vec<(u32, Vec<u32>)>,
    all_fcalls: &Vec<(u32, Vec<u32>)>,
) -> (r: (Vec<DataLink>, Vec<((u32, u32), StackContext)>))
    ensures
        ({
            let fc = fcall_links(
                dict.deep_view(),
                all_actions.deep_view(),
                all_returns.deep_view(),
                all_params.deep_view(),
                all_fcalls.deep_view(),
                0,
                Seq::empty(),
                Seq::empty(),
            );
            r.0.deep_view() == fc.0 && r.1.deep_view() == fc.1
        }),
{
    let ghost dv = dict.deep_view();
    let ghost aa = all_actions.deep_view();
    let ghost rt = all_returns.deep_view();
    let ghost pm = all_params.deep_view();
    let ghost fcv = all_fcalls.deep_view();
    let mut links: Vec<DataLink> = Vec::new();
    let mut ctx: Vec<((u32, u32), StackContext)> = Vec::new();
    proof {
        assert(links.deep_view() =~~= Seq::<LinkModel>::empty());
        assert(ctx.deep_view() =~~= Seq::<((u32, u32), StackContext)>::empty());
    }
    let mut i: usize = 0;
    while i < all_fcalls.len()
        invariant
            0 <= i <= fcv.len(),
            fcall_links(dv, aa, rt, pm, fcv, 0, Seq::empty(), Seq::empty()) == fcall_links(
                dv,
                aa,
                rt,
                pm,
                fcv,
                i as int,
                links.deep_view(),
                ctx.deep_view(),
            ),
        decreases fcv.len() - i,
    {
        let fid = all_fcalls[i].0;
        let invoked = &all_fcalls[i].1;
        proof {
            assert(fcv[i as int] == (all_fcalls@[i as int].0, all_fcalls@[i as int].1@));
        }
        let ghost entry_links = links.deep_view();
        let ghost entry_ctx = ctx.deep_view();
        let proceed = match dict.lookup(fid) {
            Some(n) => n.children.len() > 0,
            None => false,
        };
        if proceed {
            let wn = match dict.lookup(fid) {
                Some(n) => n,
                None => {
                    proof {
                        assert(false);
                    }
                    unreached()
                },
            };
            let decl: Option<u32> = match dict.lookup(wn.children[0]) {
                Some(c0) => c0.referenced_declaration,
                None => None,
            };
            let fvars = vars_at(all_actions, fid);
            let user: bool = match decl {
                Some(dd) => lookup_entry(all_returns, dd).is_some(),
                None => false,
            };
            if !user {
                if invoked.len() >= 2 {
                    let ghost iv = invoked@;
                    let mut j: usize = 2;
                    while j < invoked.len()
                        invariant
                            2 <= j <= iv.len() || (iv.len() < 2 && j == 2),
                            iv.len() >= 2,
                            fvars.deep_view() == spec_vars_at(aa, fid),
                            index_extras(aa, spec_vars_at(aa, fid), fid, iv, 2, entry_links)
                                == index_extras(
                                aa,
                                spec_vars_at(aa, fid),
                                fid,
                                iv,
                                j as int,
                                links.deep_view(),
                            ),
                        decreases iv.len() - j,
                    {
                        let pvars = vars_at(all_actions, invoked[j]);
                        let mut tmp: Vec<DataLink> = Vec::new();
                        proof {
                            assert(tmp.deep_view() =~~= Seq::<LinkModel>::empty());
                        }
                        add_links_between(&fvars, fid, &pvars, invoked[j], &mut tmp);
                        links_extend_unique(&mut links, &tmp);
                        j = j + 1;
                    }
                    let pvars1 = vars_at(all_actions, invoked[1]);
                    let mut tmp1: Vec<DataLink> = Vec::new();
                    proof {
                        assert(tmp1.deep_view() =~~= Seq::<LinkModel>::empty());
                    }
                    add_links_between(&fvars, fid, &pvars1, invoked[1], &mut tmp1);
                    links_extend_unique(&mut links, &tmp1);
                }
                add_fcall_base(dict, all_actions, &fvars, fid, invoked, &mut links);
            } else {
                let dd = match decl {
                    Some(dd) => dd,
                    None => {
                        proof {
                            assert(false);
                        }
                        unreached()
                    },
                };
                let ret_ids: Vec<u32> = match lookup_entry(all_returns, dd) {
                    Some(rs) => dup_ids(rs),
                    None => {
                        proof {
                            assert(false);
                        }
                        unreached()
                    },
                };
                let ghost rv = ret_ids@;
                let mut q: usize = 0;
                while q < ret_ids.len()
                    invariant
                        0 <= q <= rv.len(),
                        fvars.deep_view() == spec_vars_at(aa, fid),
                        fcall_returns(aa, spec_vars_at(aa, fid), fid, rv, 0, entry_links, entry_ctx)
                            == fcall_returns(
                            aa,
                            spec_vars_at(aa, fid),
                            fid,
                            rv,
                            q as int,
                            links.deep_view(),
                            ctx.deep_view(),
                        ),
                    decreases rv.len() - q,
                {
                    let rvars = vars_at(all_actions, ret_ids[q]);
                    let mut tmp: Vec<DataLink> = Vec::new();
                    proof {
                        assert(tmp.deep_view() =~~= Seq::<LinkModel>::empty());
                    }
                    add_links_between(&fvars, fid, &rvars, ret_ids[q], &mut tmp);
                    push_ctx_pairs(&tmp, StackContext::Push(fid), &mut ctx);
                    links_extend_unique(&mut links, &tmp);
                    q = q + 1;
                }
                let ghost after_ret_links = links.deep_view();
                let ghost after_ret_ctx = ctx.deep_view();
                match lookup_entry(all_params, dd) {
                    Some(defs) => {
                        let defined = dup_ids(defs);
                        let ghost dvv = defined@;
                        let ghost ivv = invoked@;
                        let mut idx: usize = 0;
                        while invoked.len() >= 2 && idx < invoked.len() - 1
                            invariant
                                0 <= idx,
                                idx + 1 <= ivv.len() || idx == 0,
                                fcall_pairing(aa, dvv, ivv, fid, 0, after_ret_links, after_ret_ctx)
                                    == fcall_pairing(
                                    aa,
                                    dvv,
                                    ivv,
                                    fid,
                                    idx as int,
                                    links.deep_view(),
                                    ctx.deep_view(),
                                ),
                            decreases ivv.len() - idx,
                        {
                            if idx < defined.len() {
                                let d_id = defined[idx];
                                let i_id = invoked[idx + 1];
                                let dvars = vars_at(all_actions, d_id);
                                let ivars2 = vars_at(all_actions, i_id);
                                let mut tmp: Vec<DataLink> = Vec::new();
                                proof {
                                    assert(tmp.deep_view() =~~= Seq::<LinkModel>::empty());
                                }
                                add_links_between(&dvars, d_id, &ivars2, i_id, &mut tmp);
                                push_ctx_pairs(&tmp, StackContext::Pop(fid), &mut ctx);
                                links_extend_unique(&mut links, &tmp);
                            }
                            idx = idx + 1;
                        }
                        proof {
                            assert(fcall_pairing(aa, dvv, ivv, fid, idx as int, links.deep_view(), ctx.deep_view())
                                == (links.deep_view(), ctx.deep_view()));
                        }
                    },
                    None => {},
                }
                add_fcall_base(dict, all_actions, &fvars, fid, invoked, &mut links);
            }
        }
        proof {
            let at = fcall_links_at(dv, aa, rt, pm, fcv[i as int].0, fcv[i as int].1, entry_links, entry_ctx);
            assert(at.0 == links.deep_view() && at.1 == ctx.deep_view());
            assert(fcall_links(dv, aa, rt, pm, fcv, i as int, entry_links, entry_ctx) == fcall_links(
                dv,
                aa,
                rt,
                pm,
                fcv,
                i + 1,
                links.deep_view(),
                ctx.deep_view(),
            ));
        }
        i = i + 1;
    }
    (links, ctx)
}

/// Add the base-to-site link of a call, when the base is not itself a call:
/// exec mirror of `fcall_base`.
fn add_fcall_base(
    dict: &Dictionary,
    all_actions: &Vec<(u32, Vec<Action>)>,
    fvars: &Vec<Variable>,
    fid: u32,
    invoked: &Vec<u32>,
    links: &mut Vec<DataLink>,
)
    requires
        fvars.deep_view() == spec_vars_at(all_actions.deep_view(), fid),
    ensures
        final(links).deep_view() == fcall_base(
            dict.deep_view(),
            spec_vars_at(all_actions.deep_view(), fid),
            fid,
            invoked@,
            old(links).deep_view(),
        ),
{
    if invoked.len() >= 1 {
        let hit = match dict.lookup(invoked[0]) {
            Some(b) => b.kind != NodeKind::FunctionCall,
            None => false,
        };
        if hit {
            let mut tmp: Vec<DataLink> = Vec::new();
            proof {
                assert(tmp.deep_view() =~~= Seq::<LinkModel>::empty());
            }
            add_links_between(fvars, invoked[0], fvars, fid, &mut tmp);
            links_extend_unique(links, &tmp);
        }
    }
}

/// Record one context mark per link.
#[verifier::loop_isolation(false)]
fn push_ctx_pairs(
    tmp: &Vec<DataLink>,
    sc: StackContext,
    ctx: &mut Vec<((u32, u32), StackContext)>,
)
    ensures
        final(ctx).deep_view() == old(ctx).deep_view() + ctx_pairs(tmp.deep_view(), sc, 0),
{
    let ghost tv = tmp.deep_view();
    let ghost mut done: Seq<((u32, u32), StackContext)> = Seq::empty();
    proof {
        assert(ctx.deep_view() =~~= old(ctx).deep_view() + done);
    }
    let mut i: usize = 0;
    while i < tmp.len()
        invariant
            0 <= i <= tv.len(),
            ctx.deep_view() == old(ctx).deep_view() + done,
            ctx_pairs(tv, sc, 0) == done + ctx_pairs(tv, sc, i as int),
        decreases tv.len() - i,
    {
        let ghost pre = ctx.deep_view();
        ctx.push(((tmp[i].from.1, tmp[i].to.1), sc));
        proof {
            assert(ctx.deep_view() =~~= pre.push(((tv[i as int].from.1, tv[i as int].to.1), sc)));
            done = done + seq![((tv[i as int].from.1, tv[i as int].to.1), sc)];
            assert(ctx.deep_view() =~~= old(ctx).deep_view() + done);
            assert(ctx_pairs(tv, sc, 0) =~~= done + ctx_pairs(tv, sc, i + 1));
        }
        i = i + 1;
    }
    proof {
        assert(ctx_pairs(tv, sc, tv.len() as int) =~~= Seq::<((u32, u32), StackContext)>::empty());
        assert(ctx.deep_view() =~~= old(ctx).deep_view() + (done + Seq::<
            ((u32, u32), StackContext),
        >::empty()));
    }
}

/// Both endpoints of every link are ids of the given vertices.
pub open spec fn links_in(vs: Seq<VertexModel>, ls: Seq<LinkModel>) -> bool {
    forall|i: int|
        0 <= i < ls.len() ==> crate::cfg::has_vertex(vs, (#[trigger] ls[i]).from.1)
            && crate::cfg::has_vertex(vs, ls[i].to.1)
}

/// Every key of an id-list table is a vertex.
pub open spec fn keys_in(vs: Seq<VertexModel>, t: Seq<(u32, Seq<u32>)>) -> bool {
    forall|i: int| 0 <= i < t.len() ==> crate::cfg::has_vertex(vs, (#[trigger] t[i]).0)
}

/// Every id stored in an id-list table is a vertex.
pub open spec fn vals_in(vs: Seq<VertexModel>, t: Seq<(u32, Seq<u32>)>) -> bool {
    crate::cfg::table_in_vertices(t, vs)
}

/// Adding a link between two vertices keeps all endpoints at vertices.
proof fn lemma_links_in_push(vs: Seq<VertexModel>, ls: Seq<LinkModel>, l: LinkModel)
    requires
        links_in(vs, ls),
        crate::cfg::has_vertex(vs, l.from.1),
        crate::cfg::has_vertex(vs, l.to.1),
    ensures
        links_in(vs, push_unique(ls, l)),
{
    if !ls.contains(l) {
        assert forall|i: int|
            0 <= i < ls.push(l).len() implies crate::cfg::has_vertex(
            vs,
            (#[trigger] ls.push(l)[i]).from.1,
        ) && crate::cfg::has_vertex(vs, ls.push(l)[i].to.1) by {
            if i < ls.len() {
                assert(ls.push(l)[i] == ls[i]);
            } else {
                assert(ls.push(l)[i] == l);
            }
        }
    }
}

/// Deduplicating extension keeps endpoints at vertices.
proof fn lemma_links_in_extend(vs: Seq<VertexModel>, s: Seq<LinkModel>, t: Seq<LinkModel>)
    requires
        links_in(vs, s),
        links_in(vs, t),
    ensures
        links_in(vs, extend_unique(s, t)),
{
    let r = extend_unique(s, t);
    assert forall|i: int|
        0 <= i < r.len() implies crate::cfg::has_vertex(vs, (#[trigger] r[i]).from.1)
            && crate::cfg::has_vertex(vs, r[i].to.1) by {
        assert(r.contains(r[i]));
        crate::vecset::lemma_extend_unique_member(s, t, r[i]);
        if s.contains(r[i]) {
            let m = choose|m: int| 0 <= m < s.len() && s[m] == r[i];
            assert(crate::cfg::has_vertex(vs, s[m].from.1));
        } else {
            let m = choose|m: int| 0 <= m < t.len() && t[m] == r[i];
            assert(crate::cfg::has_vertex(vs, t[m].from.1));
        }
    }
}

/// The links between two sites join those sites.
proof fn lemma_links_between_in(
    vs: Seq<VertexModel>,
    fromv: Seq<VariableModel>,
    fid: u32,
    tov: Seq<VariableModel>,
    tid: u32,
    i: int,
    acc: Seq<LinkModel>,
)
    requires
        links_in(vs, acc),
        crate::cfg::has_vertex(vs, fid),
        crate::cfg::has_vertex(vs, tid),
    ensures
        links_in(vs, links_between(fromv, fid, tov, tid, i, acc)),
    decreases fromv.len() - i,
{
    if 0 <= i < fromv.len() {
        lemma_links_between_inner_in(vs, fromv[i], fid, tov, tid, 0, acc);
        lemma_links_between_in(
            vs,
            fromv,
            fid,
            tov,
            tid,
            i + 1,
            links_between_inner(fromv[i], fid, tov, tid, 0, acc),
        );
    }
}

/// Helper induction over the sink variables.
proof fn lemma_links_between_inner_in(
    vs: Seq<VertexModel>,
    k: VariableModel,
    fid: u32,
    tov: Seq<VariableModel>,
    tid: u32,
    j: int,
    acc: Seq<LinkModel>,
)
    requires
        links_in(vs, acc),
        crate::cfg::has_vertex(vs, fid),
        crate::cfg::has_vertex(vs, tid),
    ensures
        links_in(vs, links_between_inner(k, fid, tov, tid, j, acc)),
    decreases tov.len() - j,
{
    if 0 <= j < tov.len() {
        let pl = pair_links(k, fid, tov[j], tid);
        if pl.len() > 0 {
            lemma_links_in_push(vs, acc, pl[0]);
            lemma_links_between_inner_in(vs, k, fid, tov, tid, j + 1, push_unique(acc, pl[0]));
        } else {
            lemma_links_between_inner_in(vs, k, fid, tov, tid, j + 1, acc);
        }
    }
}

/// The assignment family joins vertices, given that every action table key
/// is a vertex.
proof fn lemma_assignment_links_in(
    vs: Seq<VertexModel>,
    aa: Seq<(u32, Seq<ActionModel>)>,
    i: int,
    acc: Seq<LinkModel>,
)
    requires
        links_in(vs, acc),
        forall|m: int| 0 <= m < aa.len() ==> crate::cfg::has_vertex(vs, (#[trigger] aa[m]).0),
    ensures
        links_in(vs, assignment_links(aa, i, acc)),
    decreases aa.len() - i,
{
    if 0 <= i < aa.len() {
        let vid = aa[i].0;
        let kv = extend_unique(Seq::<VariableModel>::empty(), kill_vars_of(aa[i].1, 0));
        let uv = extend_unique(Seq::<VariableModel>::empty(), use_vars_of(aa[i].1, 0));
        let tmp = links_between(kv, vid, uv, vid, 0, Seq::empty());
        assert(links_in(vs, Seq::<LinkModel>::empty()));
        lemma_links_between_in(vs, kv, vid, uv, vid, 0, Seq::empty());
        lemma_links_in_extend(vs, acc, tmp);
        lemma_assignment_links_in(vs, aa, i + 1, extend_unique(acc, tmp));
    }
}

/// The index family joins vertices, given sound subscript tables.
proof fn lemma_index_links_in(
    vs: Seq<VertexModel>,
    d: DictModel,
    aa: Seq<(u32, Seq<ActionModel>)>,
    idxs: Seq<(u32, Seq<u32>)>,
    i: int,
    acc: Seq<LinkModel>,
)
    requires
        links_in(vs, acc),
        keys_in(vs, idxs),
        vals_in(vs, idxs),
    ensures
        links_in(vs, index_links(d, aa, idxs, i, acc)),
    decreases idxs.len() - i,
{
    if 0 <= i < idxs.len() {
        lemma_index_links_at_in(vs, d, aa, idxs[i].0, idxs[i].1, acc);
        lemma_index_links_in(vs, d, aa, idxs, i + 1, index_links_at(
            d,
            aa,
            idxs[i].0,
            idxs[i].1,
            acc,
        ));
    }
}

/// The links of one subscript site join vertices.
proof fn lemma_index_links_at_in(
    vs: Seq<VertexModel>,
    d: DictModel,
    aa: Seq<(u32, Seq<ActionModel>)>,
    iid: u32,
    params: Seq<u32>,
    acc: Seq<LinkModel>,
)
    requires
        links_in(vs, acc),
        crate::cfg::has_vertex(vs, iid),
        forall|j: int| 0 <= j < params.len() ==> crate::cfg::has_vertex(vs, #[trigger] params[j]),
    ensures
        links_in(vs, index_links_at(d, aa, iid, params, acc)),
{
    let ivars = spec_vars_at(aa, iid);
    let acc1 = if params.len() >= 2 {
        lemma_index_extras_in(vs, aa, ivars, iid, params, 2, acc);
        let with_extras = index_extras(aa, ivars, iid, params, 2, acc);
        let tmp = links_between(ivars, iid, spec_vars_at(aa, params[1]), params[1], 0, Seq::empty());
        assert(links_in(vs, Seq::<LinkModel>::empty()));
        lemma_links_between_in(vs, ivars, iid, spec_vars_at(aa, params[1]), params[1], 0, Seq::empty());
        lemma_links_in_extend(vs, with_extras, tmp);
        extend_unique(with_extras, tmp)
    } else {
        acc
    };
    if params.len() >= 1 {
        match find_node(d.nodes, params[0]) {
            Some(b) => {
                if b.kind != NodeKind::IndexAccess {
                    let tmp2 = links_between(ivars, params[0], ivars, iid, 0, Seq::empty());
                    assert(links_in(vs, Seq::<LinkModel>::empty()));
                    lemma_links_between_in(vs, ivars, params[0], ivars, iid, 0, Seq::empty());
                    lemma_links_in_extend(vs, acc1, tmp2);
                }
            },
            None => {},
        }
    }
}

/// The extra-argument links of one site join vertices.
proof fn lemma_index_extras_in(
    vs: Seq<VertexModel>,
    aa: Seq<(u32, Seq<ActionModel>)>,
    ivars: Seq<VariableModel>,
    iid: u32,
    params: Seq<u32>,
    j: int,
    acc: Seq<LinkModel>,
)
    requires
        links_in(vs, acc),
        crate::cfg::has_vertex(vs, iid),
        forall|m: int| 0 <= m < params.len() ==> crate::cfg::has_vertex(vs, #[trigger] params[m]),
    ensures
        links_in(vs, index_extras(aa, ivars, iid, params, j, acc)),
    decreases params.len() - j,
{
    if 2 <= j < params.len() {
        let tmp = links_between(ivars, iid, spec_vars_at(aa, params[j]), params[j], 0, Seq::empty());
        assert(links_in(vs, Seq::<LinkModel>::empty()));
        lemma_links_between_in(vs, ivars, iid, spec_vars_at(aa, params[j]), params[j], 0, Seq::empty());
        lemma_links_in_extend(vs, acc, tmp);
        lemma_index_extras_in(vs, aa, ivars, iid, params, j + 1, extend_unique(acc, tmp));
    }
}

/// The call family joins vertices, given sound call, return and parameter
/// tables.
proof fn lemma_fcall_links_in(
    vs: Seq<VertexModel>,
    d: DictModel,
    aa: Seq<(u32, Seq<ActionModel>)>,
    rt: Seq<(u32, Seq<u32>)>,
    pm: Seq<(u32, Seq<u32>)>,
    fcs: Seq<(u32, Seq<u32>)>,
    i: int,
    acc_l: Seq<LinkModel>,
    acc_c: Seq<((u32, u32), StackContext)>,
)
    requires
        links_in(vs, acc_l),
        keys_in(vs, fcs),
        vals_in(vs, fcs),
        vals_in(vs, rt),
        vals_in(vs, pm),
    ensures
        links_in(vs, fcall_links(d, aa, rt, pm, fcs, i, acc_l, acc_c).0),
    decreases fcs.len() - i,
{
    if 0 <= i < fcs.len() {
        lemma_fcall_links_at_in(vs, d, aa, rt, pm, fcs[i].0, fcs[i].1, acc_l, acc_c);
        let at = fcall_links_at(d, aa, rt, pm, fcs[i].0, fcs[i].1, acc_l, acc_c);
        lemma_fcall_links_in(vs, d, aa, rt, pm, fcs, i + 1, at.0, at.1);
    }
}

/// The links of one call site join vertices.
proof fn lemma_fcall_links_at_in(
    vs: Seq<VertexModel>,
    d: DictModel,
    aa: Seq<(u32, Seq<ActionModel>)>,
    rt: Seq<(u32, Seq<u32>)>,
    pm: Seq<(u32, Seq<u32>)>,
    fid: u32,
    invoked: Seq<u32>,
    acc_l: Seq<LinkModel>,
    acc_c: Seq<((u32, u32), StackContext)>,
)
    requires
        links_in(vs, acc_l),
        crate::cfg::has_vertex(vs, fid),
        forall|j: int| 0 <= j < invoked.len() ==> crate::cfg::has_vertex(vs, #[trigger] invoked[j]),
        vals_in(vs, rt),
        vals_in(vs, pm),
    ensures
        links_in(vs, fcall_links_at(d, aa, rt, pm, fid, invoked, acc_l, acc_c).0),
{
    match find_node(d.nodes, fid) {
        None => {},
        Some(w) => {
            if w.children.len() > 0 {
                let decl: Option<u32> = match find_node(d.nodes, w.children[0]) {
                    Some(c0) => c0.referenced_declaration,
                    None => None,
                };
                let fvars = spec_vars_at(aa, fid);
                let user = match decl {
                    Some(dd) => find_entry(rt, dd) is Some,
                    None => false,
                };
                if !user {
                    let acc1 = if invoked.len() >= 2 {
                        lemma_index_extras_in(vs, aa, fvars, fid, invoked, 2, acc_l);
                        let with_extras = index_extras(aa, fvars, fid, invoked, 2, acc_l);
                        let tmp = links_between(
                            fvars,
                            fid,
                            spec_vars_at(aa, invoked[1]),
                            invoked[1],
                            0,
                            Seq::empty(),
                        );
                        assert(links_in(vs, Seq::<LinkModel>::empty()));
                        lemma_links_between_in(
                            vs,
                            fvars,
                            fid,
                            spec_vars_at(aa, invoked[1]),
                            invoked[1],
                            0,
                            Seq::empty(),
                        );
                        lemma_links_in_extend(vs, with_extras, tmp);
                        extend_unique(with_extras, tmp)
                    } else {
                        acc_l
                    };
                    lemma_fcall_base_in(vs, d, fvars, fid, invoked, acc1);
                } else {
                    let dd = decl.unwrap();
                    let entry = find_entry(rt, dd).unwrap();
                    crate::vecset::lemma_find_first_is_member(rt, crate::cfg::entry_key_is(dd), entry);
                    let em = choose|m: int| 0 <= m < rt.len() && rt[m] == entry;
                    assert(forall|j: int|
                        0 <= j < entry.1.len() ==> crate::cfg::has_vertex(
                            vs,
                            #[trigger] entry.1[j],
                        ));
                    lemma_fcall_returns_in(vs, aa, fvars, fid, entry.1, 0, acc_l, acc_c);
                    let rc = fcall_returns(aa, fvars, fid, entry.1, 0, acc_l, acc_c);
                    let pc = match find_entry(pm, dd) {
                        Some(defs) => {
                            crate::vecset::lemma_find_first_is_member(
                                pm,
                                crate::cfg::entry_key_is(dd),
                                defs,
                            );
                            let dm = choose|m: int| 0 <= m < pm.len() && pm[m] == defs;
                            assert(forall|j: int|
                                0 <= j < defs.1.len() ==> crate::cfg::has_vertex(
                                    vs,
                                    #[trigger] defs.1[j],
                                ));
                            lemma_fcall_pairing_in(vs, aa, defs.1, invoked, fid, 0, rc.0, rc.1);
                            fcall_pairing(aa, defs.1, invoked, fid, 0, rc.0, rc.1)
                        },
                        None => rc,
                    };
                    lemma_fcall_base_in(vs, d, fvars, fid, invoked, pc.0);
                }
            }
        },
    }
}

/// The base link of a call joins vertices.
proof fn lemma_fcall_base_in(
    vs: Seq<VertexModel>,
    d: DictModel,
    fvars: Seq<VariableModel>,
    fid: u32,
    invoked: Seq<u32>,
    acc: Seq<LinkModel>,
)
    requires
        links_in(vs, acc),
        crate::cfg::has_vertex(vs, fid),
        forall|j: int| 0 <= j < invoked.len() ==> crate::cfg::has_vertex(vs, #[trigger] invoked[j]),
    ensures
        links_in(vs, fcall_base(d, fvars, fid, invoked, acc)),
{
    if invoked.len() >= 1 {
        match find_node(d.nodes, invoked[0]) {
            Some(b) => {
                if b.kind != NodeKind::FunctionCall {
                    let tmp = links_between(fvars, invoked[0], fvars, fid, 0, Seq::empty());
                    assert(links_in(vs, Seq::<LinkModel>::empty()));
                    lemma_links_between_in(vs, fvars, invoked[0], fvars, fid, 0, Seq::empty());
                    lemma_links_in_extend(vs, acc, tmp);
                }
            },
            None => {},
        }
    }
}

/// The return links of a call join vertices.
proof fn lemma_fcall_returns_in(
    vs: Seq<VertexModel>,
    aa: Seq<(u32, Seq<ActionModel>)>,
    fvars: Seq<VariableModel>,
    fid: u32,
    ret_ids: Seq<u32>,
    i: int,
    acc_l: Seq<LinkModel>,
    acc_c: Seq<((u32, u32), StackContext)>,
)
    requires
        links_in(vs, acc_l),
        crate::cfg::has_vertex(vs, fid),
        forall|j: int| 0 <= j < ret_ids.len() ==> crate::cfg::has_vertex(vs, #[trigger] ret_ids[j]),
    ensures
        links_in(vs, fcall_returns(aa, fvars, fid, ret_ids, i, acc_l, acc_c).0),
    decreases ret_ids.len() - i,
{
    if 0 <= i < ret_ids.len() {
        let r = ret_ids[i];
        let tmp = links_between(fvars, fid, spec_vars_at(aa, r), r, 0, Seq::empty());
        assert(links_in(vs, Seq::<LinkModel>::empty()));
        lemma_links_between_in(vs, fvars, fid, spec_vars_at(aa, r), r, 0, Seq::empty());
        lemma_links_in_extend(vs, acc_l, tmp);
        lemma_fcall_returns_in(
            vs,
            aa,
            fvars,
            fid,
            ret_ids,
            i + 1,
            extend_unique(acc_l, tmp),
            acc_c + ctx_pairs(tmp, StackContext::Push(fid), 0),
        );
    }
}

/// The parameter-pairing links of a call join vertices.
proof fn lemma_fcall_pairing_in(
    vs: Seq<VertexModel>,
    aa: Seq<(u32, Seq<ActionModel>)>,
    defined: Seq<u32>,
    invoked: Seq<u32>,
    fid: u32,
    idx: int,
    acc_l: Seq<LinkModel>,
    acc_c: Seq<((u32, u32), StackContext)>,
)
    requires
        links_in(vs, acc_l),
        forall|j: int| 0 <= j < defined.len() ==> crate::cfg::has_vertex(vs, #[trigger] defined[j]),
        forall|j: int| 0 <= j < invoked.len() ==> crate::cfg::has_vertex(vs, #[trigger] invoked[j]),
    ensures
        links_in(vs, fcall_pairing(aa, defined, invoked, fid, idx, acc_l, acc_c).0),
    decreases invoked.len() - idx,
{
    if 0 <= idx && idx + 1 < invoked.len() {
        if idx < defined.len() {
            let d_id = defined[idx];
            let i_id = invoked[idx + 1];
            let tmp = links_between(
                spec_vars_at(aa, d_id),
                d_id,
                spec_vars_at(aa, i_id),
                i_id,
                0,
                Seq::empty(),
            );
            assert(links_in(vs, Seq::<LinkModel>::empty()));
            lemma_links_between_in(
                vs,
                spec_vars_at(aa, d_id),
                d_id,
                spec_vars_at(aa, i_id),
                i_id,
                0,
                Seq::empty(),
            );
            lemma_links_in_extend(vs, acc_l, tmp);
            lemma_fcall_pairing_in(
                vs,
                aa,
                defined,
                invoked,
                fid,
                idx + 1,
                extend_unique(acc_l, tmp),
                acc_c + ctx_pairs(tmp, StackContext::Pop(fid), 0),
            );
        } else {
            lemma_fcall_pairing_in(vs, aa, defined, invoked, fid, idx + 1, acc_l, acc_c);
        }
    }
}

/// A vertex of one analyzed CFG is a vertex of the aggregate.
proof fn lemma_agg_vertices_weaken(cfgs: Seq<CfgModel>, j: int, i: int, id: u32)
    requires
        0 <= j <= i < cfgs.len(),
        crate::cfg::has_vertex(cfgs[i].vertices, id),
    ensures
        crate::cfg::has_vertex(agg_vertices(cfgs, j), id),
    decreases i - j,
{
    if j == i {
        let k = choose|k: int| 0 <= k < cfgs[i].vertices.len() && cfgs[i].vertices[k].id == id;
        assert(agg_vertices(cfgs, j)[k] == cfgs[i].vertices[k]);
    } else {
        lemma_agg_vertices_weaken(cfgs, j + 1, i, id);
        let k = choose|k: int|
            0 <= k < agg_vertices(cfgs, j + 1).len() && (#[trigger] agg_vertices(cfgs, j + 1)[k]).id
                == id;
        assert(agg_vertices(cfgs, j)[cfgs[j].vertices.len() + k] == agg_vertices(cfgs, j + 1)[k]);
    }
}

/// Keys and ids of two sound tables stay sound when joined.
proof fn lemma_concat_table_sound(
    vs: Seq<VertexModel>,
    a: Seq<(u32, Seq<u32>)>,
    b: Seq<(u32, Seq<u32>)>,
)
    requires
        keys_in(vs, a),
        vals_in(vs, a),
        keys_in(vs, b),
        vals_in(vs, b),
    ensures
        keys_in(vs, a + b),
        vals_in(vs, a + b),
{
    assert forall|i: int|
        0 <= i < (a + b).len() implies crate::cfg::has_vertex(vs, (#[trigger] (a + b)[i]).0) by {
        if i < a.len() {
            assert((a + b)[i] == a[i]);
        } else {
            assert((a + b)[i] == b[i - a.len()]);
        }
    }
    assert forall|i: int, j: int|
        0 <= i < (a + b).len() && 0 <= j < (a + b)[i].1.len() implies crate::cfg::has_vertex(
        vs,
        #[trigger] (a + b)[i].1[j],
    ) by {
        if i < a.len() {
            assert((a + b)[i] == a[i]);
            assert(crate::cfg::has_vertex(vs, a[i].1[j]));
        } else {
            assert((a + b)[i] == b[i - a.len()]);
            assert(crate::cfg::has_vertex(vs, b[i - a.len()].1[j]));
        }
    }
}

/// A per-function table sound for its own CFG is sound for the aggregate.
proof fn lemma_lift_table_sound(cfgs: Seq<CfgModel>, i: int, t: Seq<(u32, Seq<u32>)>)
    requires
        0 <= i < cfgs.len(),
        keys_in(cfgs[i].vertices, t),
        vals_in(cfgs[i].vertices, t),
    ensures
        keys_in(agg_vertices(cfgs, 0), t),
        vals_in(agg_vertices(cfgs, 0), t),
{
    assert forall|m: int|
        0 <= m < t.len() implies crate::cfg::has_vertex(agg_vertices(cfgs, 0), (#[trigger] t[m]).0) by {
        lemma_agg_vertices_weaken(cfgs, 0, i, t[m].0);
    }
    assert forall|m: int, j: int|
        0 <= m < t.len() && 0 <= j < t[m].1.len() implies crate::cfg::has_vertex(
        agg_vertices(cfgs, 0),
        #[trigger] t[m].1[j],
    ) by {
        lemma_agg_vertices_weaken(cfgs, 0, i, t[m].1[j]);
    }
}

/// The aggregated subscript table is sound when every CFG is well formed.
proof fn lemma_agg_indexes_sound(cfgs: Seq<CfgModel>, i: int)
    requires
        0 <= i,
        forall|k: int| 0 <= k < cfgs.len() ==> crate::cfg::cfg_wf(#[trigger] cfgs[k]),
    ensures
        keys_in(agg_vertices(cfgs, 0), agg_indexes(cfgs, i)),
        vals_in(agg_vertices(cfgs, 0), agg_indexes(cfgs, i)),
    decreases cfgs.len() - i,
{
    if i < cfgs.len() {
        lemma_lift_table_sound(cfgs, i, cfgs[i].indexes);
        lemma_agg_indexes_sound(cfgs, i + 1);
        lemma_concat_table_sound(agg_vertices(cfgs, 0), cfgs[i].indexes, agg_indexes(cfgs, i + 1));
    }
}

/// The aggregated call table is sound when every CFG is well formed.
proof fn lemma_agg_fcalls_sound(cfgs: Seq<CfgModel>, i: int)
    requires
        0 <= i,
        forall|k: int| 0 <= k < cfgs.len() ==> crate::cfg::cfg_wf(#[trigger] cfgs[k]),
    ensures
        keys_in(agg_vertices(cfgs, 0), agg_fcalls(cfgs, i)),
        vals_in(agg_vertices(cfgs, 0), agg_fcalls(cfgs, i)),
    decreases cfgs.len() - i,
{
    if i < cfgs.len() {
        lemma_lift_table_sound(cfgs, i, cfgs[i].fcalls);
        lemma_agg_fcalls_sound(cfgs, i + 1);
        lemma_concat_table_sound(agg_vertices(cfgs, 0), cfgs[i].fcalls, agg_fcalls(cfgs, i + 1));
    }
}

/// The aggregated return table holds only vertex ids when every CFG is well
/// formed.
proof fn lemma_agg_returns_sound(cfgs: Seq<CfgModel>, i: int)
    requires
        0 <= i,
        forall|k: int| 0 <= k < cfgs.len() ==> crate::cfg::cfg_wf(#[trigger] cfgs[k]),
    ensures
        vals_in(agg_vertices(cfgs, 0), agg_returns(cfgs, i)),
    decreases cfgs.len() - i,
{
    if i < cfgs.len() {
        assert forall|m: int, j: int|
            0 <= m < cfgs[i].returns_map.len() && 0 <= j < cfgs[i].returns_map[m].1.len()
                implies crate::cfg::has_vertex(
            agg_vertices(cfgs, 0),
            #[trigger] cfgs[i].returns_map[m].1[j],
        ) by {
            lemma_agg_vertices_weaken(cfgs, 0, i, cfgs[i].returns_map[m].1[j]);
        }
        lemma_agg_returns_sound(cfgs, i + 1);
        let a = cfgs[i].returns_map;
        let b = agg_returns(cfgs, i + 1);
        assert forall|m: int, j: int|
            0 <= m < (a + b).len() && 0 <= j < (a + b)[m].1.len() implies crate::cfg::has_vertex(
            agg_vertices(cfgs, 0),
            #[trigger] (a + b)[m].1[j],
        ) by {
            if m < a.len() {
                assert((a + b)[m] == a[m]);
                assert(crate::cfg::has_vertex(agg_vertices(cfgs, 0), a[m].1[j]));
            } else {
                assert((a + b)[m] == b[m - a.len()]);
                assert(crate::cfg::has_vertex(agg_vertices(cfgs, 0), b[m - a.len()].1[j]));
            }
        }
    }
}

/// The aggregated parameter table holds only vertex ids when every CFG is
/// well formed.
proof fn lemma_agg_params_sound(cfgs: Seq<CfgModel>, i: int)
    requires
        0 <= i,
        forall|k: int| 0 <= k < cfgs.len() ==> crate::cfg::cfg_wf(#[trigger] cfgs[k]),
    ensures
        vals_in(agg_vertices(cfgs, 0), agg_params(cfgs, i)),
    decreases cfgs.len() - i,
{
    if i < cfgs.len() {
        assert forall|m: int, j: int|
            0 <= m < cfgs[i].parameters.len() && 0 <= j < cfgs[i].parameters[m].1.len()
                implies crate::cfg::has_vertex(
            agg_vertices(cfgs, 0),
            #[trigger] cfgs[i].parameters[m].1[j],
        ) by {
            lemma_agg_vertices_weaken(cfgs, 0, i, cfgs[i].parameters[m].1[j]);
        }
        lemma_agg_params_sound(cfgs, i + 1);
        let a = cfgs[i].parameters;
        let b = agg_params(cfgs, i + 1);
        assert forall|m: int, j: int|
            0 <= m < (a + b).len() && 0 <= j < (a + b)[m].1.len() implies crate::cfg::has_vertex(
            agg_vertices(cfgs, 0),
            #[trigger] (a + b)[m].1[j],
        ) by {
            if m < a.len() {
                assert((a + b)[m] == a[m]);
                assert(crate::cfg::has_vertex(agg_vertices(cfgs, 0), a[m].1[j]));
            } else {
                assert((a + b)[m] == b[m - a.len()]);
                assert(crate::cfg::has_vertex(agg_vertices(cfgs, 0), b[m - a.len()].1[j]));
            }
        }
    }
}

/// Every key of the aggregated action table is a vertex of the aggregate.
proof fn lemma_agg_actions_keys(d: DictModel, cfgs: Seq<CfgModel>, i: int)
    requires
        0 <= i,
    ensures
        forall|m: int|
            0 <= m < agg_actions(d, cfgs, i).len() ==> crate::cfg::has_vertex(
                agg_vertices(cfgs, 0),
                (#[trigger] agg_actions(d, cfgs, i)[m]).0,
            ),
    decreases cfgs.len() - i,
{
    if i < cfgs.len() {
        lemma_agg_actions_keys(d, cfgs, i + 1);
        let a = spec_actions_map(d, cfgs[i].vertices, 0);
        let b = agg_actions(d, cfgs, i + 1);
        assert forall|m: int|
            0 <= m < (a + b).len() implies crate::cfg::has_vertex(
            agg_vertices(cfgs, 0),
            (#[trigger] (a + b)[m]).0,
        ) by {
            if m < a.len() {
                assert((a + b)[m] == a[m]);
                lemma_actions_map_key(d, cfgs[i].vertices, 0, m);
                lemma_agg_vertices_weaken(cfgs, 0, i, a[m].0);
            } else {
                assert((a + b)[m] == b[m - a.len()]);
                assert(crate::cfg::has_vertex(agg_vertices(cfgs, 0), b[m - a.len()].0));
            }
        }
    }
}

/// The key of an action-table entry is the id of the vertex it was built
/// from.
proof fn lemma_actions_map_key(d: DictModel, vs: Seq<VertexModel>, i: int, m: int)
    requires
        0 <= i,
        0 <= m < spec_actions_map(d, vs, i).len(),
    ensures
        crate::cfg::has_vertex(vs, spec_actions_map(d, vs, i)[m].0),
    decreases vs.len() - i,
{
    if i < vs.len() {
        if m == 0 {
            assert(spec_actions_map(d, vs, i)[0].0 == vs[i].id);
        } else {
            lemma_actions_map_key(d, vs, i + 1, m - 1);
        }
    }
}

/// The union of the per-function links joins vertices of the aggregate.
proof fn lemma_internal_links_in(d: DictModel, cfgs: Seq<CfgModel>, i: int, acc: Seq<LinkModel>)
    requires
        0 <= i,
        links_in(agg_vertices(cfgs, 0), acc),
    ensures
        links_in(agg_vertices(cfgs, 0), internal_links(d, cfgs, i, acc)),
    decreases cfgs.len() - i,
{
    if i < cfgs.len() {
        let ls = spec_find_links(d, cfgs[i]);
        crate::flow::lemma_find_links_at_vertices(d, cfgs[i]);
        assert(links_in(agg_vertices(cfgs, 0), ls)) by {
            assert forall|m: int|
                0 <= m < ls.len() implies crate::cfg::has_vertex(
                agg_vertices(cfgs, 0),
                (#[trigger] ls[m]).from.1,
            ) && crate::cfg::has_vertex(agg_vertices(cfgs, 0), ls[m].to.1) by {
                lemma_agg_vertices_weaken(cfgs, 0, i, ls[m].from.1);
                lemma_agg_vertices_weaken(cfgs, 0, i, ls[m].to.1);
            }
        }
        lemma_links_in_extend(agg_vertices(cfgs, 0), acc, ls);
        lemma_internal_links_in(d, cfgs, i + 1, extend_unique(acc, ls));
    }
}

/// Link endpoints valid: when every analyzed CFG is well formed, both vertex
/// ids of every link of the network are vertices of some per-function CFG
/// folded into it.
pub proof fn lemma_network_link_endpoints(d: DictModel, cid: u32, cfgs: Seq<CfgModel>)
    requires
        forall|k: int| 0 <= k < cfgs.len() ==> crate::cfg::cfg_wf(#[trigger] cfgs[k]),
    ensures
        ({
            let m = spec_network(d, cid, cfgs);
            forall|k: int|
                0 <= k < m.links.len() ==> crate::cfg::has_vertex(
                    m.all_vertices,
                    (#[trigger] m.links[k]).from.1,
                ) && crate::cfg::has_vertex(m.all_vertices, m.links[k].to.1)
        }),
{
    let vs = agg_vertices(cfgs, 0);
    let aa = agg_actions(d, cfgs, 0);
    let internal = internal_links(d, cfgs, 0, Seq::empty());
    assert(links_in(vs, Seq::<LinkModel>::empty()));
    lemma_internal_links_in(d, cfgs, 0, Seq::empty());
    lemma_agg_actions_keys(d, cfgs, 0);
    lemma_assignment_links_in(vs, aa, 0, Seq::empty());
    lemma_agg_indexes_sound(cfgs, 0);
    lemma_index_links_in(vs, d, aa, agg_indexes(cfgs, 0), 0, Seq::empty());
    lemma_agg_fcalls_sound(cfgs, 0);
    lemma_agg_returns_sound(cfgs, 0);
    lemma_agg_params_sound(cfgs, 0);
    lemma_fcall_links_in(
        vs,
        d,
        aa,
        agg_returns(cfgs, 0),
        agg_params(cfgs, 0),
        agg_fcalls(cfgs, 0),
        0,
        Seq::empty(),
        Seq::empty(),
    );
    let fam_a = assignment_links(aa, 0, Seq::empty());
    let fam_i = index_links(d, aa, agg_indexes(cfgs, 0), 0, Seq::empty());
    let fam_f = fcall_links(
        d,
        aa,
        agg_returns(cfgs, 0),
        agg_params(cfgs, 0),
        agg_fcalls(cfgs, 0),
        0,
        Seq::empty(),
        Seq::empty(),
    );
    lemma_links_in_extend(vs, Seq::empty(), fam_a);
    lemma_links_in_extend(vs, extend_unique(Seq::empty(), fam_a), fam_i);
    lemma_links_in_extend(
        vs,
        extend_unique(extend_unique(Seq::empty(), fam_a), fam_i),
        fam_f.0,
    );
    let external = extend_unique(
        extend_unique(extend_unique(Seq::<LinkModel>::empty(), fam_a), fam_i),
        fam_f.0,
    );
    lemma_links_in_extend(vs, Seq::empty(), internal);
    lemma_links_in_extend(vs, extend_unique(Seq::empty(), internal), external);
}

/// Replay the context marks along a path: the stack after following the
/// edges `path[j] -> path[j+1] -> …`, or nothing when some edge pops a call
/// that is not on top.
pub open spec fn replay_from(
    ctx: Seq<((u32, u32), StackContext)>,
    path: Seq<(VariableModel, u32)>,
    j: int,
    stack: Seq<u32>,
) -> Option<Seq<u32>>
    decreases path.len() - j,
{
    if j < 0 || j + 1 >= path.len() {
        Some(stack)
    } else {
        let tr = stack_transition(ctx, path[j].1, path[j + 1].1, stack);
        if tr.0 {
            replay_from(ctx, path, j + 1, tr.1)
        } else {
            None
        }
    }
}

/// A path is stack balanced when replaying it from the empty stack never
/// pops a call that is not on top.
pub open spec fn stack_balanced(ctx: Seq<((u32, u32), StackContext)>, path: Seq<(VariableModel, u32)>) -> bool {
    replay_from(ctx, path, 0, Seq::empty()) is Some
}

/// Extending a path by one node replays its last transition.
pub proof fn lemma_replay_snoc(
    ctx: Seq<((u32, u32), StackContext)>,
    path: Seq<(VariableModel, u32)>,
    x: (VariableModel, u32),
    j: int,
    stack: Seq<u32>,
)
    requires
        0 <= j < path.len(),
    ensures
        replay_from(ctx, path.push(x), j, stack) == (match replay_from(ctx, path, j, stack) {
            Some(st) => {
                let tr = stack_transition(ctx, path.last().1, x.1, st);
                if tr.0 {
                    Some(tr.1)
                } else {
                    None::<Seq<u32>>
                }
            },
            None => None::<Seq<u32>>,
        }),
    decreases path.len() - j,
{
    if j + 1 >= path.len() {
        assert(path.push(x)[j] == path[j]);
        assert(path.push(x)[j + 1] == x);
        assert(path[j] == path.last());
    } else {
        assert(path.push(x)[j] == path[j]);
        assert(path.push(x)[j + 1] == path[j + 1]);
        lemma_replay_snoc(ctx, path, x, j + 1, stack_transition(ctx, path[j].1, path[j + 1].1, stack).1);
    }
}

/// Stack balance of every path the walk emits, given that the walked-so-far
/// path replays exactly to the current stack.
pub proof fn lemma_traverse_balanced(
    adj: Seq<((VariableModel, u32), Seq<(VariableModel, u32)>)>,
    ctx: Seq<((u32, u32), StackContext)>,
    source: (VariableModel, u32),
    visited: Seq<((VariableModel, u32), Seq<u32>)>,
    stack: Seq<u32>,
    path: Seq<(VariableModel, u32)>,
    acc: Seq<Seq<(VariableModel, u32)>>,
    fuel: nat,
)
    requires
        forall|k: int| 0 <= k < acc.len() ==> stack_balanced(ctx, #[trigger] acc[k]),
        replay_from(ctx, path.push(source), 0, Seq::empty()) == Some(stack),
    ensures
        forall|k: int|
            0 <= k < spec_traverse(adj, ctx, source, visited, stack, path, acc, fuel).len()
                ==> stack_balanced(
                ctx,
                #[trigger] spec_traverse(adj, ctx, source, visited, stack, path, acc, fuel)[k],
            ),
    decreases fuel, 1int, 0int,
{
    let path1 = path.push(source);
    let out = spec_traverse(adj, ctx, source, visited, stack, path, acc, fuel);
    match find_adj(adj, source) {
        None => {
            assert(out == acc.push(path1));
            assert forall|k: int| 0 <= k < out.len() implies stack_balanced(ctx, #[trigger] out[k]) by {
                if k < acc.len() {
                    assert(out[k] == acc[k]);
                    assert(stack_balanced(ctx, acc[k]));
                } else {
                    assert(out[k] == path1);
                }
            }
        },
        Some(e) => {
            lemma_traverse_list_balanced(
                adj,
                ctx,
                e.1,
                0,
                source,
                visited.push((source, stack)),
                stack,
                path,
                acc,
                fuel,
            );
            assert(out == spec_traverse_list(
                adj,
                ctx,
                e.1,
                0,
                source,
                visited.push((source, stack)),
                stack,
                path1,
                acc,
                fuel,
            ));
            assert forall|k: int| 0 <= k < out.len() implies stack_balanced(ctx, #[trigger] out[k]) by {
                assert(stack_balanced(
                    ctx,
                    spec_traverse_list(
                        adj,
                        ctx,
                        e.1,
                        0,
                        source,
                        visited.push((source, stack)),
                        stack,
                        path1,
                        acc,
                        fuel,
                    )[k],
                ));
            }
        },
    }
}

/// Helper induction over the sinks of one node.
proof fn lemma_traverse_list_balanced(
    adj: Seq<((VariableModel, u32), Seq<(VariableModel, u32)>)>,
    ctx: Seq<((u32, u32), StackContext)>,
    sinks: Seq<(VariableModel, u32)>,
    j: int,
    source: (VariableModel, u32),
    visited: Seq<((VariableModel, u32), Seq<u32>)>,
    stack: Seq<u32>,
    path: Seq<(VariableModel, u32)>,
    acc: Seq<Seq<(VariableModel, u32)>>,
    fuel: nat,
)
    requires
        forall|k: int| 0 <= k < acc.len() ==> stack_balanced(ctx, #[trigger] acc[k]),
        replay_from(ctx, path.push(source), 0, Seq::empty()) == Some(stack),
    ensures
        forall|k: int|
            0 <= k < spec_traverse_list(
                adj,
                ctx,
                sinks,
                j,
                source,
                visited,
                stack,
                path.push(source),
                acc,
                fuel,
            ).len() ==> stack_balanced(
                ctx,
                #[trigger] spec_traverse_list(
                    adj,
                    ctx,
                    sinks,
                    j,
                    source,
                    visited,
                    stack,
                    path.push(source),
                    acc,
                    fuel,
                )[k],
            ),
    decreases fuel, 0int, sinks.len() - j + 1,
{
    let path1 = path.push(source);
    let out = spec_traverse_list(adj, ctx, sinks, j, source, visited, stack, path1, acc, fuel);
    if 0 <= j < sinks.len() {
        let sink = sinks[j];
        let tr = stack_transition(ctx, source.1, sink.1, stack);
        let acc1 = if tr.0 && fuel > 0 && !visited.contains((sink, tr.1)) {
            spec_traverse(adj, ctx, sink, visited, tr.1, path1, acc, (fuel - 1) as nat)
        } else {
            acc
        };
        if tr.0 && fuel > 0 && !visited.contains((sink, tr.1)) {
            lemma_replay_snoc(ctx, path1, sink, 0, Seq::empty());
            assert(path1.last() == source);
            assert(replay_from(ctx, path1.push(sink), 0, Seq::empty()) == Some(tr.1));
            lemma_traverse_balanced(adj, ctx, sink, visited, tr.1, path1, acc, (fuel - 1) as nat);
            assert(acc1 == spec_traverse(adj, ctx, sink, visited, tr.1, path1, acc, (fuel - 1) as nat));
            assert forall|k: int| 0 <= k < acc1.len() implies stack_balanced(
                ctx,
                #[trigger] acc1[k],
            ) by {
                assert(stack_balanced(
                    ctx,
                    spec_traverse(adj, ctx, sink, visited, tr.1, path1, acc, (fuel - 1) as nat)[k],
                ));
            }
        }
        lemma_traverse_list_balanced(adj, ctx, sinks, j + 1, source, visited, stack, path, acc1, fuel);
        assert(out == spec_traverse_list(
            adj,
            ctx,
            sinks,
            j + 1,
            source,
            visited,
            stack,
            path1,
            acc1,
            fuel,
        ));
        assert forall|k: int| 0 <= k < out.len() implies stack_balanced(ctx, #[trigger] out[k]) by {
            assert(stack_balanced(
                ctx,
                spec_traverse_list(adj, ctx, sinks, j + 1, source, visited, stack, path1, acc1, fuel)[k],
            ));
        }
    } else {
        assert(out == acc);
        assert forall|k: int| 0 <= k < out.len() implies stack_balanced(ctx, #[trigger] out[k]) by {
            assert(stack_balanced(ctx, acc[k]));
        }
    }
}

/// Stack balance: every path that the context-sensitive walk returns has
/// matching pushes and pops at every prefix — no edge of it pops a call
/// that is not on top of the stack.
pub proof fn lemma_traverse_stack_balance(
    links: Seq<LinkModel>,
    ctx: Seq<((u32, u32), StackContext)>,
    source: (VariableModel, u32),
    k: int,
)
    requires
        0 <= k < spec_traverse_result(links, ctx, source).len(),
    ensures
        stack_balanced(ctx, spec_traverse_result(links, ctx, source)[k]),
{
    let empty_path = Seq::<(VariableModel, u32)>::empty();
    assert(replay_from(ctx, empty_path.push(source), 0, Seq::empty()) == Some(
        Seq::<u32>::empty(),
    ));
    lemma_traverse_balanced(
        build_adj(links, 0, Seq::empty()),
        ctx,
        source,
        Seq::empty(),
        Seq::empty(),
        empty_path,
        Seq::empty(),
        usize::MAX as nat,
    );
}

/// Link endpoints valid, on a built network: when every folded CFG was well
/// formed, both vertex ids of every recorded link are ids of recorded
/// vertices.
pub proof fn lemma_built_network_link_endpoints(n: &Network, cfgs: Seq<CfgModel>, k: int)
    requires
        n.built_from(cfgs),
        forall|m: int| 0 <= m < cfgs.len() ==> crate::cfg::cfg_wf(#[trigger] cfgs[m]),
        0 <= k < n.links.deep_view().len(),
    ensures
        crate::cfg::has_vertex(n.all_vertices.deep_view(), n.links.deep_view()[k].from.1),
        crate::cfg::has_vertex(n.all_vertices.deep_view(), n.links.deep_view()[k].to.1),
{
    lemma_network_link_endpoints(n.dict.deep_view(), n.contract_id, cfgs);
}

/// Determinism: two networks built over the same dictionary, contract and
/// CFGs hold the same links, the same context, the same tables, and answer
/// every traversal query with the same path list.
pub proof fn lemma_analysis_deterministic(n1: &Network, n2: &Network, cfgs: Seq<CfgModel>)
    requires
        n1.built_from(cfgs),
        n2.built_from(cfgs),
        n1.dict.deep_view() == n2.dict.deep_view(),
        n1.contract_id == n2.contract_id,
    ensures
        n1.links.deep_view() == n2.links.deep_view(),
        n1.context.deep_view() == n2.context.deep_view(),
        n1.all_actions.deep_view() == n2.all_actions.deep_view(),
        n1.all_states.deep_view() == n2.all_states.deep_view(),
        forall|source: (VariableModel, u32)|
            #[trigger] spec_traverse_result(n1.links.deep_view(), n1.context.deep_view(), source)
                == spec_traverse_result(n2.links.deep_view(), n2.context.deep_view(), source),
{
}

/// Whether two id stacks are equal.
#[verifier::loop_isolation(false)]
fn ids_eq(a: &Vec<u32>, b: &Vec<u32>) -> (r: bool)
    ensures
        r <==> a@ == b@,
{
    if a.len() != b.len() {
        proof {
            assert(a@.len() != b@.len());
        }
        return false;
    }
    let mut i: usize = 0;
    while i < a.len()
        invariant
            0 <= i <= a@.len(),
            a@.len() == b@.len(),
            forall|j: int| 0 <= j < i ==> a@[j] == b@[j],
        decreases a@.len() - i,
    {
        if a[i] != b[i] {
            return false;
        }
        i = i + 1;
    }
    proof {
        assert(a@ =~= b@);
    }
    true
}

/// Whether a (node, stack) pair was already visited.
#[verifier::loop_isolation(false)]
fn visited_contains(
    visited: &Vec<((Variable, u32), Vec<u32>)>,
    sink: &(Variable, u32),
    stk: &Vec<u32>,
) -> (r: bool)
    ensures
        r <==> visited.deep_view().contains(((sink.0.deep_view(), sink.1), stk@)),
{
    let ghost key = ((sink.0.deep_view(), sink.1), stk@);
    let mut i: usize = 0;
    while i < visited.len()
        invariant
            0 <= i <= visited@.len(),
            forall|j: int| 0 <= j < i ==> visited.deep_view()[j] != key,
        decreases visited@.len() - i,
    {
        proof {
            assert(visited.deep_view()[i as int] == (
                (visited@[i as int].0.0.deep_view(), visited@[i as int].0.1),
                visited@[i as int].1@,
            ));
        }
        if visited[i].0.1 == sink.1 && visited[i].0.0.same_as(&sink.0) && ids_eq(&visited[i].1, stk) {
            assert(visited.deep_view()[i as int] == key);
            return true;
        }
        i = i + 1;
    }
    false
}

/// Look an adjacency entry up by source node.
#[verifier::loop_isolation(false)]
fn lookup_adj<'a>(
    adj: &'a Vec<((Variable, u32), Vec<(Variable, u32)>)>,
    k: &(Variable, u32),
) -> (r: Option<&'a Vec<(Variable, u32)>>)
    ensures
        match r {
            Some(v) => find_adj(adj.deep_view(), (k.0.deep_view(), k.1)) matches Some(e) && e.1
                == v.deep_view(),
            None => find_adj(adj.deep_view(), (k.0.deep_view(), k.1)) is None,
        },
{
    let ghost key = (k.0.deep_view(), k.1);
    let ghost p = adj_key_is(key);
    let mut i: usize = 0;
    while i < adj.len()
        invariant
            0 <= i <= adj@.len(),
            forall|j: int| 0 <= j < i ==> !p(adj.deep_view()[j]),
        decreases adj@.len() - i,
    {
        proof {
            assert(adj.deep_view()[i as int] == (
                (adj@[i as int].0.0.deep_view(), adj@[i as int].0.1),
                adj@[i as int].1.deep_view(),
            ));
        }
        if adj[i].0.1 == k.1 && adj[i].0.0.same_as(&k.0) {
            proof {
                lemma_find_first_at(adj.deep_view(), p, i as int);
            }
            return Some(&adj[i].1);
        }
        i = i + 1;
    }
    proof {
        lemma_find_first_none(adj.deep_view(), p);
    }
    None
}

/// Append a link's sink to its source's adjacency entry: exec mirror of
/// `adj_insert`.
#[verifier::loop_isolation(false)]
fn adj_insert_exec(
    adj: &mut Vec<((Variable, u32), Vec<(Variable, u32)>)>,
    from: (Variable, u32),
    to: (Variable, u32),
)
    ensures
        final(adj).deep_view() == adj_insert(
            old(adj).deep_view(),
            (from.0.deep_view(), from.1),
            (to.0.deep_view(), to.1),
        ),
{
    let ghost key = (from.0.deep_view(), from.1);
    let ghost tv = (to.0.deep_view(), to.1);
    let mut i: usize = 0;
    while i < adj.len()
        invariant
            0 <= i <= adj@.len(),
            adj@ == old(adj)@,
            forall|j: int| 0 <= j < i ==> old(adj).deep_view()[j].0 != key,
        decreases adj@.len() - i,
    {
        proof {
            assert(adj.deep_view()[i as int] == (
                (adj@[i as int].0.0.deep_view(), adj@[i as int].0.1),
                adj@[i as int].1.deep_view(),
            ));
        }
        if adj[i].0.1 == from.1 && adj[i].0.0.same_as(&from.0) {
            proof {
                lemma_adj_insert_at(old(adj).deep_view(), key, tv, i as int);
            }
            let ghost pre = adj.deep_view();
            let mut entry = adj.remove(i);
            entry.1.push(to);
            adj.insert(i, entry);
            proof {
                assert(adj.deep_view() =~~= pre.update(i as int, (key, pre[i as int].1.push(tv))));
            }
            return ;
        }
        i = i + 1;
    }
    proof {
        lemma_adj_insert_none(old(adj).deep_view(), key, tv);
    }
    let ghost pre = adj.deep_view();
    let mut sinks: Vec<(Variable, u32)> = Vec::new();
    sinks.push(to);
    adj.push((from, sinks));
    proof {
        assert(adj.deep_view() =~~= pre.push((key, seq![tv])));
    }
}

/// Look a context mark up by edge.
#[verifier::loop_isolation(false)]
fn lookup_ctx(ctx: &Vec<((u32, u32), StackContext)>, from: u32, to: u32) -> (r: Option<
    StackContext,
>)
    ensures
        match r {
            Some(sc) => ctx_find(ctx.deep_view(), (from, to)) matches Some(e) && e.1 == sc,
            None => ctx_find(ctx.deep_view(), (from, to)) is None,
        },
{
    let ghost p = ctx_key_is((from, to));
    let mut i: usize = 0;
    while i < ctx.len()
        invariant
            0 <= i <= ctx@.len(),
            forall|j: int| 0 <= j < i ==> !p(ctx.deep_view()[j]),
        decreases ctx@.len() - i,
    {
        proof {
            assert(ctx.deep_view()[i as int] == ctx@[i as int]);
        }
        if ctx[i].0.0 == from && ctx[i].0.1 == to {
            proof {
                lemma_find_first_at(ctx.deep_view(), p, i as int);
            }
            return Some(ctx[i].1);
        }
        i = i + 1;
    }
    proof {
        lemma_find_first_none(ctx.deep_view(), p);
    }
    None
}

/// Copy a node.
fn dup_node(n: &(Variable, u32)) -> (r: (Variable, u32))
    ensures
        (r.0.deep_view(), r.1) == (n.0.deep_view(), n.1),
{
    (n.0.duplicate(), n.1)
}

/// Copy a node path.
#[verifier::loop_isolation(false)]
fn dup_path(v: &Vec<(Variable, u32)>) -> (r: Vec<(Variable, u32)>)
    ensures
        r.deep_view() == v.deep_view(),
{
    let mut r: Vec<(Variable, u32)> = Vec::new();
    let mut i: usize = 0;
    while i < v.len()
        invariant
            0 <= i <= v@.len(),
            r@.len() == i,
            forall|j: int| 0 <= j < i ==> r.deep_view()[j] == v.deep_view()[j],
        decreases v@.len() - i,
    {
        r.push(dup_node(&v[i]));
        i = i + 1;
    }
    proof {
        assert(r.deep_view() =~~= v.deep_view());
    }
    r
}

/// Copy a visited set.
#[verifier::loop_isolation(false)]
fn dup_visited(v: &Vec<((Variable, u32), Vec<u32>)>) -> (r: Vec<((Variable, u32), Vec<u32>)>)
    ensures
        r.deep_view() == v.deep_view(),
{
    let mut r: Vec<((Variable, u32), Vec<u32>)> = Vec::new();
    let mut i: usize = 0;
    while i < v.len()
        invariant
            0 <= i <= v@.len(),
            r@.len() == i,
            forall|j: int| 0 <= j < i ==> r.deep_view()[j] == v.deep_view()[j],
        decreases v@.len() - i,
    {
        r.push((dup_node(&v[i].0), dup_ids(&v[i].1)));
        i = i + 1;
    }
    proof {
        assert(r.deep_view() =~~= v.deep_view());
    }
    r
}

/// Walk the link graph from `source`: exec mirror of `spec_traverse`.
#[verifier::loop_isolation(false)]
fn network_traverse_rec(
    adj: &Vec<((Variable, u32), Vec<(Variable, u32)>)>,
    ctx: &Vec<((u32, u32), StackContext)>,
    source: (Variable, u32),
    mut visited: Vec<((Variable, u32), Vec<u32>)>,
    stack: Vec<u32>,
    mut path: Vec<(Variable, u32)>,
    acc: &mut Vec<Vec<(Variable, u32)>>,
    fuel: usize,
)
    ensures
        final(acc).deep_view() == spec_traverse(
            adj.deep_view(),
            ctx.deep_view(),
            (source.0.deep_view(), source.1),
            visited.deep_view(),
            stack@,
            path.deep_view(),
            old(acc).deep_view(),
            fuel as nat,
        ),
    decreases fuel, 0int,
{
    let ghost av = adj.deep_view();
    let ghost cxv = ctx.deep_view();
    let ghost srcv = (source.0.deep_view(), source.1);
    let ghost vis0 = visited.deep_view();
    let ghost path0 = path.deep_view();
    let ghost acc0 = acc.deep_view();
    let src_copy = dup_node(&source);
    let stack_copy = dup_ids(&stack);
    visited.push((src_copy, stack_copy));
    path.push(source);
    proof {
        assert(visited.deep_view() =~~= vis0.push((srcv, stack@)));
        assert(path.deep_view() =~~= path0.push(srcv));
    }
    let sinks = match lookup_adj(adj, &path[path.len() - 1]) {
        None => {
            let ghost pre = acc.deep_view();
            acc.push(path);
            proof {
                assert(acc.deep_view() =~~= pre.push(path0.push(srcv)));
            }
            return ;
        },
        Some(s) => dup_path(s),
    };
    let ghost sv = sinks.deep_view();
    let mut j: usize = 0;
    while j < sinks.len()
        invariant
            0 <= j <= sv.len(),
            spec_traverse(av, cxv, srcv, vis0, stack@, path0, acc0, fuel as nat)
                == spec_traverse_list(
                av,
                cxv,
                sv,
                j as int,
                srcv,
                vis0.push((srcv, stack@)),
                stack@,
                path0.push(srcv),
                acc.deep_view(),
                fuel as nat,
            ),
            visited.deep_view() == vis0.push((srcv, stack@)),
            path.deep_view() == path0.push(srcv),
            stack@ == stack@,
        decreases sv.len() - j,
    {
        let sink = &sinks[j];
        let ghost sinkv = sv[j as int];
        proof {
            assert(sinkv == (sink.0.deep_view(), sink.1));
        }
        let mut context_stack = dup_ids(&stack);
        let mut valid = true;
        match lookup_ctx(ctx, path[path.len() - 1].1, sink.1) {
            Some(StackContext::Push(id)) => {
                context_stack.push(id);
            },
            Some(StackContext::Pop(id)) => {
                if context_stack.len() == 0 {
                    valid = false;
                } else {
                    let top = context_stack[context_stack.len() - 1];
                    context_stack.remove(context_stack.len() - 1);
                    proof {
                        assert(context_stack@ =~= stack@.drop_last());
                    }
                    valid = top == id;
                }
            },
            None => {},
        }
        proof {
            let tr = stack_transition(cxv, srcv.1, sinkv.1, stack@);
            assert(valid == tr.0 && context_stack@ == tr.1);
        }
        if valid && fuel > 0 && !visited_contains(&visited, sink, &context_stack) {
            network_traverse_rec(
                adj,
                ctx,
                dup_node(sink),
                dup_visited(&visited),
                context_stack,
                dup_path(&path),
                acc,
                fuel - 1,
            );
        }
        j = j + 1;
    }
    proof {
        assert(spec_traverse_list(
            av,
            cxv,
            sv,
            sv.len() as int,
            srcv,
            vis0.push((srcv, stack@)),
            stack@,
            path0.push(srcv),
            acc.deep_view(),
            fuel as nat,
        ) == acc.deep_view());
    }
}

impl Network {
    /// The variables recorded at a site.
    pub fn get_variables(&self, id: &u32) -> (r: Vec<Variable>)
        ensures
            r.deep_view() == spec_vars_at(self.all_actions.deep_view(), *id),
    {
        vars_at(&self.all_actions, *id)
    }

    /// Enumerate the context-valid paths of the link graph from `source`:
    /// a returned path follows links, never pops a call context that is not
    /// on top of the stack, and ends at a node without outgoing links.
    #[verifier::loop_isolation(false)]
    pub fn traverse(&self, source: (Variable, u32)) -> (r: Vec<Vec<(Variable, u32)>>)
        ensures
            r.deep_view() == spec_traverse_result(
                self.links.deep_view(),
                self.context.deep_view(),
                (source.0.deep_view(), source.1),
            ),
    {
        let ghost lv = self.links.deep_view();
        let mut adj: Vec<((Variable, u32), Vec<(Variable, u32)>)> = Vec::new();
        proof {
            assert(adj.deep_view() =~~= Seq::<
                ((VariableModel, u32), Seq<(VariableModel, u32)>),
            >::empty());
        }
        let mut i: usize = 0;
        while i < self.links.len()
            invariant
                0 <= i <= lv.len(),
                build_adj(lv, 0, Seq::empty()) == build_adj(lv, i as int, adj.deep_view()),
            decreases lv.len() - i,
        {
            let l = &self.links[i];
            proof {
                assert(lv[i as int].from == (
                    self.links@[i as int].from.0.deep_view(),
                    self.links@[i as int].from.1,
                ));
                assert(lv[i as int].to == (
                    self.links@[i as int].to.0.deep_view(),
                    self.links@[i as int].to.1,
                ));
            }
            adj_insert_exec(&mut adj, dup_node(&l.from), dup_node(&l.to));
            i = i + 1;
        }
        let mut acc: Vec<Vec<(Variable, u32)>> = Vec::new();
        proof {
            assert(acc.deep_view() =~~= Seq::<Seq<(VariableModel, u32)>>::empty());
        }
        let visited0: Vec<((Variable, u32), Vec<u32>)> = Vec::new();
        let stack0: Vec<u32> = Vec::new();
        let path0: Vec<(Variable, u32)> = Vec::new();
        proof {
            assert(visited0.deep_view() =~~= Seq::<((VariableModel, u32), Seq<u32>)>::empty());
            assert(path0.deep_view() =~~= Seq::<(VariableModel, u32)>::empty());
        }
        network_traverse_rec(
            &adj,
            &self.context,
            source,
            visited0,
            stack0,
            path0,
            &mut acc,
            usize::MAX,
        );
        acc
    }

    /// Render the network as a DOT digraph: the drawing is cleared, then
    /// holds one line per vertex and per edge of every analyzed CFG followed
    /// by one dotted labeled edge per link, and the digraph text wraps it.
    #[verifier::loop_isolation(false)]
    pub fn format(&mut self) -> (r: String)
        ensures
            final(self).dot.content@ == dfgs_text(old(self).dfgs.deep_view(), 0)
                + crate::dot::link_lines(old(self).links.deep_view(), 0),
            r@ == "digraph {\n"@ + dfgs_text(old(self).dfgs.deep_view(), 0)
                + crate::dot::link_lines(old(self).links.deep_view(), 0) + "}\n"@,
            final(self).dict == old(self).dict,
            final(self).contract_id == old(self).contract_id,
            final(self).links == old(self).links,
            final(self).context == old(self).context,
            final(self).dfgs == old(self).dfgs,
            final(self).all_actions == old(self).all_actions,
            final(self).all_indexes == old(self).all_indexes,
            final(self).all_execution_paths == old(self).all_execution_paths,
            final(self).all_fcalls == old(self).all_fcalls,
            final(self).all_returns == old(self).all_returns,
            final(self).all_vertices == old(self).all_vertices,
            final(self).all_defined_parameters == old(self).all_defined_parameters,
            final(self).all_states == old(self).all_states,
    {
        self.dot.clear();
        let ghost dv = self.dfgs.deep_view();
        let ghost mut done: Seq<char> = Seq::empty();
        proof {
            assert(self.dot.content@ =~= done);
        }
        let mut k: usize = 0;
        while k < self.dfgs.len()
            invariant
                0 <= k <= dv.len(),
                self.dict == old(self).dict,
                self.contract_id == old(self).contract_id,
                self.links == old(self).links,
                self.context == old(self).context,
                self.dfgs == old(self).dfgs,
                self.all_actions == old(self).all_actions,
                self.all_indexes == old(self).all_indexes,
                self.all_execution_paths == old(self).all_execution_paths,
                self.all_fcalls == old(self).all_fcalls,
                self.all_returns == old(self).all_returns,
                self.all_vertices == old(self).all_vertices,
                self.all_defined_parameters == old(self).all_defined_parameters,
                self.all_states == old(self).all_states,
                self.dot.content@ == done,
                dfgs_text(dv, 0) == done + dfgs_text(dv, k as int),
            decreases dv.len() - k,
        {
            proof {
                assert(self.dfgs.deep_view()[k as int] == (
                    self.dfgs@[k as int].0,
                    self.dfgs@[k as int].1.deep_view(),
                ));
            }
            self.dot.add_cfg(&self.dfgs[k].1.cfg);
            proof {
                done = done + crate::dot::cfg_text(dv[k as int].1.cfg);
                assert(self.dot.content@ =~= done);
                assert(dfgs_text(dv, 0) =~= done + dfgs_text(dv, k + 1));
            }
            k = k + 1;
        }
        proof {
            assert(dfgs_text(dv, dv.len() as int) =~= Seq::<char>::empty());
            assert(done + Seq::<char>::empty() =~= done);
        }
        self.dot.add_links(&self.links);
        self.dot.format()
    }

    /// Every vertex folded into the network.
    pub fn get_all_vertices(&self) -> (r: &Vec<Vertex>)
        ensures
            r.deep_view() == self.all_vertices.deep_view(),
    {
        &self.all_vertices
    }

    /// The defined parameter lists, per function.
    pub fn get_all_defined_parameters(&self) -> (r: &Vec<(u32, Vec<u32>)>)
        ensures
            r.deep_view() == self.all_defined_parameters.deep_view(),
    {
        &self.all_defined_parameters
    }

    /// The return statements, per function.
    pub fn get_all_returns(&self) -> (r: &Vec<(u32, Vec<u32>)>)
        ensures
            r.deep_view() == self.all_returns.deep_view(),
    {
        &self.all_returns
    }

    /// The call sites and their argument ids.
    pub fn get_all_fcall(&self) -> (r: &Vec<(u32, Vec<u32>)>)
        ensures
            r.deep_view() == self.all_fcalls.deep_view(),
    {
        &self.all_fcalls
    }

    /// The execution paths of every function.
    pub fn get_all_executions(&self) -> (r: &Vec<Vec<u32>>)
        ensures
            r.deep_view() == self.all_execution_paths.deep_view(),
    {
        &self.all_execution_paths
    }

    /// The subscript sites and their argument ids.
    pub fn get_all_indexes(&self) -> (r: &Vec<(u32, Vec<u32>)>)
        ensures
            r.deep_view() == self.all_indexes.deep_view(),
    {
        &self.all_indexes
    }

    /// The action lists, per vertex.
    pub fn get_all_actions(&self) -> (r: &Vec<(u32, Vec<Action>)>)
        ensures
            r.deep_view() == self.all_actions.deep_view(),
    {
        &self.all_actions
    }

    /// The variables of the contract's state declarations.
    pub fn get_all_states(&self) -> (r: &Vec<Variable>)
        ensures
            r.deep_view() == self.all_states.deep_view(),
    {
        &self.all_states
    }

    /// Every link of the network.
    pub fn get_links(&self) -> (r: &Vec<DataLink>)
        ensures
            r.deep_view() == self.links.deep_view(),
    {
        &self.links
    }

    /// The analyzed per-function data-flow graphs.
    pub fn get_dfgs(&self) -> (r: &Vec<(u32, DataFlowGraph)>)
        ensures
            r.deep_view() == self.dfgs.deep_view(),
    {
        &self.dfgs
    }

    /// The dictionary the network was built over.
    pub fn get_dict(&self) -> (r: &Dictionary)
        ensures
            r.deep_view() == self.dict.deep_view(),
    {
        &self.dict
    }

    /// The analyzed contract.
    pub fn get_contract_id(&self) -> (r: u32)
        ensures
            r == self.contract_id,
    {
        self.contract_id
    }
}

} // verus!

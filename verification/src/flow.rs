use vstd::prelude::*;

use crate::assignment::{AssignmentModel, Operator};
use crate::cfg::{find_vertex, lookup_vertex, Cfg, CfgModel};
use crate::dict::{Dictionary, DictModel};
use crate::flatten::spec_parse_variables;
use crate::link::{link_model_of, links_insert_unique, DataLink, LinkModel};
use crate::oracle::{
    actions_extend_unique,
    actions_remove,
    dup_actions,
    spec_find_parameters,
    Action,
    ActionModel,
};
use crate::variable::{spec_compare, Variable, VariableComparison, VariableModel};
use crate::vecset::{
    extend_unique,
    find_first,
    lemma_find_first_at,
    lemma_find_first_none,
    push_unique,
    remove_first,
};
use crate::vertex::{Shape, Vertex, VertexModel};

verus! {

/// One `Use` per variable of `vars[i..]`, at vertex `id`.
pub open spec fn uses_from(vars: Seq<VariableModel>, id: u32, i: int) -> Seq<ActionModel>
    decreases vars.len() - i,
{
    if i < 0 || i >= vars.len() {
        Seq::empty()
    } else {
        seq![ActionModel::Use(vars[i], id)] + uses_from(vars, id, i + 1)
    }
}

/// The actions of the written side of an assignment: a plain assignment
/// kills each written variable, a compound one kills and then reads it.
pub open spec fn lhs_actions(lhs: Seq<VariableModel>, op: Operator, id: u32, i: int) -> Seq<
    ActionModel,
>
    decreases lhs.len() - i,
{
    if i < 0 || i >= lhs.len() {
        Seq::empty()
    } else {
        let head: Seq<ActionModel> = if op == Operator::Equal {
            seq![ActionModel::Kill(lhs[i], id)]
        } else {
            seq![ActionModel::Kill(lhs[i], id), ActionModel::Use(lhs[i], id)]
        };
        head + lhs_actions(lhs, op, id, i + 1)
    }
}

/// The actions of the assignments `assigns[i..]` at vertex `id`: the written
/// side's kills, then one `Use` per read variable.
pub open spec fn assigns_actions(assigns: Seq<AssignmentModel>, id: u32, i: int) -> Seq<
    ActionModel,
>
    decreases assigns.len() - i,
{
    if i < 0 || i >= assigns.len() {
        Seq::empty()
    } else {
        lhs_actions(assigns[i].lhs, assigns[i].op, id, 0) + uses_from(assigns[i].rhs, id, 0)
            + assigns_actions(assigns, id, i + 1)
    }
}

/// The action sequence a vertex generates: calls read their arguments,
/// statements follow their assignments (or read every variable when none),
/// branch conditions read every variable, entry and exit points do nothing.
pub open spec fn spec_vertex_actions(d: DictModel, v: VertexModel) -> Seq<ActionModel> {
    match v.shape {
        Shape::DoubleCircle | Shape::Mdiamond => uses_from(spec_find_parameters(d, v.id), v.id, 0),
        Shape::Box => {
            let asg = crate::assignment::spec_parse_assignments(d, v.id);
            if asg.len() > 0 {
                assigns_actions(asg, v.id, 0)
            } else {
                uses_from(spec_parse_variables(d, v.id), v.id, 0)
            }
        },
        Shape::Diamond => uses_from(spec_parse_variables(d, v.id), v.id, 0),
        Shape::Point => Seq::empty(),
    }
}

/// One action list per vertex of `vs[i..]`.
pub open spec fn spec_actions_map(d: DictModel, vs: Seq<VertexModel>, i: int) -> Seq<
    (u32, Seq<ActionModel>),
>
    decreases vs.len() - i,
{
    if i < 0 || i >= vs.len() {
        Seq::empty()
    } else {
        seq![(vs[i].id, spec_vertex_actions(d, vs[i]))] + spec_actions_map(d, vs, i + 1)
    }
}

/// The sources of the edges that point at `to`, in edge order.
pub open spec fn parents_of(edges: Seq<(u32, u32)>, to: u32) -> Seq<u32>
    decreases edges.len(),
{
    if edges.len() == 0 {
        Seq::empty()
    } else {
        let head: Seq<u32> = if edges[0].1 == to {
            seq![edges[0].0]
        } else {
            Seq::empty()
        };
        head + parents_of(edges.drop_first(), to)
    }
}

/// The predicate selecting an action-table entry by key.
pub open spec fn amap_key_is(k: u32) -> spec_fn((u32, Seq<ActionModel>)) -> bool {
    |e: (u32, Seq<ActionModel>)| e.0 == k
}

/// The first action-table entry keyed `k`, if any.
pub open spec fn find_amap(t: Seq<(u32, Seq<ActionModel>)>, k: u32) -> Option<
    (u32, Seq<ActionModel>),
> {
    find_first(t, amap_key_is(k))
}

/// The table with the first entry keyed `k` replaced by `v`; unchanged when
/// no entry carries the key.
pub open spec fn table_set(t: Seq<(u32, Seq<ActionModel>)>, k: u32, v: Seq<ActionModel>) -> Seq<
    (u32, Seq<ActionModel>),
>
    decreases t.len(),
{
    if t.len() == 0 {
        t
    } else if t[0].0 == k {
        seq![(k, v)] + t.drop_first()
    } else {
        seq![t[0]] + table_set(t.drop_first(), k, v)
    }
}

/// If position `j` holds the first entry keyed `k`, replacement updates it.
pub proof fn lemma_table_set_at(t: Seq<(u32, Seq<ActionModel>)>, k: u32, v: Seq<ActionModel>, j: int)
    requires
        0 <= j < t.len(),
        t[j].0 == k,
        forall|m: int| 0 <= m < j ==> t[m].0 != k,
    ensures
        table_set(t, k, v) == t.update(j, (k, v)),
    decreases j,
{
    if j == 0 {
        assert(table_set(t, k, v) =~~= t.update(0int, (k, v)));
    } else {
        lemma_table_set_at(t.drop_first(), k, v, j - 1);
        assert(t.drop_first().update(j - 1, (k, v)) =~~= t.update(j, (k, v)).drop_first());
        assert(seq![t[0]] + t.update(j, (k, v)).drop_first() =~~= t.update(j, (k, v)));
    }
}

/// If no entry carries the key, replacement changes nothing.
pub proof fn lemma_table_set_none(t: Seq<(u32, Seq<ActionModel>)>, k: u32, v: Seq<ActionModel>)
    requires
        forall|m: int| 0 <= m < t.len() ==> t[m].0 != k,
    ensures
        table_set(t, k, v) == t,
    decreases t.len(),
{
    if t.len() > 0 {
        lemma_table_set_none(t.drop_first(), k, v);
        assert(seq![t[0]] + t.drop_first() =~~= t);
    }
}

/// The position of the first `Kill` at or after `i`, if any.
pub open spec fn first_kill(actions: Seq<ActionModel>, i: int) -> Option<int>
    decreases actions.len() - i,
{
    if i < 0 || i >= actions.len() {
        None
    } else if actions[i] is Kill {
        Some(i)
    } else {
        first_kill(actions, i + 1)
    }
}

/// If position `p` holds the first kill, the scan finds it.
pub proof fn lemma_first_kill_at(actions: Seq<ActionModel>, p: int)
    requires
        0 <= p < actions.len(),
        actions[p] is Kill,
        forall|m: int| 0 <= m < p ==> !(actions[m] is Kill),
    ensures
        first_kill(actions, 0) == Some(p),
    decreases p,
{
    lemma_first_kill_from(actions, 0, p);
}

/// Helper induction for `lemma_first_kill_at`.
proof fn lemma_first_kill_from(actions: Seq<ActionModel>, i: int, p: int)
    requires
        0 <= i <= p < actions.len(),
        actions[p] is Kill,
        forall|m: int| i <= m < p ==> !(actions[m] is Kill),
    ensures
        first_kill(actions, i) == Some(p),
    decreases p - i,
{
    if i < p {
        lemma_first_kill_from(actions, i + 1, p);
    }
}

/// If no kill remains, the scan finds none.
pub proof fn lemma_first_kill_none(actions: Seq<ActionModel>)
    requires
        forall|m: int| 0 <= m < actions.len() ==> !(actions[m] is Kill),
    ensures
        first_kill(actions, 0) is None,
{
    lemma_first_kill_none_from(actions, 0);
}

/// Helper induction for `lemma_first_kill_none`.
proof fn lemma_first_kill_none_from(actions: Seq<ActionModel>, i: int)
    requires
        forall|m: int| i <= m < actions.len() ==> !(actions[m] is Kill),
    ensures
        first_kill(actions, i) is None,
    decreases actions.len() - i,
{
    if 0 <= i < actions.len() {
        lemma_first_kill_none_from(actions, i + 1);
    }
}

/// One pass over the uses before the first kill at `p`: a use the kill
/// matches exactly links to it and is dropped; a partial match links under
/// the longer variable but the use is kept; anything else is kept.  Returns
/// the kept prefix, the table after the removals, and the links.
pub open spec fn scan_uses(
    actions: Seq<ActionModel>,
    p: int,
    kv: VariableModel,
    kid: u32,
    j: int,
    kept: Seq<ActionModel>,
    table: Seq<ActionModel>,
    links: Seq<LinkModel>,
) -> (Seq<ActionModel>, Seq<ActionModel>, Seq<LinkModel>)
    decreases p - j,
{
    if j < 0 || j >= p {
        (kept, table, links)
    } else {
        let a = actions[j];
        match a {
            ActionModel::Use(uv, uid) => match spec_compare(kv.attributes, uv.attributes) {
                VariableComparison::Equal => scan_uses(
                    actions,
                    p,
                    kv,
                    kid,
                    j + 1,
                    kept,
                    remove_first(table, a),
                    push_unique(links, link_model_of(uid, kid, uv)),
                ),
                VariableComparison::Partial => {
                    let label = if kv.members.len() > uv.members.len() {
                        kv
                    } else {
                        uv
                    };
                    scan_uses(
                        actions,
                        p,
                        kv,
                        kid,
                        j + 1,
                        kept.push(a),
                        remove_first(table, a),
                        push_unique(links, link_model_of(uid, kid, label)),
                    )
                },
                VariableComparison::NotEqual => scan_uses(
                    actions,
                    p,
                    kv,
                    kid,
                    j + 1,
                    kept.push(a),
                    table,
                    links,
                ),
            },
            _ => scan_uses(actions, p, kv, kid, j + 1, kept.push(a), table, links),
        }
    }
}

/// The use-before-kill reduction: while a kill remains in the ordered
/// action sequence, link the earlier uses it covers, drop the matched uses
/// and the kill itself, and repeat.  A processed kill leaves the table as
/// well, whether its matches were exact or partial: the table tracks which
/// facts still flow upward, and a kill is consumed by being processed — only
/// the partially covered uses stay behind in the sequence.  `fuel` bounds
/// the number of passes; one pass removes at least the kill, so any fuel at
/// least the sequence length is enough.
pub open spec fn reduce(
    actions: Seq<ActionModel>,
    table: Seq<ActionModel>,
    links: Seq<LinkModel>,
    fuel: nat,
) -> (Seq<ActionModel>, Seq<ActionModel>, Seq<LinkModel>)
    decreases fuel,
{
    if fuel == 0 {
        (actions, table, links)
    } else {
        match first_kill(actions, 0) {
            None => (actions, table, links),
            Some(p) => match actions[p] {
                ActionModel::Kill(kv, kid) => {
                    let sc = scan_uses(actions, p, kv, kid, 0, Seq::empty(), table, links);
                    let table2 = remove_first(sc.1, actions[p]);
                    let acts2 = sc.0 + actions.skip(p + 1);
                    reduce(acts2, table2, sc.2, (fuel - 1) as nat)
                },
                _ => (actions, table, links),
            },
        }
    }
}

/// The whole state of the reverse worklist: the stack of (seen-from, vertex,
/// carried action sequence) items, the per-vertex tables of actions known to
/// reach the vertex from below, the visited set and the links found so far.
#[verifier::ext_equal]
pub struct FlowModel {
    pub stack: Seq<(u32, u32, Seq<ActionModel>)>,
    pub tables: Seq<(u32, Seq<ActionModel>)>,
    pub visited: Seq<u32>,
    pub links: Seq<LinkModel>,
}

/// The stack items seeding the worklist: one per parent of the exit vertex.
pub open spec fn stack_init(parents: Seq<u32>, stop: u32, i: int) -> Seq<(u32, u32, Seq<ActionModel>)>
    decreases parents.len() - i,
{
    if i < 0 || i >= parents.len() {
        Seq::empty()
    } else {
        seq![(stop, parents[i], Seq::<ActionModel>::empty())] + stack_init(parents, stop, i + 1)
    }
}

/// One empty table per vertex of `vs[i..]`.
pub open spec fn tables_init(vs: Seq<VertexModel>, i: int) -> Seq<(u32, Seq<ActionModel>)>
    decreases vs.len() - i,
{
    if i < 0 || i >= vs.len() {
        Seq::empty()
    } else {
        seq![(vs[i].id, Seq::<ActionModel>::empty())] + tables_init(vs, i + 1)
    }
}

/// The new stack items when vertex `id` is re-enqueued: one per parent.
pub open spec fn stack_pushes(parents: Seq<u32>, id: u32, actions: Seq<ActionModel>, i: int) -> Seq<
    (u32, u32, Seq<ActionModel>),
>
    decreases parents.len() - i,
{
    if i < 0 || i >= parents.len() {
        Seq::empty()
    } else {
        seq![(id, parents[i], actions)] + stack_pushes(parents, id, actions, i + 1)
    }
}

/// One step of the worklist: pop the top item, generate the popped vertex's
/// actions, merge the table seen from below, run the reduction, and
/// re-enqueue the vertex's parents when its table grew or it was not yet
/// visited.  An item naming an unknown vertex or table is dropped.
pub open spec fn flow_step(
    c: CfgModel,
    amap: Seq<(u32, Seq<ActionModel>)>,
    st: FlowModel,
) -> FlowModel
    recommends
        st.stack.len() > 0,
{
    let top = st.stack.last();
    let popped = st.stack.drop_last();
    let from = top.0;
    let id = top.1;
    let actions0 = top.2;
    let skipped = FlowModel { stack: popped, ..st };
    match find_vertex(c.vertices, id) {
        None => skipped,
        Some(v) => match find_amap(st.tables, from) {
            None => skipped,
            Some(pre) => match find_amap(st.tables, id) {
                None => skipped,
                Some(cur) => {
                    let new_acts = match find_amap(amap, id) {
                        Some(e) => e.1,
                        None => Seq::empty(),
                    };
                    let cur_len = cur.1.len();
                    let actions1 = actions0 + new_acts;
                    let cur1 = extend_unique(extend_unique(cur.1, pre.1), new_acts);
                    let red = reduce(actions1, cur1, st.links, actions1.len());
                    let tables2 = table_set(st.tables, id, red.1);
                    let grown = red.1.len() != cur_len;
                    if grown || !st.visited.contains(id) {
                        FlowModel {
                            stack: popped + stack_pushes(parents_of(c.edges, id), id, red.0, 0),
                            tables: tables2,
                            visited: push_unique(st.visited, id),
                            links: red.2,
                        }
                    } else {
                        FlowModel { stack: popped, tables: tables2, visited: st.visited, links: red.2 }
                    }
                },
            },
        },
    }
}

/// Run the worklist until the stack empties or the step budget is spent.
pub open spec fn flow_run(
    c: CfgModel,
    amap: Seq<(u32, Seq<ActionModel>)>,
    st: FlowModel,
    fuel: nat,
) -> FlowModel
    decreases fuel,
{
    if fuel == 0 || st.stack.len() == 0 {
        st
    } else {
        flow_run(c, amap, flow_step(c, amap, st), (fuel - 1) as nat)
    }
}

/// The worklist state after analyzing one CFG.
pub open spec fn spec_flow_result(d: DictModel, c: CfgModel) -> FlowModel {
    let amap = spec_actions_map(d, c.vertices, 0);
    let st0 = FlowModel {
        stack: stack_init(parents_of(c.edges, c.stop), c.stop, 0),
        tables: tables_init(c.vertices, 0),
        visited: Seq::empty(),
        links: Seq::empty(),
    };
    flow_run(c, amap, st0, usize::MAX as nat)
}

/// The links that the reverse worklist finds over one CFG.
pub open spec fn spec_find_links(d: DictModel, c: CfgModel) -> Seq<LinkModel> {
    spec_flow_result(d, c).links
}

/// Append one `Use` per variable.
#[verifier::loop_isolation(false)]
fn push_uses(vars: &Vec<Variable>, id: u32, out: &mut Vec<Action>)
    ensures
        final(out).deep_view() == old(out).deep_view() + uses_from(vars.deep_view(), id, 0),
{
    let ghost vv = vars.deep_view();
    let ghost mut done: Seq<ActionModel> = Seq::empty();
    proof {
        assert(out.deep_view() =~~= old(out).deep_view() + done);
    }
    let mut i: usize = 0;
    while i < vars.len()
        invariant
            0 <= i <= vv.len(),
            out.deep_view() == old(out).deep_view() + done,
            uses_from(vv, id, 0) == done + uses_from(vv, id, i as int),
        decreases vv.len() - i,
    {
        let ghost pre_out = out.deep_view();
        out.push(Action::Use(vars[i].duplicate(), id));
        proof {
            assert(out.deep_view() =~~= pre_out.push(ActionModel::Use(vv[i as int], id)));
            done = done + seq![ActionModel::Use(vv[i as int], id)];
            assert(out.deep_view() =~~= old(out).deep_view() + done);
            assert(uses_from(vv, id, 0) =~~= done + uses_from(vv, id, i + 1));
        }
        i = i + 1;
    }
    proof {
        assert(uses_from(vv, id, vv.len() as int) =~~= Seq::<ActionModel>::empty());
        assert(out.deep_view() =~~= old(out).deep_view() + (done + Seq::<ActionModel>::empty()));
    }
}

/// Append the actions of one statement's assignments.
#[verifier::loop_isolation(false)]
fn push_assign_actions(assigns: &Vec<crate::assignment::Assignment>, id: u32, out: &mut Vec<Action>)
    ensures
        final(out).deep_view() == old(out).deep_view() + assigns_actions(
            assigns.deep_view(),
            id,
            0,
        ),
{
    let ghost av = assigns.deep_view();
    let ghost mut done: Seq<ActionModel> = Seq::empty();
    proof {
        assert(out.deep_view() =~~= old(out).deep_view() + done);
    }
    let mut i: usize = 0;
    while i < assigns.len()
        invariant
            0 <= i <= av.len(),
            out.deep_view() == old(out).deep_view() + done,
            assigns_actions(av, id, 0) == done + assigns_actions(av, id, i as int),
        decreases av.len() - i,
    {
        let a = &assigns[i];
        let ghost lhs_goal = lhs_actions(av[i as int].lhs, av[i as int].op, id, 0);
        let ghost pre_l = out.deep_view();
        let ghost mut ldone: Seq<ActionModel> = Seq::empty();
        let mut j: usize = 0;
        while j < a.lhs.len()
            invariant
                0 <= j <= av[i as int].lhs.len(),
                out.deep_view() == pre_l + ldone,
                lhs_goal == ldone + lhs_actions(av[i as int].lhs, av[i as int].op, id, j as int),
            decreases av[i as int].lhs.len() - j,
        {
            let l = &a.lhs[j];
            match a.op {
                Operator::Equal => {
                    let ghost pre_out = out.deep_view();
                    out.push(Action::Kill(l.duplicate(), id));
                    proof {
                        assert(out.deep_view() =~~= pre_out.push(
                            ActionModel::Kill(av[i as int].lhs[j as int], id),
                        ));
                        ldone = ldone + seq![ActionModel::Kill(av[i as int].lhs[j as int], id)];
                        assert(out.deep_view() =~~= pre_l + ldone);
                    }
                },
                Operator::Other => {
                    let ghost pre_out = out.deep_view();
                    out.push(Action::Kill(l.duplicate(), id));
                    proof {
                        assert(out.deep_view() =~~= pre_out.push(
                            ActionModel::Kill(av[i as int].lhs[j as int], id),
                        ));
                    }
                    let ghost mid_out = out.deep_view();
                    out.push(Action::Use(l.duplicate(), id));
                    proof {
                        assert(out.deep_view() =~~= mid_out.push(
                            ActionModel::Use(av[i as int].lhs[j as int], id),
                        ));
                        ldone = ldone + seq![
                            ActionModel::Kill(av[i as int].lhs[j as int], id),
                            ActionModel::Use(av[i as int].lhs[j as int], id),
                        ];
                        assert(out.deep_view() =~~= pre_l + ldone);
                    }
                },
            }
            proof {
                assert(lhs_goal =~~= ldone + lhs_actions(
                    av[i as int].lhs,
                    av[i as int].op,
                    id,
                    j + 1,
                ));
            }
            j = j + 1;
        }
        proof {
            assert(lhs_actions(av[i as int].lhs, av[i as int].op, id, av[i as int].lhs.len() as int)
                =~~= Seq::<ActionModel>::empty());
            assert(ldone + Seq::<ActionModel>::empty() =~~= ldone);
        }
        push_uses(&a.rhs, id, out);
        proof {
            done = done + (lhs_goal + uses_from(av[i as int].rhs, id, 0));
            assert(out.deep_view() =~~= old(out).deep_view() + done);
            assert(assigns_actions(av, id, 0) =~~= done + assigns_actions(av, id, i + 1));
        }
        i = i + 1;
    }
    proof {
        assert(assigns_actions(av, id, av.len() as int) =~~= Seq::<ActionModel>::empty());
        assert(out.deep_view() =~~= old(out).deep_view() + (done + Seq::<ActionModel>::empty()));
    }
}

/// The action sequence of one vertex: exec mirror of `spec_vertex_actions`.
fn vertex_actions(dict: &Dictionary, v: &Vertex) -> (r: Vec<Action>)
    ensures
        r.deep_view() == spec_vertex_actions(dict.deep_view(), v.deep_view()),
{
    let mut out: Vec<Action> = Vec::new();
    proof {
        assert(out.deep_view() =~~= Seq::<ActionModel>::empty());
    }
    match v.shape {
        Shape::DoubleCircle | Shape::Mdiamond => {
            let extractor = crate::oracle::DataFlowGraph::new();
            let vars = extractor.find_parameters(v.id, dict);
            push_uses(&vars, v.id, &mut out);
            proof {
                assert(Seq::<ActionModel>::empty() + uses_from(
                    spec_find_parameters(dict.deep_view(), v.deep_view().id),
                    v.deep_view().id,
                    0,
                ) =~~= spec_vertex_actions(dict.deep_view(), v.deep_view()));
            }
        },
        Shape::Box => {
            let assigns = crate::assignment::Assignment::parse(dict, v.id);
            if assigns.len() > 0 {
                push_assign_actions(&assigns, v.id, &mut out);
                proof {
                    assert(Seq::<ActionModel>::empty() + assigns_actions(
                        assigns.deep_view(),
                        v.deep_view().id,
                        0,
                    ) =~~= spec_vertex_actions(dict.deep_view(), v.deep_view()));
                }
            } else {
                let vars = Variable::parse(dict, v.id);
                push_uses(&vars, v.id, &mut out);
                proof {
                    assert(Seq::<ActionModel>::empty() + uses_from(
                        spec_parse_variables(dict.deep_view(), v.deep_view().id),
                        v.deep_view().id,
                        0,
                    ) =~~= spec_vertex_actions(dict.deep_view(), v.deep_view()));
                }
            }
        },
        Shape::Diamond => {
            let vars = Variable::parse(dict, v.id);
            push_uses(&vars, v.id, &mut out);
            proof {
                assert(Seq::<ActionModel>::empty() + uses_from(
                    spec_parse_variables(dict.deep_view(), v.deep_view().id),
                    v.deep_view().id,
                    0,
                ) =~~= spec_vertex_actions(dict.deep_view(), v.deep_view()));
            }
        },
        Shape::Point => {},
    }
    out
}

/// One action list per vertex: exec mirror of `spec_actions_map`.
#[verifier::loop_isolation(false)]
fn build_actions_map(dict: &Dictionary, vertices: &Vec<Vertex>) -> (r: Vec<(u32, Vec<Action>)>)
    ensures
        r.deep_view() == spec_actions_map(dict.deep_view(), vertices.deep_view(), 0),
{
    let ghost dv = dict.deep_view();
    let ghost vs = vertices.deep_view();
    let mut r: Vec<(u32, Vec<Action>)> = Vec::new();
    let ghost mut done: Seq<(u32, Seq<ActionModel>)> = Seq::empty();
    proof {
        assert(r.deep_view() =~~= done);
    }
    let mut i: usize = 0;
    while i < vertices.len()
        invariant
            0 <= i <= vs.len(),
            r.deep_view() == done,
            spec_actions_map(dv, vs, 0) == done + spec_actions_map(dv, vs, i as int),
        decreases vs.len() - i,
    {
        let acts = vertex_actions(dict, &vertices[i]);
        r.push((vertices[i].id, acts));
        proof {
            done = done + seq![(vs[i as int].id, spec_vertex_actions(dv, vs[i as int]))];
            assert(r.deep_view() =~~= done);
            assert(spec_actions_map(dv, vs, 0) =~~= done + spec_actions_map(dv, vs, i + 1));
        }
        i = i + 1;
    }
    proof {
        assert(spec_actions_map(dv, vs, vs.len() as int) =~~= Seq::<(u32, Seq<ActionModel>)>::empty());
        assert(done + Seq::<(u32, Seq<ActionModel>)>::empty() =~~= done);
    }
    r
}

/// The sources of the edges pointing at `to`: exec mirror of `parents_of`.
#[verifier::loop_isolation(false)]
fn collect_parents(edges: &Vec<(u32, u32)>, to: u32) -> (r: Vec<u32>)
    ensures
        r@ == parents_of(edges@, to),
{
    let mut r: Vec<u32> = Vec::new();
    let ghost ev = edges@;
    let ghost mut done: Seq<u32> = Seq::empty();
    proof {
        assert(ev.skip(0int) =~= ev);
        assert(r@ =~= done);
    }
    let mut i: usize = 0;
    while i < edges.len()
        invariant
            0 <= i <= ev.len(),
            r@ == done,
            parents_of(ev, to) == done + parents_of(ev.skip(i as int), to),
        decreases ev.len() - i,
    {
        proof {
            assert(ev.skip(i as int)[0] == ev[i as int]);
            assert(ev.skip(i as int).drop_first() =~= ev.skip(i + 1));
        }
        if edges[i].1 == to {
            r.push(edges[i].0);
            proof {
                done = done + seq![ev[i as int].0];
                assert(r@ =~= done);
            }
        }
        proof {
            assert(parents_of(ev, to) =~= done + parents_of(ev.skip(i + 1), to));
        }
        i = i + 1;
    }
    proof {
        assert(parents_of(ev.skip(ev.len() as int), to) =~= Seq::<u32>::empty());
        assert(done + Seq::<u32>::empty() =~= done);
    }
    r
}

/// Look an action-table entry up by key.
#[verifier::loop_isolation(false)]
pub fn lookup_actions<'a>(t: &'a Vec<(u32, Vec<Action>)>, k: u32) -> (r: Option<&'a Vec<Action>>)
    ensures
        match r {
            Some(v) => find_amap(t.deep_view(), k) matches Some(e) && e.1 == v.deep_view(),
            None => find_amap(t.deep_view(), k) is None,
        },
{
    let ghost p = amap_key_is(k);
    let mut i: usize = 0;
    while i < t.len()
        invariant
            0 <= i <= t@.len(),
            forall|j: int| 0 <= j < i ==> !p(t.deep_view()[j]),
        decreases t@.len() - i,
    {
        proof {
            assert(t.deep_view()[i as int] == (t@[i as int].0, t@[i as int].1.deep_view()));
        }
        if t[i].0 == k {
            proof {
                lemma_find_first_at(t.deep_view(), p, i as int);
            }
            return Some(&t[i].1);
        }
        i = i + 1;
    }
    proof {
        lemma_find_first_none(t.deep_view(), p);
    }
    None
}

/// Replace the first table entry keyed `k`: exec mirror of `table_set`.
#[verifier::loop_isolation(false)]
fn table_set_exec(t: &mut Vec<(u32, Vec<Action>)>, k: u32, v: Vec<Action>)
    ensures
        final(t).deep_view() == table_set(old(t).deep_view(), k, v.deep_view()),
{
    let ghost vv = v.deep_view();
    let mut i: usize = 0;
    while i < t.len()
        invariant
            0 <= i <= t@.len(),
            t@ == old(t)@,
            forall|j: int| 0 <= j < i ==> old(t).deep_view()[j].0 != k,
        decreases t@.len() - i,
    {
        proof {
            assert(t.deep_view()[i as int] == (t@[i as int].0, t@[i as int].1.deep_view()));
        }
        if t[i].0 == k {
            proof {
                lemma_table_set_at(old(t).deep_view(), k, vv, i as int);
            }
            let ghost pre = t.deep_view();
            t.remove(i);
            t.insert(i, (k, v));
            proof {
                assert(t.deep_view() =~~= pre.update(i as int, (k, vv)));
            }
            return ;
        }
        i = i + 1;
    }
    proof {
        lemma_table_set_none(old(t).deep_view(), k, vv);
    }
}

/// The position of the first kill: exec mirror of `first_kill`.
#[verifier::loop_isolation(false)]
fn find_first_kill(actions: &Vec<Action>) -> (r: Option<usize>)
    ensures
        match r {
            Some(p) => first_kill(actions.deep_view(), 0) == Some(p as int) && p < actions@.len()
                && actions.deep_view()[p as int] is Kill,
            None => first_kill(actions.deep_view(), 0) is None,
        },
{
    let mut i: usize = 0;
    while i < actions.len()
        invariant
            0 <= i <= actions@.len(),
            forall|j: int| 0 <= j < i ==> !(actions.deep_view()[j] is Kill),
        decreases actions@.len() - i,
    {
        let hit = match &actions[i] {
            Action::Kill(_, _) => true,
            _ => false,
        };
        if hit {
            proof {
                lemma_first_kill_at(actions.deep_view(), i as int);
            }
            return Some(i);
        }
        i = i + 1;
    }
    proof {
        lemma_first_kill_none(actions.deep_view());
    }
    None
}

/// Run the use-before-kill reduction in place: exec mirror of `reduce` with
/// the sequence length as the pass budget.
#[verifier::loop_isolation(false)]
fn reduce_exec(actions: &mut Vec<Action>, table: &mut Vec<Action>, links: &mut Vec<DataLink>)
    ensures
        ({
            let red = reduce(
                old(actions).deep_view(),
                old(table).deep_view(),
                old(links).deep_view(),
                old(actions)@.len() as nat,
            );
            final(actions).deep_view() == red.0 && final(table).deep_view() == red.1
                && final(links).deep_view() == red.2
        }),
{
    let ghost goal = reduce(
        old(actions).deep_view(),
        old(table).deep_view(),
        old(links).deep_view(),
        old(actions)@.len() as nat,
    );
    let mut fuel: usize = actions.len();
    while fuel > 0
        invariant
            goal == reduce(actions.deep_view(), table.deep_view(), links.deep_view(), fuel as nat),
        decreases fuel,
    {
        let ghost av = actions.deep_view();
        let ghost t0 = table.deep_view();
        let ghost l0 = links.deep_view();
        let alen = actions.len();
        let p = match find_first_kill(actions) {
            None => {
                return ;
            },
            Some(p) => p,
        };
        let (kv, kid) = match &actions[p] {
            Action::Kill(v, id) => (v.duplicate(), *id),
            Action::Use(_, _) => {
                proof {
                    assert(false);
                }
                unreached()
            },
        };
        let ghost kvv = kv.deep_view();
        proof {
            assert(av[p as int] == ActionModel::Kill(kvv, kid));
        }
        let mut kept: Vec<Action> = Vec::new();
        proof {
            assert(kept.deep_view() =~~= Seq::<ActionModel>::empty());
        }
        let mut j: usize = 0;
        while j < p
            invariant
                0 <= j <= p,
                actions.deep_view() == av,
                scan_uses(av, p as int, kvv, kid, 0, Seq::empty(), t0, l0) == scan_uses(
                    av,
                    p as int,
                    kvv,
                    kid,
                    j as int,
                    kept.deep_view(),
                    table.deep_view(),
                    links.deep_view(),
                ),
            decreases p - j,
        {
            let ghost pre_kept = kept.deep_view();
            let ghost pre_table = table.deep_view();
            let ghost pre_links = links.deep_view();
            match &actions[j] {
                Action::Use(uv, uid) => {
                    let ghost uvv = uv.deep_view();
                    let ghost uidv = *uid;
                    proof {
                        assert(av[j as int] == ActionModel::Use(uvv, uidv));
                    }
                    match kv.contains(uv) {
                        VariableComparison::Equal => {
                            links_insert_unique(links, DataLink::new(*uid, kid, uv.duplicate()));
                            actions_remove(table, &actions[j]);
                            proof {
                                assert(table.deep_view() == remove_first(pre_table, av[j as int]));
                                assert(links.deep_view() == push_unique(
                                    pre_links,
                                    link_model_of(uidv, kid, uvv),
                                ));
                                assert(scan_uses(av, p as int, kvv, kid, j as int, pre_kept, pre_table, pre_links)
                                    == scan_uses(
                                    av,
                                    p as int,
                                    kvv,
                                    kid,
                                    j + 1,
                                    kept.deep_view(),
                                    table.deep_view(),
                                    links.deep_view(),
                                ));
                            }
                        },
                        VariableComparison::Partial => {
                            let label = if kv.members.len() > uv.members.len() {
                                kv.duplicate()
                            } else {
                                uv.duplicate()
                            };
                            proof {
                                assert(kv.members@.len() == kvv.members.len());
                                assert(uv.members@.len() == uvv.members.len());
                            }
                            links_insert_unique(links, DataLink::new(*uid, kid, label));
                            actions_remove(table, &actions[j]);
                            kept.push(actions[j].duplicate());
                            proof {
                                let lab = if kvv.members.len() > uvv.members.len() {
                                    kvv
                                } else {
                                    uvv
                                };
                                assert(kept.deep_view() =~~= pre_kept.push(av[j as int]));
                                assert(table.deep_view() == remove_first(pre_table, av[j as int]));
                                assert(links.deep_view() == push_unique(
                                    pre_links,
                                    link_model_of(uidv, kid, lab),
                                ));
                                assert(scan_uses(av, p as int, kvv, kid, j as int, pre_kept, pre_table, pre_links)
                                    == scan_uses(
                                    av,
                                    p as int,
                                    kvv,
                                    kid,
                                    j + 1,
                                    kept.deep_view(),
                                    table.deep_view(),
                                    links.deep_view(),
                                ));
                            }
                        },
                        VariableComparison::NotEqual => {
                            kept.push(actions[j].duplicate());
                            proof {
                                assert(kept.deep_view() =~~= pre_kept.push(av[j as int]));
                                assert(scan_uses(av, p as int, kvv, kid, j as int, pre_kept, pre_table, pre_links)
                                    == scan_uses(
                                    av,
                                    p as int,
                                    kvv,
                                    kid,
                                    j + 1,
                                    kept.deep_view(),
                                    table.deep_view(),
                                    links.deep_view(),
                                ));
                            }
                        },
                    }
                },
                Action::Kill(_, _) => {
                    kept.push(actions[j].duplicate());
                    proof {
                        assert(kept.deep_view() =~~= pre_kept.push(av[j as int]));
                        assert(scan_uses(av, p as int, kvv, kid, j as int, pre_kept, pre_table, pre_links)
                            == scan_uses(
                            av,
                            p as int,
                            kvv,
                            kid,
                            j + 1,
                            kept.deep_view(),
                            table.deep_view(),
                            links.deep_view(),
                        ));
                    }
                },
            }
            j = j + 1;
        }
        let ghost sc = scan_uses(av, p as int, kvv, kid, 0, Seq::empty(), t0, l0);
        proof {
            assert(sc == (kept.deep_view(), table.deep_view(), links.deep_view()));
        }
        actions_remove(table, &actions[p]);
        proof {
            assert(table.deep_view() == remove_first(sc.1, av[p as int]));
            assert(kept.deep_view() =~~= sc.0 + av.subrange(p + 1, (p + 1) as int));
        }
        let mut t: usize = p + 1;
        while t < actions.len()
            invariant
                p + 1 <= t <= av.len(),
                actions.deep_view() == av,
                kept.deep_view() == sc.0 + av.subrange(p + 1, t as int),
            decreases av.len() - t,
        {
            let ghost pre_kept2 = kept.deep_view();
            kept.push(actions[t].duplicate());
            proof {
                assert(kept.deep_view() =~~= pre_kept2.push(av[t as int]));
                assert(av.subrange(p + 1, t as int).push(av[t as int]) =~~= av.subrange(
                    p + 1,
                    t + 1,
                ));
                assert(kept.deep_view() =~~= sc.0 + av.subrange(p + 1, t + 1));
            }
            t = t + 1;
        }
        proof {
            assert(av.subrange(p + 1, av.len() as int) =~~= av.skip(p + 1));
        }
        *actions = kept;
        proof {
            assert(actions.deep_view() =~~= sc.0 + av.skip(p + 1));
            assert(goal == reduce(
                actions.deep_view(),
                table.deep_view(),
                links.deep_view(),
                (fuel - 1) as nat,
            ));
        }
        fuel = fuel - 1;
    }
}

/// The vertex id an action is attached to.
pub open spec fn action_id(a: ActionModel) -> u32 {
    match a {
        ActionModel::Use(_, id) => id,
        ActionModel::Kill(_, id) => id,
    }
}

/// Every action of the list sits at a vertex of the CFG.
pub open spec fn actions_at_vertices(c: CfgModel, s: Seq<ActionModel>) -> bool {
    forall|i: int|
        0 <= i < s.len() ==> crate::cfg::has_vertex(c.vertices, action_id(#[trigger] s[i]))
}

/// Both endpoints of every link sit at vertices of the CFG.
pub open spec fn links_at_vertices(c: CfgModel, ls: Seq<LinkModel>) -> bool {
    forall|i: int|
        0 <= i < ls.len() ==> crate::cfg::has_vertex(c.vertices, (#[trigger] ls[i]).from.1)
            && crate::cfg::has_vertex(c.vertices, ls[i].to.1)
}

/// The actions a vertex generates all sit at that vertex.
pub proof fn lemma_vertex_actions_ids(d: DictModel, v: VertexModel, k: int)
    requires
        0 <= k < spec_vertex_actions(d, v).len(),
    ensures
        action_id(spec_vertex_actions(d, v)[k]) == v.id,
{
    match v.shape {
        Shape::DoubleCircle | Shape::Mdiamond => {
            lemma_uses_from_ids(spec_find_parameters(d, v.id), v.id, 0, k);
        },
        Shape::Box => {
            let asg = crate::assignment::spec_parse_assignments(d, v.id);
            if asg.len() > 0 {
                lemma_assigns_actions_ids(asg, v.id, 0, k);
            } else {
                lemma_uses_from_ids(spec_parse_variables(d, v.id), v.id, 0, k);
            }
        },
        Shape::Diamond => {
            lemma_uses_from_ids(spec_parse_variables(d, v.id), v.id, 0, k);
        },
        Shape::Point => {},
    }
}

/// Helper induction: uses are at the given vertex.
proof fn lemma_uses_from_ids(vars: Seq<VariableModel>, id: u32, i: int, k: int)
    requires
        0 <= k < uses_from(vars, id, i).len(),
    ensures
        action_id(uses_from(vars, id, i)[k]) == id,
    decreases vars.len() - i,
{
    if 0 <= i < vars.len() && k > 0 {
        lemma_uses_from_ids(vars, id, i + 1, k - 1);
    }
}

/// Helper induction: kills and uses of a written side are at the vertex.
proof fn lemma_lhs_actions_ids(lhs: Seq<VariableModel>, op: Operator, id: u32, i: int, k: int)
    requires
        0 <= k < lhs_actions(lhs, op, id, i).len(),
    ensures
        action_id(lhs_actions(lhs, op, id, i)[k]) == id,
    decreases lhs.len() - i,
{
    if 0 <= i < lhs.len() {
        let head: Seq<ActionModel> = if op == Operator::Equal {
            seq![ActionModel::Kill(lhs[i], id)]
        } else {
            seq![ActionModel::Kill(lhs[i], id), ActionModel::Use(lhs[i], id)]
        };
        if k >= head.len() {
            lemma_lhs_actions_ids(lhs, op, id, i + 1, k - head.len());
        }
    }
}

/// Helper induction: assignment actions are at the vertex.
proof fn lemma_assigns_actions_ids(assigns: Seq<AssignmentModel>, id: u32, i: int, k: int)
    requires
        0 <= k < assigns_actions(assigns, id, i).len(),
    ensures
        action_id(assigns_actions(assigns, id, i)[k]) == id,
    decreases assigns.len() - i,
{
    if 0 <= i < assigns.len() {
        let own = lhs_actions(assigns[i].lhs, assigns[i].op, id, 0) + uses_from(
            assigns[i].rhs,
            id,
            0,
        );
        if k < own.len() {
            if k < lhs_actions(assigns[i].lhs, assigns[i].op, id, 0).len() {
                lemma_lhs_actions_ids(assigns[i].lhs, assigns[i].op, id, 0, k);
            } else {
                lemma_uses_from_ids(
                    assigns[i].rhs,
                    id,
                    0,
                    k - lhs_actions(assigns[i].lhs, assigns[i].op, id, 0).len(),
                );
            }
        } else {
            lemma_assigns_actions_ids(assigns, id, i + 1, k - own.len());
        }
    }
}

/// Every entry of the action map sits at one of the given vertices.
pub proof fn lemma_actions_map_at_vertices(d: DictModel, c: CfgModel, i: int, k: int)
    requires
        0 <= k < spec_actions_map(d, c.vertices, i).len(),
    ensures
        actions_at_vertices(c, spec_actions_map(d, c.vertices, i)[k].1),
    decreases c.vertices.len() - i,
{
    if 0 <= i < c.vertices.len() {
        if k == 0 {
            let acts = spec_vertex_actions(d, c.vertices[i]);
            assert forall|m: int|
                0 <= m < acts.len() implies crate::cfg::has_vertex(
                c.vertices,
                action_id(#[trigger] acts[m]),
            ) by {
                lemma_vertex_actions_ids(d, c.vertices[i], m);
                assert(c.vertices[i].id == c.vertices[i].id);
            }
        } else {
            lemma_actions_map_at_vertices(d, c, i + 1, k - 1);
        }
    }
}

/// Removing an element keeps the remaining actions at their vertices.
proof fn lemma_remove_first_ok(c: CfgModel, t: Seq<ActionModel>, v: ActionModel)
    requires
        actions_at_vertices(c, t),
    ensures
        actions_at_vertices(c, remove_first(t, v)),
    decreases t.len(),
{
    if t.len() > 0 && t[0] != v {
        assert(actions_at_vertices(c, t.drop_first())) by {
            assert forall|i: int|
                0 <= i < t.drop_first().len() implies crate::cfg::has_vertex(
                c.vertices,
                action_id(#[trigger] t.drop_first()[i]),
            ) by {
                assert(t.drop_first()[i] == t[i + 1]);
            }
        }
        lemma_remove_first_ok(c, t.drop_first(), v);
        let r = seq![t[0]] + remove_first(t.drop_first(), v);
        assert forall|i: int|
            0 <= i < r.len() implies crate::cfg::has_vertex(c.vertices, action_id(#[trigger] r[i])) by {
            if i > 0 {
                assert(r[i] == remove_first(t.drop_first(), v)[i - 1]);
            }
        }
    } else if t.len() > 0 {
        assert forall|i: int|
            0 <= i < t.drop_first().len() implies crate::cfg::has_vertex(
            c.vertices,
            action_id(#[trigger] t.drop_first()[i]),
        ) by {
            assert(t.drop_first()[i] == t[i + 1]);
        }
    }
}

/// The scan keeps actions at vertices and adds only links whose endpoints
/// are vertices.
proof fn lemma_scan_ok(
    c: CfgModel,
    actions: Seq<ActionModel>,
    p: int,
    kv: VariableModel,
    kid: u32,
    j: int,
    kept: Seq<ActionModel>,
    table: Seq<ActionModel>,
    links: Seq<LinkModel>,
)
    requires
        p <= actions.len(),
        actions_at_vertices(c, actions),
        actions_at_vertices(c, kept),
        actions_at_vertices(c, table),
        links_at_vertices(c, links),
        crate::cfg::has_vertex(c.vertices, kid),
    ensures
        actions_at_vertices(c, scan_uses(actions, p, kv, kid, j, kept, table, links).0),
        actions_at_vertices(c, scan_uses(actions, p, kv, kid, j, kept, table, links).1),
        links_at_vertices(c, scan_uses(actions, p, kv, kid, j, kept, table, links).2),
    decreases p - j,
{
    if 0 <= j < p {
        let a = actions[j];
        assert(crate::cfg::has_vertex(c.vertices, action_id(a)));
        assert(actions_at_vertices(c, kept.push(a))) by {
            assert forall|i: int|
                0 <= i < kept.push(a).len() implies crate::cfg::has_vertex(
                c.vertices,
                action_id(#[trigger] kept.push(a)[i]),
            ) by {
                if i < kept.len() {
                    assert(kept.push(a)[i] == kept[i]);
                } else {
                    assert(kept.push(a)[i] == a);
                }
            }
        }
        match a {
            ActionModel::Use(uv, uid) => {
                let l_eq = link_model_of(uid, kid, uv);
                let label = if kv.members.len() > uv.members.len() {
                    kv
                } else {
                    uv
                };
                let l_pa = link_model_of(uid, kid, label);
                assert(links_at_vertices(c, push_unique(links, l_eq))) by {
                    lemma_links_push_ok(c, links, l_eq);
                }
                assert(links_at_vertices(c, push_unique(links, l_pa))) by {
                    lemma_links_push_ok(c, links, l_pa);
                }
                lemma_remove_first_ok(c, table, a);
                match spec_compare(kv.attributes, uv.attributes) {
                    VariableComparison::Equal => {
                        lemma_scan_ok(
                            c,
                            actions,
                            p,
                            kv,
                            kid,
                            j + 1,
                            kept,
                            remove_first(table, a),
                            push_unique(links, l_eq),
                        );
                    },
                    VariableComparison::Partial => {
                        lemma_scan_ok(
                            c,
                            actions,
                            p,
                            kv,
                            kid,
                            j + 1,
                            kept.push(a),
                            remove_first(table, a),
                            push_unique(links, l_pa),
                        );
                    },
                    VariableComparison::NotEqual => {
                        lemma_scan_ok(c, actions, p, kv, kid, j + 1, kept.push(a), table, links);
                    },
                }
            },
            _ => {
                lemma_scan_ok(c, actions, p, kv, kid, j + 1, kept.push(a), table, links);
            },
        }
    }
}

/// Adding a link with vertex endpoints keeps all endpoints at vertices.
proof fn lemma_links_push_ok(c: CfgModel, links: Seq<LinkModel>, l: LinkModel)
    requires
        links_at_vertices(c, links),
        crate::cfg::has_vertex(c.vertices, l.from.1),
        crate::cfg::has_vertex(c.vertices, l.to.1),
    ensures
        links_at_vertices(c, push_unique(links, l)),
{
    if !links.contains(l) {
        assert forall|i: int|
            0 <= i < links.push(l).len() implies crate::cfg::has_vertex(
            c.vertices,
            (#[trigger] links.push(l)[i]).from.1,
        ) && crate::cfg::has_vertex(c.vertices, links.push(l)[i].to.1) by {
            if i < links.len() {
                assert(links.push(l)[i] == links[i]);
            } else {
                assert(links.push(l)[i] == l);
            }
        }
    }
}

/// The reduction keeps actions at vertices and adds only links whose
/// endpoints are vertices.
proof fn lemma_reduce_ok(
    c: CfgModel,
    actions: Seq<ActionModel>,
    table: Seq<ActionModel>,
    links: Seq<LinkModel>,
    fuel: nat,
)
    requires
        actions_at_vertices(c, actions),
        actions_at_vertices(c, table),
        links_at_vertices(c, links),
    ensures
        actions_at_vertices(c, reduce(actions, table, links, fuel).0),
        actions_at_vertices(c, reduce(actions, table, links, fuel).1),
        links_at_vertices(c, reduce(actions, table, links, fuel).2),
    decreases fuel,
{
    if fuel > 0 {
        match first_kill(actions, 0) {
            None => {},
            Some(p) => {
                lemma_first_kill_in_range(actions, 0, p);
                match actions[p] {
                    ActionModel::Kill(kv, kid) => {
                        assert(crate::cfg::has_vertex(c.vertices, kid)) by {
                            assert(action_id(actions[p]) == kid);
                        }
                        lemma_scan_ok(c, actions, p, kv, kid, 0, Seq::empty(), table, links);
                        let sc = scan_uses(actions, p, kv, kid, 0, Seq::empty(), table, links);
                        lemma_remove_first_ok(c, sc.1, actions[p]);
                        let acts2 = sc.0 + actions.skip(p + 1);
                        assert(actions_at_vertices(c, acts2)) by {
                            assert forall|i: int|
                                0 <= i < acts2.len() implies crate::cfg::has_vertex(
                                c.vertices,
                                action_id(#[trigger] acts2[i]),
                            ) by {
                                if i < sc.0.len() {
                                    assert(acts2[i] == sc.0[i]);
                                } else {
                                    assert(acts2[i] == actions[p + 1 + (i - sc.0.len())]);
                                }
                            }
                        }
                        lemma_reduce_ok(c, acts2, remove_first(sc.1, actions[p]), sc.2, (fuel - 1) as nat);
                    },
                    _ => {},
                }
            },
        }
    }
}

/// The first kill lies inside the sequence.
proof fn lemma_first_kill_in_range(actions: Seq<ActionModel>, i: int, p: int)
    requires
        first_kill(actions, i) == Some(p),
        0 <= i,
    ensures
        i <= p < actions.len(),
        actions[p] is Kill,
    decreases actions.len() - i,
{
    if i < actions.len() && !(actions[i] is Kill) {
        lemma_first_kill_in_range(actions, i + 1, p);
    }
}

/// A statement vertex whose single assignment writes `x` from `y` with a
/// plain `=` generates exactly a kill of `x` and a use of `y`.
pub proof fn lemma_plain_assignment_actions(
    d: DictModel,
    v: VertexModel,
    x: VariableModel,
    y: VariableModel,
)
    requires
        v.shape == Shape::Box,
        crate::assignment::spec_parse_assignments(d, v.id) == seq![
            crate::assignment::AssignmentModel {
                lhs: seq![x],
                rhs: seq![y],
                op: Operator::Equal,
            },
        ],
    ensures
        spec_vertex_actions(d, v) == seq![
            ActionModel::Kill(x, v.id),
            ActionModel::Use(y, v.id),
        ],
{
    let asg = crate::assignment::spec_parse_assignments(d, v.id);
    assert(lhs_actions(asg[0].lhs, asg[0].op, v.id, 1) =~~= Seq::<ActionModel>::empty());
    assert(uses_from(asg[0].rhs, v.id, 1) =~~= Seq::<ActionModel>::empty());
    assert(lhs_actions(asg[0].lhs, asg[0].op, v.id, 0) =~~= seq![ActionModel::Kill(x, v.id)]);
    assert(uses_from(asg[0].rhs, v.id, 0) =~~= seq![ActionModel::Use(y, v.id)]);
    assert(assigns_actions(asg, v.id, 1) =~~= Seq::<ActionModel>::empty());
    assert(spec_vertex_actions(d, v) =~~= seq![
        ActionModel::Kill(x, v.id),
        ActionModel::Use(y, v.id),
    ]);
}

/// A statement vertex whose single assignment writes `x` from `y` with a
/// compound operator generates a kill of `x`, a use of `x`, and a use of
/// `y`, in that order.
pub proof fn lemma_compound_assignment_actions(
    d: DictModel,
    v: VertexModel,
    x: VariableModel,
    y: VariableModel,
)
    requires
        v.shape == Shape::Box,
        crate::assignment::spec_parse_assignments(d, v.id) == seq![
            crate::assignment::AssignmentModel {
                lhs: seq![x],
                rhs: seq![y],
                op: Operator::Other,
            },
        ],
    ensures
        spec_vertex_actions(d, v) == seq![
            ActionModel::Kill(x, v.id),
            ActionModel::Use(x, v.id),
            ActionModel::Use(y, v.id),
        ],
{
    let asg = crate::assignment::spec_parse_assignments(d, v.id);
    assert(lhs_actions(asg[0].lhs, asg[0].op, v.id, 1) =~~= Seq::<ActionModel>::empty());
    assert(uses_from(asg[0].rhs, v.id, 1) =~~= Seq::<ActionModel>::empty());
    assert(lhs_actions(asg[0].lhs, asg[0].op, v.id, 0) =~~= seq![
        ActionModel::Kill(x, v.id),
        ActionModel::Use(x, v.id),
    ]);
    assert(uses_from(asg[0].rhs, v.id, 0) =~~= seq![ActionModel::Use(y, v.id)]);
    assert(assigns_actions(asg, v.id, 1) =~~= Seq::<ActionModel>::empty());
    assert(spec_vertex_actions(d, v) =~~= seq![
        ActionModel::Kill(x, v.id),
        ActionModel::Use(x, v.id),
        ActionModel::Use(y, v.id),
    ]);
}

/// Every action carried by the worklist state sits at a vertex of the CFG,
/// and every link found so far joins two vertices.
pub open spec fn flow_state_ok(c: CfgModel, st: FlowModel) -> bool {
    &&& forall|i: int|
        0 <= i < st.stack.len() ==> actions_at_vertices(c, (#[trigger] st.stack[i]).2)
    &&& forall|i: int|
        0 <= i < st.tables.len() ==> actions_at_vertices(c, (#[trigger] st.tables[i]).1)
    &&& links_at_vertices(c, st.links)
}

/// Deduplicating extension keeps actions at vertices.
proof fn lemma_extend_unique_actions_ok(c: CfgModel, s: Seq<ActionModel>, t: Seq<ActionModel>)
    requires
        actions_at_vertices(c, s),
        actions_at_vertices(c, t),
    ensures
        actions_at_vertices(c, extend_unique(s, t)),
{
    let r = extend_unique(s, t);
    assert forall|i: int|
        0 <= i < r.len() implies crate::cfg::has_vertex(c.vertices, action_id(#[trigger] r[i])) by {
        assert(r.contains(r[i]));
        crate::vecset::lemma_extend_unique_member(s, t, r[i]);
        if s.contains(r[i]) {
            let m = choose|m: int| 0 <= m < s.len() && s[m] == r[i];
            assert(crate::cfg::has_vertex(c.vertices, action_id(s[m])));
        } else {
            let m = choose|m: int| 0 <= m < t.len() && t[m] == r[i];
            assert(crate::cfg::has_vertex(c.vertices, action_id(t[m])));
        }
    }
}

/// Replacing one table entry by actions at vertices keeps the table sound.
proof fn lemma_table_set_ok(
    c: CfgModel,
    t: Seq<(u32, Seq<ActionModel>)>,
    k: u32,
    v: Seq<ActionModel>,
)
    requires
        forall|i: int| 0 <= i < t.len() ==> actions_at_vertices(c, (#[trigger] t[i]).1),
        actions_at_vertices(c, v),
    ensures
        forall|i: int|
            0 <= i < table_set(t, k, v).len() ==> actions_at_vertices(
                c,
                (#[trigger] table_set(t, k, v)[i]).1,
            ),
    decreases t.len(),
{
    if t.len() > 0 && t[0].0 != k {
        assert forall|i: int|
            0 <= i < t.drop_first().len() implies actions_at_vertices(
            c,
            (#[trigger] t.drop_first()[i]).1,
        ) by {
            assert(t.drop_first()[i] == t[i + 1]);
        }
        lemma_table_set_ok(c, t.drop_first(), k, v);
        let r = seq![t[0]] + table_set(t.drop_first(), k, v);
        assert forall|i: int| 0 <= i < r.len() implies actions_at_vertices(c, (#[trigger] r[i]).1) by {
            if i > 0 {
                assert(r[i] == table_set(t.drop_first(), k, v)[i - 1]);
            }
        }
    }
}

/// One worklist step keeps the state sound.
proof fn lemma_flow_step_ok(c: CfgModel, amap: Seq<(u32, Seq<ActionModel>)>, st: FlowModel)
    requires
        st.stack.len() > 0,
        flow_state_ok(c, st),
        forall|i: int| 0 <= i < amap.len() ==> actions_at_vertices(c, (#[trigger] amap[i]).1),
    ensures
        flow_state_ok(c, flow_step(c, amap, st)),
{
    let top = st.stack.last();
    let popped = st.stack.drop_last();
    assert(actions_at_vertices(c, top.2));
    assert forall|i: int|
        0 <= i < popped.len() implies actions_at_vertices(c, (#[trigger] popped[i]).2) by {
        assert(popped[i] == st.stack[i]);
    }
    match find_vertex(c.vertices, top.1) {
        None => {},
        Some(v) => match find_amap(st.tables, top.0) {
            None => {},
            Some(pre) => match find_amap(st.tables, top.1) {
                None => {},
                Some(cur) => {
                    crate::vecset::lemma_find_first_is_member(
                        st.tables,
                        amap_key_is(top.0),
                        pre,
                    );
                    crate::vecset::lemma_find_first_is_member(st.tables, amap_key_is(top.1), cur);
                    let pi = choose|i: int| 0 <= i < st.tables.len() && st.tables[i] == pre;
                    let ci = choose|i: int| 0 <= i < st.tables.len() && st.tables[i] == cur;
                    assert(actions_at_vertices(c, pre.1));
                    assert(actions_at_vertices(c, cur.1));
                    let new_acts = match find_amap(amap, top.1) {
                        Some(e) => e.1,
                        None => Seq::<ActionModel>::empty(),
                    };
                    assert(actions_at_vertices(c, new_acts)) by {
                        match find_amap(amap, top.1) {
                            Some(e) => {
                                crate::vecset::lemma_find_first_is_member(
                                    amap,
                                    amap_key_is(top.1),
                                    e,
                                );
                                let m = choose|m: int| 0 <= m < amap.len() && amap[m] == e;
                                assert(actions_at_vertices(c, amap[m].1));
                            },
                            None => {},
                        }
                    }
                    let actions1 = top.2 + new_acts;
                    assert(actions_at_vertices(c, actions1)) by {
                        assert forall|i: int|
                            0 <= i < actions1.len() implies crate::cfg::has_vertex(
                            c.vertices,
                            action_id(#[trigger] actions1[i]),
                        ) by {
                            if i < top.2.len() {
                                assert(actions1[i] == top.2[i]);
                            } else {
                                assert(actions1[i] == new_acts[i - top.2.len()]);
                            }
                        }
                    }
                    lemma_extend_unique_actions_ok(c, cur.1, pre.1);
                    lemma_extend_unique_actions_ok(c, extend_unique(cur.1, pre.1), new_acts);
                    let cur1 = extend_unique(extend_unique(cur.1, pre.1), new_acts);
                    lemma_reduce_ok(c, actions1, cur1, st.links, actions1.len() as nat);
                    let red = reduce(actions1, cur1, st.links, actions1.len() as nat);
                    lemma_table_set_ok(c, st.tables, top.1, red.1);
                    let pushes = stack_pushes(parents_of(c.edges, top.1), top.1, red.0, 0);
                    assert forall|i: int|
                        0 <= i < (popped + pushes).len() implies actions_at_vertices(
                        c,
                        (#[trigger] (popped + pushes)[i]).2,
                    ) by {
                        lemma_stack_pushes_from(parents_of(c.edges, top.1), top.1, red.0, 0, -1);
                        if i < popped.len() {
                            assert((popped + pushes)[i] == popped[i]);
                        } else {
                            lemma_stack_pushes_index(
                                parents_of(c.edges, top.1),
                                top.1,
                                red.0,
                                i - popped.len(),
                            );
                            assert((popped + pushes)[i] == pushes[i - popped.len()]);
                        }
                    }
                },
            },
        },
    }
}

/// The whole worklist run keeps the state sound.
proof fn lemma_flow_run_ok(
    c: CfgModel,
    amap: Seq<(u32, Seq<ActionModel>)>,
    st: FlowModel,
    fuel: nat,
)
    requires
        flow_state_ok(c, st),
        forall|i: int| 0 <= i < amap.len() ==> actions_at_vertices(c, (#[trigger] amap[i]).1),
    ensures
        flow_state_ok(c, flow_run(c, amap, st, fuel)),
    decreases fuel,
{
    if fuel > 0 && st.stack.len() > 0 {
        lemma_flow_step_ok(c, amap, st);
        lemma_flow_run_ok(c, amap, flow_step(c, amap, st), (fuel - 1) as nat);
    }
}

/// Link endpoints valid, per function: both endpoints of every link the
/// reverse worklist finds are vertices of the analyzed CFG.
pub proof fn lemma_find_links_at_vertices(d: DictModel, c: CfgModel)
    ensures
        links_at_vertices(c, spec_find_links(d, c)),
{
    let amap = spec_actions_map(d, c.vertices, 0);
    let st0 = FlowModel {
        stack: stack_init(parents_of(c.edges, c.stop), c.stop, 0),
        tables: tables_init(c.vertices, 0),
        visited: Seq::empty(),
        links: Seq::empty(),
    };
    assert forall|i: int|
        0 <= i < amap.len() implies actions_at_vertices(c, (#[trigger] amap[i]).1) by {
        lemma_actions_map_at_vertices(d, c, 0, i);
    }
    assert forall|i: int|
        0 <= i < st0.stack.len() implies actions_at_vertices(c, (#[trigger] st0.stack[i]).2) by {
        lemma_stack_init_items(parents_of(c.edges, c.stop), c.stop, 0, i);
    }
    assert forall|i: int|
        0 <= i < st0.tables.len() implies actions_at_vertices(c, (#[trigger] st0.tables[i]).1) by {
        lemma_tables_init_items(c.vertices, 0, i);
    }
    lemma_flow_run_ok(c, amap, st0, usize::MAX as nat);
}

/// The seeded stack items carry empty action lists.
proof fn lemma_stack_init_items(parents: Seq<u32>, stop: u32, i: int, k: int)
    requires
        0 <= k < stack_init(parents, stop, i).len(),
    ensures
        stack_init(parents, stop, i)[k].2 == Seq::<ActionModel>::empty(),
    decreases parents.len() - i,
{
    if 0 <= i < parents.len() && k > 0 {
        lemma_stack_init_items(parents, stop, i + 1, k - 1);
    }
}

/// The initial tables are empty.
proof fn lemma_tables_init_items(vs: Seq<VertexModel>, i: int, k: int)
    requires
        0 <= k < tables_init(vs, i).len(),
    ensures
        tables_init(vs, i)[k].1 == Seq::<ActionModel>::empty(),
    decreases vs.len() - i,
{
    if 0 <= i < vs.len() && k > 0 {
        lemma_tables_init_items(vs, i + 1, k - 1);
    }
}

/// The use-scan never loses a link already found.
pub proof fn lemma_scan_links_monotone(
    actions: Seq<ActionModel>,
    p: int,
    kv: VariableModel,
    kid: u32,
    j: int,
    kept: Seq<ActionModel>,
    table: Seq<ActionModel>,
    links: Seq<LinkModel>,
    x: LinkModel,
)
    requires
        links.contains(x),
    ensures
        scan_uses(actions, p, kv, kid, j, kept, table, links).2.contains(x),
    decreases p - j,
{
    if 0 <= j < p {
        match actions[j] {
            ActionModel::Use(uv, uid) => match spec_compare(kv.attributes, uv.attributes) {
                VariableComparison::Equal => {
                    crate::vecset::lemma_push_unique_keeps(links, link_model_of(uid, kid, uv), x);
                    lemma_scan_links_monotone(
                        actions,
                        p,
                        kv,
                        kid,
                        j + 1,
                        kept,
                        remove_first(table, actions[j]),
                        push_unique(links, link_model_of(uid, kid, uv)),
                        x,
                    );
                },
                VariableComparison::Partial => {
                    let label = if kv.members.len() > uv.members.len() {
                        kv
                    } else {
                        uv
                    };
                    crate::vecset::lemma_push_unique_keeps(links, link_model_of(uid, kid, label), x);
                    lemma_scan_links_monotone(
                        actions,
                        p,
                        kv,
                        kid,
                        j + 1,
                        kept.push(actions[j]),
                        remove_first(table, actions[j]),
                        push_unique(links, link_model_of(uid, kid, label)),
                        x,
                    );
                },
                VariableComparison::NotEqual => {
                    lemma_scan_links_monotone(
                        actions,
                        p,
                        kv,
                        kid,
                        j + 1,
                        kept.push(actions[j]),
                        table,
                        links,
                        x,
                    );
                },
            },
            _ => {
                lemma_scan_links_monotone(
                    actions,
                    p,
                    kv,
                    kid,
                    j + 1,
                    kept.push(actions[j]),
                    table,
                    links,
                    x,
                );
            },
        }
    }
}

/// A use before the kill whose variable the kill matches exactly yields its
/// link during the scan.
pub proof fn lemma_scan_adds_equal(
    actions: Seq<ActionModel>,
    p: int,
    kv: VariableModel,
    kid: u32,
    j0: int,
    kept: Seq<ActionModel>,
    table: Seq<ActionModel>,
    links: Seq<LinkModel>,
    j: int,
    uv: VariableModel,
    uid: u32,
)
    requires
        0 <= j0 <= j < p,
        actions[j] == ActionModel::Use(uv, uid),
        spec_compare(kv.attributes, uv.attributes) == VariableComparison::Equal,
    ensures
        scan_uses(actions, p, kv, kid, j0, kept, table, links).2.contains(
            link_model_of(uid, kid, uv),
        ),
    decreases j - j0,
{
    if j0 == j {
        crate::vecset::lemma_push_unique_adds(links, link_model_of(uid, kid, uv));
        lemma_scan_links_monotone(
            actions,
            p,
            kv,
            kid,
            j0 + 1,
            kept,
            remove_first(table, actions[j0]),
            push_unique(links, link_model_of(uid, kid, uv)),
            link_model_of(uid, kid, uv),
        );
    } else {
        match actions[j0] {
            ActionModel::Use(v0, id0) => match spec_compare(kv.attributes, v0.attributes) {
                VariableComparison::Equal => {
                    lemma_scan_adds_equal(
                        actions,
                        p,
                        kv,
                        kid,
                        j0 + 1,
                        kept,
                        remove_first(table, actions[j0]),
                        push_unique(links, link_model_of(id0, kid, v0)),
                        j,
                        uv,
                        uid,
                    );
                },
                VariableComparison::Partial => {
                    let label = if kv.members.len() > v0.members.len() {
                        kv
                    } else {
                        v0
                    };
                    lemma_scan_adds_equal(
                        actions,
                        p,
                        kv,
                        kid,
                        j0 + 1,
                        kept.push(actions[j0]),
                        remove_first(table, actions[j0]),
                        push_unique(links, link_model_of(id0, kid, label)),
                        j,
                        uv,
                        uid,
                    );
                },
                VariableComparison::NotEqual => {
                    lemma_scan_adds_equal(
                        actions,
                        p,
                        kv,
                        kid,
                        j0 + 1,
                        kept.push(actions[j0]),
                        table,
                        links,
                        j,
                        uv,
                        uid,
                    );
                },
            },
            _ => {
                lemma_scan_adds_equal(
                    actions,
                    p,
                    kv,
                    kid,
                    j0 + 1,
                    kept.push(actions[j0]),
                    table,
                    links,
                    j,
                    uv,
                    uid,
                );
            },
        }
    }
}

/// The reduction never loses a link already found.
pub proof fn lemma_reduce_links_monotone(
    actions: Seq<ActionModel>,
    table: Seq<ActionModel>,
    links: Seq<LinkModel>,
    fuel: nat,
    x: LinkModel,
)
    requires
        links.contains(x),
    ensures
        reduce(actions, table, links, fuel).2.contains(x),
    decreases fuel,
{
    if fuel > 0 {
        match first_kill(actions, 0) {
            None => {},
            Some(p) => match actions[p] {
                ActionModel::Kill(kv, kid) => {
                    lemma_scan_links_monotone(
                        actions,
                        p,
                        kv,
                        kid,
                        0,
                        Seq::empty(),
                        table,
                        links,
                        x,
                    );
                    let sc = scan_uses(actions, p, kv, kid, 0, Seq::empty(), table, links);
                    lemma_reduce_links_monotone(
                        sc.0 + actions.skip(p + 1),
                        remove_first(sc.1, actions[p]),
                        sc.2,
                        (fuel - 1) as nat,
                        x,
                    );
                },
                _ => {},
            },
        }
    }
}

/// Kill coverage, one reduction pass: when the ordered action sequence holds
/// a use of a variable before its first kill, and the kill's variable
/// matches the use exactly, the reduction emits the link from the use's site
/// to the kill's site, labeled with the used variable.
pub proof fn lemma_reduce_links_use_to_kill(
    actions: Seq<ActionModel>,
    table: Seq<ActionModel>,
    links: Seq<LinkModel>,
    fuel: nat,
    p: int,
    kv: VariableModel,
    kid: u32,
    j: int,
    uv: VariableModel,
    uid: u32,
)
    requires
        fuel > 0,
        first_kill(actions, 0) == Some(p),
        0 <= p < actions.len(),
        actions[p] == ActionModel::Kill(kv, kid),
        0 <= j < p,
        actions[j] == ActionModel::Use(uv, uid),
        spec_compare(kv.attributes, uv.attributes) == VariableComparison::Equal,
    ensures
        reduce(actions, table, links, fuel).2.contains(link_model_of(uid, kid, uv)),
{
    lemma_scan_adds_equal(actions, p, kv, kid, 0, Seq::empty(), table, links, j, uv, uid);
    let sc = scan_uses(actions, p, kv, kid, 0, Seq::empty(), table, links);
    lemma_reduce_links_monotone(
        sc.0 + actions.skip(p + 1),
        remove_first(sc.1, actions[p]),
        sc.2,
        (fuel - 1) as nat,
        link_model_of(uid, kid, uv),
    );
}

/// The intra-procedural data-flow graph of one function: it owns the
/// function's CFG and, after `find_links`, the per-vertex action lists.
pub struct DataFlowGraph {
    pub cfg: Cfg,
    pub new_actions: Vec<(u32, Vec<Action>)>,
}

impl DataFlowGraph {
    /// A data-flow graph over one function's CFG, not yet analyzed.
    pub fn new(cfg: Cfg) -> (r: DataFlowGraph)
        ensures
            r.cfg.deep_view() == cfg.deep_view(),
            r.new_actions.deep_view() == Seq::<(u32, Seq<ActionModel>)>::empty(),
    {
        let r = DataFlowGraph { cfg, new_actions: Vec::new() };
        proof {
            assert(r.new_actions.deep_view() =~~= Seq::<(u32, Seq<ActionModel>)>::empty());
        }
        r
    }

    /// The CFG this graph was built over.
    pub fn get_cfg(&self) -> (r: &Cfg)
        ensures
            r.deep_view() == self.cfg.deep_view(),
    {
        &self.cfg
    }

    /// The action list of every vertex, recorded by `find_links`.
    pub fn get_new_actions(&self) -> (r: &Vec<(u32, Vec<Action>)>)
        ensures
            r.deep_view() == self.new_actions.deep_view(),
    {
        &self.new_actions
    }

    /// Find the data-dependency links of this function by the reverse
    /// worklist: starting at the exit, each vertex's action sequence is
    /// merged with what reaches it from below and reduced use-before-kill;
    /// a vertex is re-enqueued while its table still grows.
    #[verifier::loop_isolation(false)]
    pub fn find_links(&mut self, dict: &Dictionary) -> (r: Vec<DataLink>)
        ensures
            final(self).cfg.deep_view() == old(self).cfg.deep_view(),
            final(self).new_actions.deep_view() == spec_actions_map(
                dict.deep_view(),
                old(self).cfg.deep_view().vertices,
                0,
            ),
            r.deep_view() == spec_find_links(dict.deep_view(), old(self).cfg.deep_view()),
    {
        let ghost dv = dict.deep_view();
        let ghost cv = self.cfg.deep_view();
        let amap = build_actions_map(dict, &self.cfg.vertices);
        let ghost amv = amap.deep_view();
        let mut tables: Vec<(u32, Vec<Action>)> = Vec::new();
        let ghost mut tdone: Seq<(u32, Seq<ActionModel>)> = Seq::empty();
        proof {
            assert(tables.deep_view() =~~= tdone);
        }
        let mut i: usize = 0;
        while i < self.cfg.vertices.len()
            invariant
                0 <= i <= cv.vertices.len(),
                self.cfg.deep_view() == cv,
                tables.deep_view() == tdone,
                tables_init(cv.vertices, 0) == tdone + tables_init(cv.vertices, i as int),
            decreases cv.vertices.len() - i,
        {
            tables.push((self.cfg.vertices[i].id, Vec::new()));
            proof {
                tdone = tdone + seq![(cv.vertices[i as int].id, Seq::<ActionModel>::empty())];
                assert(tables.deep_view() =~~= tdone);
                assert(tables_init(cv.vertices, 0) =~~= tdone + tables_init(cv.vertices, i + 1));
            }
            i = i + 1;
        }
        proof {
            assert(tables_init(cv.vertices, cv.vertices.len() as int) =~~= Seq::<
                (u32, Seq<ActionModel>),
            >::empty());
            assert(tables.deep_view() =~~= tables_init(cv.vertices, 0));
        }
        let stop = self.cfg.stop;
        let parents0 = collect_parents(&self.cfg.edges, stop);
        let ghost p0 = parents0@;
        let mut stack: Vec<(u32, u32, Vec<Action>)> = Vec::new();
        let ghost mut sdone: Seq<(u32, u32, Seq<ActionModel>)> = Seq::empty();
        proof {
            assert(stack.deep_view() =~~= sdone);
        }
        let mut k: usize = 0;
        while k < parents0.len()
            invariant
                0 <= k <= p0.len(),
                stack.deep_view() == sdone,
                stack_init(p0, cv.stop, 0) == sdone + stack_init(p0, cv.stop, k as int),
            decreases p0.len() - k,
        {
            stack.push((stop, parents0[k], Vec::new()));
            proof {
                let item = (cv.stop, p0[k as int], Seq::<ActionModel>::empty());
                assert(stack.deep_view() =~~= sdone.push(item));
                sdone = sdone.push(item);
                assert(sdone =~~= sdone.drop_last() + seq![item]);
                assert(stack_init(p0, cv.stop, 0) =~~= sdone + stack_init(p0, cv.stop, k + 1));
            }
            k = k + 1;
        }
        proof {
            assert(stack_init(p0, cv.stop, p0.len() as int) =~~= Seq::<
                (u32, u32, Seq<ActionModel>),
            >::empty());
            assert(stack.deep_view() =~~= stack_init(p0, cv.stop, 0));
        }
        let mut visited: Vec<u32> = Vec::new();
        let mut links: Vec<DataLink> = Vec::new();
        let ghost st0 = FlowModel {
            stack: stack.deep_view(),
            tables: tables.deep_view(),
            visited: visited@,
            links: links.deep_view(),
        };
        proof {
            assert(st0 =~~= (FlowModel {
                stack: stack_init(parents_of(cv.edges, cv.stop), cv.stop, 0),
                tables: tables_init(cv.vertices, 0),
                visited: Seq::empty(),
                links: Seq::empty(),
            }));
        }
        let mut fuel: usize = usize::MAX;
        while stack.len() > 0 && fuel > 0
            invariant
                self.cfg.deep_view() == cv,
                flow_run(cv, amv, st0, usize::MAX as nat) == flow_run(
                    cv,
                    amv,
                    FlowModel {
                        stack: stack.deep_view(),
                        tables: tables.deep_view(),
                        visited: visited@,
                        links: links.deep_view(),
                    },
                    fuel as nat,
                ),
            decreases fuel,
        {
            let ghost pre = FlowModel {
                stack: stack.deep_view(),
                tables: tables.deep_view(),
                visited: visited@,
                links: links.deep_view(),
            };
            let ghost prestack = stack.deep_view();
            let top = match stack.pop() {
                Some(t) => t,
                None => {
                    proof {
                        assert(false);
                    }
                    unreached()
                },
            };
            let (from, id, actions0) = top;
            proof {
                assert(stack.deep_view() =~~= pre.stack.drop_last());
                assert((pre.stack.last().0, pre.stack.last().1, pre.stack.last().2) == (
                    from,
                    id,
                    actions0.deep_view(),
                ));
            }
            fuel = fuel - 1;
            if lookup_vertex(&self.cfg.vertices, id).is_none() {
                proof {
                    let stepped = flow_step(cv, amv, pre);
                    assert(stepped =~~= (FlowModel {
                        stack: stack.deep_view(),
                        tables: tables.deep_view(),
                        visited: visited@,
                        links: links.deep_view(),
                    }));
                }
                continue ;
            }
            let pre_acts: Vec<Action> = match lookup_actions(&tables, from) {
                Some(pt) => dup_actions(pt),
                None => {
                    proof {
                        let stepped = flow_step(cv, amv, pre);
                        assert(stepped =~~= (FlowModel {
                            stack: stack.deep_view(),
                            tables: tables.deep_view(),
                            visited: visited@,
                            links: links.deep_view(),
                        }));
                    }
                    continue ;
                },
            };
            let mut cur: Vec<Action> = match lookup_actions(&tables, id) {
                Some(ct) => dup_actions(ct),
                None => {
                    proof {
                        let stepped = flow_step(cv, amv, pre);
                        assert(stepped =~~= (FlowModel {
                            stack: stack.deep_view(),
                            tables: tables.deep_view(),
                            visited: visited@,
                            links: links.deep_view(),
                        }));
                    }
                    continue ;
                },
            };
            let cur_len = cur.len();
            let new_acts: Vec<Action> = match lookup_actions(&amap, id) {
                Some(na) => dup_actions(na),
                None => Vec::new(),
            };
            proof {
                assert(new_acts.deep_view() =~~= (match find_amap(amv, id) {
                    Some(e) => e.1,
                    None => Seq::<ActionModel>::empty(),
                }));
            }
            let mut acts = actions0;
            let ghost a0v = acts.deep_view();
            let mut more = dup_actions(&new_acts);
            acts.append(&mut more);
            proof {
                assert(acts.deep_view() =~~= a0v + new_acts.deep_view());
            }
            actions_extend_unique(&mut cur, &pre_acts);
            actions_extend_unique(&mut cur, &new_acts);
            reduce_exec(&mut acts, &mut cur, &mut links);
            let new_len = cur.len();
            table_set_exec(&mut tables, id, cur);
            let contained = crate::dict::ids_contain(&visited, id);
            if new_len != cur_len || !contained {
                if !contained {
                    visited.push(id);
                }
                let parents = collect_parents(&self.cfg.edges, id);
                let ghost pv = parents@;
                let ghost actsv = acts.deep_view();
                let ghost basestack = stack.deep_view();
                proof {
                    lemma_stack_pushes_from(pv, id, actsv, 0, -1);
                    assert(stack.deep_view() =~~= basestack + stack_pushes(pv, id, actsv, 0).take(
                        0int,
                    ));
                }
                let mut q: usize = 0;
                while q < parents.len()
                    invariant
                        0 <= q <= pv.len(),
                        stack.deep_view() == basestack + stack_pushes(pv, id, actsv, 0).take(
                            q as int,
                        ),
                        acts.deep_view() == actsv,
                        stack_pushes(pv, id, actsv, 0).len() == pv.len(),
                    decreases pv.len() - q,
                {
                    let ghost prestack2 = stack.deep_view();
                    stack.push((id, parents[q], dup_actions(&acts)));
                    proof {
                        lemma_stack_pushes_index(pv, id, actsv, q as int);
                        assert(stack.deep_view() =~~= prestack2.push(
                            stack_pushes(pv, id, actsv, 0)[q as int],
                        ));
                        assert(basestack + stack_pushes(pv, id, actsv, 0).take(q as int).push(
                            stack_pushes(pv, id, actsv, 0)[q as int],
                        ) =~~= basestack + stack_pushes(pv, id, actsv, 0).take(q + 1));
                    }
                    q = q + 1;
                }
                proof {
                    assert(stack_pushes(pv, id, actsv, 0).take(pv.len() as int) =~~= stack_pushes(
                        pv,
                        id,
                        actsv,
                        0,
                    ));
                }
            }
            proof {
                let stepped = flow_step(cv, amv, pre);
                assert(stepped =~~= (FlowModel {
                    stack: stack.deep_view(),
                    tables: tables.deep_view(),
                    visited: visited@,
                    links: links.deep_view(),
                }));
            }
        }
        proof {
            let cur_st = FlowModel {
                stack: stack.deep_view(),
                tables: tables.deep_view(),
                visited: visited@,
                links: links.deep_view(),
            };
            assert(flow_run(cv, amv, cur_st, fuel as nat) == cur_st);
            assert(links.deep_view() == spec_find_links(dv, cv));
        }
        self.new_actions = amap;
        links
    }
}

/// The length and elements of the re-enqueue list.
pub proof fn lemma_stack_pushes_index(
    parents: Seq<u32>,
    id: u32,
    actions: Seq<ActionModel>,
    q: int,
)
    requires
        0 <= q < parents.len(),
    ensures
        stack_pushes(parents, id, actions, 0).len() == parents.len(),
        stack_pushes(parents, id, actions, 0)[q] == (id, parents[q], actions),
{
    lemma_stack_pushes_from(parents, id, actions, 0, q);
}

/// Helper induction for `lemma_stack_pushes_index`.
pub proof fn lemma_stack_pushes_from(
    parents: Seq<u32>,
    id: u32,
    actions: Seq<ActionModel>,
    i: int,
    q: int,
)
    requires
        0 <= i <= parents.len(),
        i <= q < parents.len() || q == -1,
    ensures
        stack_pushes(parents, id, actions, i).len() == parents.len() - i,
        q >= i ==> stack_pushes(parents, id, actions, i)[q - i] == (id, parents[q], actions),
    decreases parents.len() - i,
{
    if i < parents.len() {
        lemma_stack_pushes_from(parents, id, actions, i + 1, if q >= i + 1 {
            q
        } else {
            -1
        });
    }
}

} // verus!

use vstd::prelude::*;

use crate::vecset::{find_first, lemma_find_first_at, lemma_find_first_none};
use crate::vertex::{Vertex, VertexModel};

verus! {

/// The control-flow graph of one function, as the analysis consumes it:
/// shape-tagged vertices, directed edges, the exit vertex, the execution
/// paths, and the per-site id lists for subscripts, calls, returns and
/// parameters.
#[derive(Debug)]
pub struct Cfg {
    pub function_id: u32,
    pub vertices: Vec<Vertex>,
    pub edges: Vec<(u32, u32)>,
    pub stop: u32,
    pub execution_paths: Vec<Vec<u32>>,
    pub indexes: Vec<(u32, Vec<u32>)>,
    pub fcalls: Vec<(u32, Vec<u32>)>,
    pub returns_map: Vec<(u32, Vec<u32>)>,
    pub parameters: Vec<(u32, Vec<u32>)>,
}

/// Mathematical value of a `Cfg`.
#[verifier::ext_equal]
pub struct CfgModel {
    pub function_id: u32,
    pub vertices: Seq<VertexModel>,
    pub edges: Seq<(u32, u32)>,
    pub stop: u32,
    pub execution_paths: Seq<Seq<u32>>,
    pub indexes: Seq<(u32, Seq<u32>)>,
    pub fcalls: Seq<(u32, Seq<u32>)>,
    pub returns_map: Seq<(u32, Seq<u32>)>,
    pub parameters: Seq<(u32, Seq<u32>)>,
}

impl DeepView for Cfg {
    type V = CfgModel;

    open spec fn deep_view(&self) -> CfgModel {
        CfgModel {
            function_id: self.function_id,
            vertices: self.vertices.deep_view(),
            edges: self.edges@,
            stop: self.stop,
            execution_paths: self.execution_paths.deep_view(),
            indexes: self.indexes.deep_view(),
            fcalls: self.fcalls.deep_view(),
            returns_map: self.returns_map.deep_view(),
            parameters: self.parameters.deep_view(),
        }
    }
}

/// Whether some vertex of the list carries the id.
pub open spec fn has_vertex(vs: Seq<VertexModel>, id: u32) -> bool {
    exists|i: int| 0 <= i < vs.len() && vs[i].id == id
}

/// Every id of every entry of an id-list table is a vertex.
pub open spec fn table_in_vertices(t: Seq<(u32, Seq<u32>)>, vs: Seq<VertexModel>) -> bool {
    forall|i: int, j: int|
        0 <= i < t.len() && 0 <= j < t[i].1.len() ==> has_vertex(vs, #[trigger] t[i].1[j])
}

/// A well-formed CFG: the exit and the endpoints of every edge are vertices,
/// and so are the ids that the subscript, call, return and parameter tables
/// hold; subscript and call sites are themselves vertices.
pub open spec fn cfg_wf(c: CfgModel) -> bool {
    &&& has_vertex(c.vertices, c.stop)
    &&& forall|i: int|
        0 <= i < c.edges.len() ==> has_vertex(c.vertices, (#[trigger] c.edges[i]).0) && has_vertex(
            c.vertices,
            c.edges[i].1,
        )
    &&& table_in_vertices(c.indexes, c.vertices)
    &&& table_in_vertices(c.fcalls, c.vertices)
    &&& table_in_vertices(c.returns_map, c.vertices)
    &&& table_in_vertices(c.parameters, c.vertices)
    &&& forall|i: int|
        0 <= i < c.indexes.len() ==> has_vertex(c.vertices, (#[trigger] c.indexes[i]).0)
    &&& forall|i: int| 0 <= i < c.fcalls.len() ==> has_vertex(c.vertices, (#[trigger] c.fcalls[i]).0)
}

/// The predicate selecting the vertex with a given id.
pub open spec fn vertex_id_is(id: u32) -> spec_fn(VertexModel) -> bool {
    |v: VertexModel| v.id == id
}

/// The first vertex carrying `id`, if any.
pub open spec fn find_vertex(vs: Seq<VertexModel>, id: u32) -> Option<VertexModel> {
    find_first(vs, vertex_id_is(id))
}

/// Look a vertex up by id.
#[verifier::loop_isolation(false)]
pub fn lookup_vertex<'a>(vs: &'a Vec<Vertex>, id: u32) -> (r: Option<&'a Vertex>)
    ensures
        match r {
            Some(v) => find_vertex(vs.deep_view(), id) == Some(v.deep_view()),
            None => find_vertex(vs.deep_view(), id) is None,
        },
{
    let ghost p = vertex_id_is(id);
    let mut i: usize = 0;
    while i < vs.len()
        invariant
            0 <= i <= vs@.len(),
            forall|j: int| 0 <= j < i ==> !p(vs.deep_view()[j]),
        decreases vs@.len() - i,
    {
        if vs[i].id == id {
            proof {
                lemma_find_first_at(vs.deep_view(), p, i as int);
            }
            return Some(&vs[i]);
        }
        i = i + 1;
    }
    proof {
        lemma_find_first_none(vs.deep_view(), p);
    }
    None
}

/// The predicate selecting an id-list entry by key.
pub open spec fn entry_key_is(k: u32) -> spec_fn((u32, Seq<u32>)) -> bool {
    |e: (u32, Seq<u32>)| e.0 == k
}

/// The first id-list entry keyed `k`, if any.
pub open spec fn find_entry(t: Seq<(u32, Seq<u32>)>, k: u32) -> Option<(u32, Seq<u32>)> {
    find_first(t, entry_key_is(k))
}

/// Look an id-list entry up by key.
#[verifier::loop_isolation(false)]
pub fn lookup_entry<'a>(t: &'a Vec<(u32, Vec<u32>)>, k: u32) -> (r: Option<&'a Vec<u32>>)
    ensures
        match r {
            Some(v) => find_entry(t.deep_view(), k) matches Some(e) && e.1 == v@,
            None => find_entry(t.deep_view(), k) is None,
        },
{
    let ghost p = entry_key_is(k);
    let mut i: usize = 0;
    while i < t.len()
        invariant
            0 <= i <= t@.len(),
            forall|j: int| 0 <= j < i ==> !p(t.deep_view()[j]),
        decreases t@.len() - i,
    {
        proof {
            assert(t.deep_view()[i as int] == (t@[i as int].0, t@[i as int].1@));
        }
        if t[i].0 == k {
            proof {
                lemma_find_first_at(t.deep_view(), p, i as int);
            }
            return Some(&t[i].1);
        }
        i = i + 1;
    }
    proof {
        lemma_find_first_none(t.deep_view(), p);
    }
    None
}

} // verus!

use vstd::prelude::*;

use crate::strutil::{dec_digits, dec_string};

verus! {

/// The shape of a CFG vertex: `Point` marks a synthetic entry or exit,
/// `Box` a statement, `Diamond` a branch condition, `DoubleCircle` a
/// function call and `Mdiamond` a modifier invocation.
#[derive(Debug, Clone, Copy, PartialEq, Eq, Structural, Hash)]
pub enum Shape {
    Point,
    Box,
    Diamond,
    DoubleCircle,
    Mdiamond,
}

/// One vertex of a per-function control-flow graph: its AST node id, the
/// source text it stands for, and its shape.
#[derive(Debug, Clone, PartialEq, Eq, Hash)]
pub struct Vertex {
    pub id: u32,
    pub source: String,
    pub shape: Shape,
}

/// Mathematical value of a `Vertex`.
#[verifier::ext_equal]
pub struct VertexModel {
    pub id: u32,
    pub source: Seq<char>,
    pub shape: Shape,
}

impl DeepView for Vertex {
    type V = VertexModel;

    open spec fn deep_view(&self) -> VertexModel {
        VertexModel { id: self.id, source: self.source@, shape: self.shape }
    }
}

/// The DOT name of a shape.
pub open spec fn shape_text(s: Shape) -> Seq<char> {
    match s {
        Shape::Point => "point"@,
        Shape::Box => "box"@,
        Shape::Diamond => "diamond"@,
        Shape::DoubleCircle => "doublecircle"@,
        Shape::Mdiamond => "Mdiamond"@,
    }
}

/// A string with every quote and backslash preceded by a backslash, so that
/// it can stand inside a DOT label.
pub open spec fn dot_escape(s: Seq<char>) -> Seq<char>
    decreases s.len(),
{
    if s.len() == 0 {
        s
    } else {
        let head: Seq<char> = if s[0] == '"' || s[0] == '\\' {
            seq!['\\', s[0]]
        } else {
            seq![s[0]]
        };
        head + dot_escape(s.drop_first())
    }
}

/// The DOT line of a vertex.
pub open spec fn spec_vertex_line(v: VertexModel) -> Seq<char> {
    "  "@ + dec_digits(v.id as nat) + "[label=\""@ + dot_escape(v.source) + "\", shape=\""@
        + shape_text(v.shape) + "\"];\n"@
}

/// Escape a string for use inside a DOT label.
#[verifier::loop_isolation(false)]
pub fn dot_escape_exec(s: &str) -> (r: String)
    ensures
        r@ == dot_escape(s@),
{
    proof {
        reveal_strlit("\\");
    }
    let n = s.unicode_len();
    let mut out = String::new();
    let ghost mut done: Seq<char> = Seq::empty();
    proof {
        assert(s@.skip(0int) =~= s@);
        assert(done + dot_escape(s@) =~= dot_escape(s@));
    }
    let mut i: usize = 0;
    while i < n
        invariant
            0 <= i <= n,
            out@ == done,
            dot_escape(s@) == done + dot_escape(s@.skip(i as int)),
        decreases n - i,
    {
        let c = s.get_char(i);
        let piece = s.substring_char(i, i + 1);
        if c == '"' || c == '\\' {
            out.append("\\");
        }
        out.append(piece);
        proof {
            let tail = s@.skip(i as int);
            assert(tail[0] == s@[i as int]);
            assert(piece@ =~= seq![s@[i as int]]);
            assert("\\"@ =~= seq!['\\']);
            let head: Seq<char> = if s@[i as int] == '"' || s@[i as int] == '\\' {
                seq!['\\', s@[i as int]]
            } else {
                seq![s@[i as int]]
            };
            assert(out@ =~= done + head);
            done = done + head;
            assert(tail.drop_first() =~= s@.skip(i + 1));
            assert(dot_escape(s@) =~= done + dot_escape(s@.skip(i + 1)));
        }
        i = i + 1;
    }
    proof {
        assert(s@.skip(n as int) =~= Seq::<char>::empty());
        assert(done + Seq::<char>::empty() =~= done);
    }
    out
}

impl Vertex {
    /// Build a vertex.
    pub fn new(id: u32, source: &str, shape: Shape) -> (r: Vertex)
        ensures
            r.deep_view() == (VertexModel { id, source: source@, shape }),
    {
        Vertex { id, source: String::from_str(source), shape }
    }

    /// The DOT line describing this vertex.
    pub fn to_string(&self) -> (r: String)
        ensures
            r@ == spec_vertex_line(self.deep_view()),
    {
        let mut out = String::from_str("  ");
        out.append(dec_string(self.id).as_str());
        out.append("[label=\"");
        out.append(dot_escape_exec(self.source.as_str()).as_str());
        out.append("\", shape=\"");
        match self.shape {
            Shape::Point => out.append("point"),
            Shape::Box => out.append("box"),
            Shape::Diamond => out.append("diamond"),
            Shape::DoubleCircle => out.append("doublecircle"),
            Shape::Mdiamond => out.append("Mdiamond"),
        }
        out.append("\"];\n");
        out
    }
}

} // verus!

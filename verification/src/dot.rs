use vstd::prelude::*;

use crate::cfg::{Cfg, CfgModel};
use crate::link::{DataLink, LinkModel};
use crate::strutil::{append_dec, dec_digits};
use crate::vertex::{dot_escape, dot_escape_exec, spec_vertex_line};

verus! {

/// The DOT line of one edge.
pub open spec fn edge_line(e: (u32, u32)) -> Seq<char> {
    "  "@ + dec_digits(e.0 as nat) + " -> "@ + dec_digits(e.1 as nat) + ";\n"@
}

/// The DOT line of one data link: a dotted edge labeled with the source text
/// of the link's variable.
pub open spec fn link_line(l: LinkModel) -> Seq<char> {
    "  "@ + dec_digits(l.from.1 as nat) + " -> "@ + dec_digits(l.to.1 as nat) + "[label=\""@
        + dot_escape(l.var.source) + "\", style=dotted];\n"@
}

/// The vertex lines of `vs[i..]`.
pub open spec fn vertex_lines(vs: Seq<crate::vertex::VertexModel>, i: int) -> Seq<char>
    decreases vs.len() - i,
{
    if i < 0 || i >= vs.len() {
        Seq::empty()
    } else {
        spec_vertex_line(vs[i]) + vertex_lines(vs, i + 1)
    }
}

/// The edge lines of `es[i..]`.
pub open spec fn edge_lines(es: Seq<(u32, u32)>, i: int) -> Seq<char>
    decreases es.len() - i,
{
    if i < 0 || i >= es.len() {
        Seq::empty()
    } else {
        edge_line(es[i]) + edge_lines(es, i + 1)
    }
}

/// The link lines of `ls[i..]`.
pub open spec fn link_lines(ls: Seq<LinkModel>, i: int) -> Seq<char>
    decreases ls.len() - i,
{
    if i < 0 || i >= ls.len() {
        Seq::empty()
    } else {
        link_line(ls[i]) + link_lines(ls, i + 1)
    }
}

/// The text one CFG adds to a drawing: its vertex lines, then its edge
/// lines.
pub open spec fn cfg_text(c: CfgModel) -> Seq<char> {
    vertex_lines(c.vertices, 0) + edge_lines(c.edges, 0)
}

/// Renders CFGs and data links as a DOT digraph, collecting lines into a
/// buffer.
#[derive(Debug)]
pub struct Dot {
    pub content: String,
}

impl Dot {
    /// An empty drawing.
    pub fn new() -> (r: Dot)
        ensures
            r.content@ == Seq::<char>::empty(),
    {
        Dot { content: String::new() }
    }

    /// Drop everything drawn so far.
    pub fn clear(&mut self)
        ensures
            final(self).content@ == Seq::<char>::empty(),
    {
        self.content = String::new();
    }

    /// Draw one CFG: its vertices, then its edges.
    #[verifier::loop_isolation(false)]
    pub fn add_cfg(&mut self, cfg: &Cfg)
        ensures
            final(self).content@ == old(self).content@ + cfg_text(cfg.deep_view()),
    {
        let ghost cv = cfg.deep_view();
        let ghost mut done: Seq<char> = Seq::empty();
        proof {
            assert(self.content@ =~= old(self).content@ + done);
        }
        let mut i: usize = 0;
        while i < cfg.vertices.len()
            invariant
                0 <= i <= cv.vertices.len(),
                self.content@ == old(self).content@ + done,
                vertex_lines(cv.vertices, 0) == done + vertex_lines(cv.vertices, i as int),
            decreases cv.vertices.len() - i,
        {
            let line = cfg.vertices[i].to_string();
            self.content.append(line.as_str());
            proof {
                done = done + spec_vertex_line(cv.vertices[i as int]);
                assert(self.content@ =~= old(self).content@ + done);
                assert(vertex_lines(cv.vertices, 0) =~= done + vertex_lines(cv.vertices, i + 1));
            }
            i = i + 1;
        }
        proof {
            assert(vertex_lines(cv.vertices, cv.vertices.len() as int) =~= Seq::<char>::empty());
            assert(done + Seq::<char>::empty() =~= done);
            assert(done =~= vertex_lines(cv.vertices, 0));
        }
        let ghost vdone = done;
        let ghost mut edone: Seq<char> = Seq::empty();
        let mut j: usize = 0;
        while j < cfg.edges.len()
            invariant
                0 <= j <= cv.edges.len(),
                self.content@ == old(self).content@ + vdone + edone,
                edge_lines(cv.edges, 0) == edone + edge_lines(cv.edges, j as int),
            decreases cv.edges.len() - j,
        {
            self.content.append("  ");
            append_dec(&mut self.content, cfg.edges[j].0);
            self.content.append(" -> ");
            append_dec(&mut self.content, cfg.edges[j].1);
            self.content.append(";\n");
            proof {
                edone = edone + edge_line(cv.edges[j as int]);
                assert(self.content@ =~= old(self).content@ + vdone + edone);
                assert(edge_lines(cv.edges, 0) =~= edone + edge_lines(cv.edges, j + 1));
            }
            j = j + 1;
        }
        proof {
            assert(edge_lines(cv.edges, cv.edges.len() as int) =~= Seq::<char>::empty());
            assert(edone + Seq::<char>::empty() =~= edone);
            assert(self.content@ =~= old(self).content@ + (vdone + edone));
        }
    }

    /// Draw the data links as dotted labeled edges.
    #[verifier::loop_isolation(false)]
    pub fn add_links(&mut self, links: &Vec<DataLink>)
        ensures
            final(self).content@ == old(self).content@ + link_lines(links.deep_view(), 0),
    {
        let ghost lv = links.deep_view();
        let ghost mut done: Seq<char> = Seq::empty();
        proof {
            assert(self.content@ =~= old(self).content@ + done);
        }
        let mut i: usize = 0;
        while i < links.len()
            invariant
                0 <= i <= lv.len(),
                self.content@ == old(self).content@ + done,
                link_lines(lv, 0) == done + link_lines(lv, i as int),
            decreases lv.len() - i,
        {
            let l = &links[i];
            self.content.append("  ");
            append_dec(&mut self.content, l.from.1);
            self.content.append(" -> ");
            append_dec(&mut self.content, l.to.1);
            self.content.append("[label=\"");
            let esc = dot_escape_exec(l.var.source.as_str());
            self.content.append(esc.as_str());
            self.content.append("\", style=dotted];\n");
            proof {
                done = done + link_line(lv[i as int]);
                assert(self.content@ =~= old(self).content@ + done);
                assert(link_lines(lv, 0) =~= done + link_lines(lv, i + 1));
            }
            i = i + 1;
        }
        proof {
            assert(link_lines(lv, lv.len() as int) =~= Seq::<char>::empty());
            assert(self.content@ =~= old(self).content@ + (done + Seq::<char>::empty()));
        }
    }

    /// The whole drawing as a DOT digraph.
    pub fn format(&self) -> (r: String)
        ensures
            r@ == "digraph {\n"@ + self.content@ + "}\n"@,
    {
        let mut out = String::from_str("digraph {\n");
        out.append(self.content.as_str());
        out.append("}\n");
        out
    }
}

} // verus!

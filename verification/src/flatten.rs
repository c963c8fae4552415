use vstd::prelude::*;

use crate::ast::{find_node, lookup_node, AstNode, NodeKind, NodeModel};
use crate::dict::{spec_library_by_kind, spec_states_by_contract_id, spec_struct_by_name};
use crate::dict::{spec_contract_by_name, spec_functions_by_contract_id, Dictionary};
use crate::kind::{spec_is_mapping, spec_parse_array, spec_parse_conversion, spec_parse_mapping};
use crate::kind::spec_parse_prefixed;
use crate::variable::{Member, MemberModel, wildcard_seg};

verus! {

/// How deep the recursive expansion of a compound type may go.  A contract
/// holding a field of its own type would otherwise loop; at the cap the
/// remaining kind is taken as a leaf.
pub const FLATTEN_DEPTH: usize = 32;

/// One leaf of the expansion of a compound type: a member path, its textual
/// segments and the kind of the reached location.
#[derive(Debug, Clone, PartialEq, Eq)]
pub struct Flat {
    pub members: Vec<Member>,
    pub attributes: Vec<String>,
    pub kind: String,
}

/// Mathematical value of a `Flat`.
#[verifier::ext_equal]
pub struct FlatModel {
    pub members: Seq<MemberModel>,
    pub attributes: Seq<Seq<char>>,
    pub kind: Seq<char>,
}

impl DeepView for Flat {
    type V = FlatModel;

    open spec fn deep_view(&self) -> FlatModel {
        FlatModel {
            members: self.members.deep_view(),
            attributes: self.attributes.deep_view(),
            kind: self.kind@,
        }
    }
}

/// The type string of a node, empty when absent.
pub open spec fn kind_string(n: NodeModel) -> Seq<char> {
    match n.type_str {
        Some(t) => t,
        None => Seq::empty(),
    }
}

/// The name of a node, empty when absent.
pub open spec fn name_string(n: NodeModel) -> Seq<char> {
    match n.name {
        Some(t) => t,
        None => Seq::empty(),
    }
}

/// `n` subscript steps.
pub open spec fn index_members(n: nat) -> Seq<MemberModel> {
    Seq::new(n, |i: int| MemberModel::IndexAccess)
}

/// `n` subscript segments.
pub open spec fn dollar_segs(n: nat) -> Seq<Seq<char>> {
    Seq::new(n, |i: int| wildcard_seg())
}

/// `n` textual `[]` pairs.
pub open spec fn brackets_repeated(n: nat) -> Seq<char>
    decreases n,
{
    if n == 0 {
        Seq::empty()
    } else {
        brackets_repeated((n - 1) as nat) + seq!['[', ']']
    }
}

/// The members of a built-in namespace, as (name, kind) pairs; `None` for a
/// kind that is no namespace.
pub open spec fn builtin_members(kind: Seq<char>) -> Option<Seq<(Seq<char>, Seq<char>)>> {
    if kind == "block"@ {
        Some(
            seq![
                ("blockhash"@, "bytes32"@),
                ("coinbase"@, "address"@),
                ("difficulty"@, "uint256"@),
                ("gaslimit"@, "uint256"@),
                ("number"@, "uint256"@),
                ("timestamp"@, "uint256"@),
            ],
        )
    } else if kind == "msg"@ {
        Some(
            seq![
                ("data"@, "bytes"@),
                ("gas"@, "uint256"@),
                ("sender"@, "address"@),
                ("sig"@, "bytes4"@),
                ("value"@, "uint256"@),
            ],
        )
    } else if kind == "tx"@ {
        Some(seq![("gasprice"@, "uint256"@), ("origin"@, "address"@)])
    } else if kind == "abi"@ {
        Some(
            seq![
                ("encode"@, "bytes"@),
                ("encodePacked"@, "bytes"@),
                ("encodeWithSelector"@, "bytes"@),
                ("encodeWithSignature"@, "bytes"@),
            ],
        )
    } else if kind == "address"@ {
        Some(
            seq![
                ("balance"@, "uint256"@),
                ("transfer"@, "void"@),
                ("send"@, "bool"@),
                ("call"@, "bool"@),
                ("callcode"@, "bool"@),
                ("delegatecall"@, "bool"@),
            ],
        )
    } else {
        None
    }
}

/// The flats that the expansion of `kind` produces, starting from the given
/// member path and segments.  Cases are tried in order: struct, mapping,
/// contract, array, conversion, built-in namespace, library, leaf.
pub open spec fn flats_of(
    d: crate::dict::DictModel,
    kind: Seq<char>,
    members: Seq<MemberModel>,
    attrs: Seq<Seq<char>>,
    depth: nat,
) -> Seq<FlatModel>
    decreases depth, 0int, 0int,
{
    if depth == 0 {
        seq![FlatModel { members, attributes: attrs, kind }]
    } else if spec_parse_prefixed(kind, "struct "@) is Some {
        let p = spec_parse_prefixed(kind, "struct "@).unwrap();
        let m2 = members + index_members(p.1);
        let a2 = attrs + dollar_segs(p.1);
        match spec_struct_by_name(d, p.0) {
            None => Seq::empty(),
            Some(sid) => match find_node(d.nodes, sid) {
                None => Seq::empty(),
                Some(sn) => flats_of_fields(d, sn.children, 0, m2, a2, (depth - 1) as nat),
            },
        }
    } else if spec_is_mapping(kind) {
        let p = spec_parse_mapping(kind).unwrap();
        let m2 = members + index_members(p.1);
        let a2 = attrs + dollar_segs(p.1);
        flats_of(d, p.0, m2, a2, (depth - 1) as nat)
    } else if spec_parse_prefixed(kind, "contract "@) is Some {
        let p = spec_parse_prefixed(kind, "contract "@).unwrap();
        let m2 = members + index_members(p.1);
        let a2 = attrs + dollar_segs(p.1);
        match spec_contract_by_name(d, p.0) {
            None => Seq::empty(),
            Some(cid) => {
                let balance = flats_of(
                    d,
                    "uint"@,
                    m2 + seq![MemberModel::Global("balance"@)],
                    a2 + seq!["balance"@],
                    (depth - 1) as nat,
                );
                let states = flats_of_fields(
                    d,
                    spec_states_by_contract_id(d, cid),
                    0,
                    m2,
                    a2,
                    (depth - 1) as nat,
                );
                let functions = flats_of_functions(
                    d,
                    spec_functions_by_contract_id(d, cid),
                    0,
                    m2,
                    a2,
                    (depth - 1) as nat,
                );
                balance + states + functions
            },
        }
    } else if spec_parse_array(kind) is Some {
        let p = spec_parse_array(kind).unwrap();
        let element = flats_of(
            d,
            p.0 + brackets_repeated((p.1 - 1) as nat),
            members + seq![MemberModel::IndexAccess],
            attrs + seq![wildcard_seg()],
            (depth - 1) as nat,
        );
        let push = flats_of(
            d,
            "void"@,
            members + seq![MemberModel::Global("push"@)],
            attrs + seq!["push"@],
            (depth - 1) as nat,
        );
        element + push
    } else if spec_parse_conversion(kind) is Some {
        flats_of(d, spec_parse_conversion(kind).unwrap(), members, attrs, (depth - 1) as nat)
    } else if builtin_members(kind) is Some {
        flats_of_builtin(d, builtin_members(kind).unwrap(), 0, members, attrs, (depth - 1) as nat)
    } else {
        match spec_library_by_kind(d, kind) {
            Some(lid) => match find_node(d.nodes, lid) {
                Some(ln) => flats_of_library(d, ln.children, 0, members, attrs),
                None => seq![FlatModel { members, attributes: attrs, kind }],
            },
            None => seq![FlatModel { members, attributes: attrs, kind }],
        }
    }
}

/// The flats of the declarations `fields[i..]`: each field expands with its
/// own kind, appending its id and name to the path.
pub open spec fn flats_of_fields(
    d: crate::dict::DictModel,
    fields: Seq<u32>,
    i: int,
    members: Seq<MemberModel>,
    attrs: Seq<Seq<char>>,
    depth: nat,
) -> Seq<FlatModel>
    decreases depth, 1int, fields.len() - i,
{
    if i < 0 || i >= fields.len() {
        Seq::empty()
    } else {
        let head: Seq<FlatModel> = match find_node(d.nodes, fields[i]) {
            None => Seq::empty(),
            Some(f) => flats_of(
                d,
                kind_string(f),
                members + seq![MemberModel::Reference(f.id)],
                attrs + seq![name_string(f)],
                depth,
            ),
        };
        head + flats_of_fields(d, fields, i + 1, members, attrs, depth)
    }
}

/// The kind that a function expands to: the kind of its first return value,
/// or `void` when it returns nothing.
pub open spec fn function_return_kind(d: crate::dict::DictModel, f: NodeModel) -> Option<
    Seq<char>,
> {
    if f.children.len() < 2 {
        None
    } else {
        match find_node(d.nodes, f.children[1]) {
            None => None,
            Some(rp) => {
                if rp.children.len() == 0 {
                    Some("void"@)
                } else {
                    match find_node(d.nodes, rp.children[0]) {
                        Some(rv) => Some(kind_string(rv)),
                        None => Some("void"@),
                    }
                }
            },
        }
    }
}

/// The flats of the functions `ids[i..]`: each expands with the kind of its
/// first return value.
pub open spec fn flats_of_functions(
    d: crate::dict::DictModel,
    ids: Seq<u32>,
    i: int,
    members: Seq<MemberModel>,
    attrs: Seq<Seq<char>>,
    depth: nat,
) -> Seq<FlatModel>
    decreases depth, 1int, ids.len() - i,
{
    if i < 0 || i >= ids.len() {
        Seq::empty()
    } else {
        let head: Seq<FlatModel> = match find_node(d.nodes, ids[i]) {
            None => Seq::empty(),
            Some(f) => match function_return_kind(d, f) {
                None => Seq::empty(),
                Some(k) => flats_of(
                    d,
                    k,
                    members + seq![MemberModel::Reference(f.id)],
                    attrs + seq![name_string(f)],
                    depth,
                ),
            },
        };
        head + flats_of_functions(d, ids, i + 1, members, attrs, depth)
    }
}

/// The flats of the built-in members `list[i..]`.
pub open spec fn flats_of_builtin(
    d: crate::dict::DictModel,
    list: Seq<(Seq<char>, Seq<char>)>,
    i: int,
    members: Seq<MemberModel>,
    attrs: Seq<Seq<char>>,
    depth: nat,
) -> Seq<FlatModel>
    decreases depth, 1int, list.len() - i,
{
    if i < 0 || i >= list.len() {
        Seq::empty()
    } else {
        flats_of(
            d,
            list[i].1,
            members + seq![MemberModel::Global(list[i].0)],
            attrs + seq![list[i].0],
            depth,
        ) + flats_of_builtin(d, list, i + 1, members, attrs, depth)
    }
}

/// The flats of the members `ids[i..]` of a library: one flat per member,
/// carrying the kind of its first return value, without further expansion.
pub open spec fn flats_of_library(
    d: crate::dict::DictModel,
    ids: Seq<u32>,
    i: int,
    members: Seq<MemberModel>,
    attrs: Seq<Seq<char>>,
) -> Seq<FlatModel>
    decreases ids.len() - i,
{
    if i < 0 || i >= ids.len() {
        Seq::empty()
    } else {
        let head: Seq<FlatModel> = match find_node(d.nodes, ids[i]) {
            None => Seq::empty(),
            Some(f) => match function_return_kind(d, f) {
                None => Seq::empty(),
                Some(k) => seq![
                    FlatModel {
                        members: members + seq![MemberModel::Reference(f.id)],
                        attributes: attrs + seq![name_string(f)],
                        kind: k,
                    },
                ],
            },
        };
        head + flats_of_library(d, ids, i + 1, members, attrs)
    }
}

/// Extend a member path by one step.
fn with_member(base: &Vec<Member>, m: Member) -> (r: Vec<Member>)
    ensures
        r.deep_view() == base.deep_view() + seq![m.deep_view()],
{
    let mut r = crate::variable::dup_members(base);
    let ghost mv = m.deep_view();
    r.push(m);
    proof {
        assert(r.deep_view() =~~= base.deep_view() + seq![mv]);
    }
    r
}

/// Extend a segment path by one segment.
fn with_seg(base: &Vec<String>, s: String) -> (r: Vec<String>)
    ensures
        r.deep_view() == base.deep_view() + seq![s@],
{
    let mut r = crate::variable::dup_strings(base);
    let ghost sv = s@;
    r.push(s);
    proof {
        assert(r.deep_view() =~~= base.deep_view() + seq![sv]);
    }
    r
}

/// Extend a path by `n` subscript steps and segments.
#[verifier::loop_isolation(false)]
fn with_indexes(base_m: &Vec<Member>, base_a: &Vec<String>, n: usize) -> (r: (Vec<Member>, Vec<
    String,
>))
    ensures
        r.0.deep_view() == base_m.deep_view() + index_members(n as nat),
        r.1.deep_view() == base_a.deep_view() + dollar_segs(n as nat),
{
    proof {
        reveal_strlit("$");
    }
    let mut m = crate::variable::dup_members(base_m);
    let mut a = crate::variable::dup_strings(base_a);
    let mut i: usize = 0;
    while i < n
        invariant
            0 <= i <= n,
            m.deep_view() == base_m.deep_view() + index_members(i as nat),
            a.deep_view() == base_a.deep_view() + dollar_segs(i as nat),
        decreases n - i,
    {
        let ghost mpre = m.deep_view();
        let ghost apre = a.deep_view();
        m.push(Member::IndexAccess);
        a.push(String::from_str("$"));
        proof {
            assert("$"@ =~~= wildcard_seg());
            assert(m.deep_view() =~~= mpre.push(MemberModel::IndexAccess));
            assert(a.deep_view() =~~= apre.push(wildcard_seg()));
            assert(mpre.push(MemberModel::IndexAccess) =~~= base_m.deep_view() + index_members(
                (i + 1) as nat,
            ));
            assert(apre.push(wildcard_seg()) =~~= base_a.deep_view() + dollar_segs((i + 1) as nat));
        }
        i = i + 1;
    }
    (m, a)
}

/// Build `n` textual `[]` pairs.
#[verifier::loop_isolation(false)]
fn brackets_string(n: usize) -> (r: String)
    ensures
        r@ == brackets_repeated(n as nat),
{
    proof {
        reveal_strlit("[]");
    }
    let mut r = String::new();
    let mut i: usize = 0;
    while i < n
        invariant
            0 <= i <= n,
            r@ == brackets_repeated(i as nat),
        decreases n - i,
    {
        r.append("[]");
        proof {
            assert("[]"@ =~~= seq!['[', ']']);
        }
        i = i + 1;
    }
    r
}

/// The members of a built-in namespace: exec mirror of `builtin_members`.
fn builtin_members_exec(kind: &str) -> (r: Option<Vec<(String, String)>>)
    ensures
        match r {
            Some(v) => builtin_members(kind@) == Some(v.deep_view()),
            None => builtin_members(kind@) is None,
        },
{
    let mut v: Vec<(String, String)> = Vec::new();
    if crate::strutil::str_slice_eq(kind, "block") {
        v.push((String::from_str("blockhash"), String::from_str("bytes32")));
        v.push((String::from_str("coinbase"), String::from_str("address")));
        v.push((String::from_str("difficulty"), String::from_str("uint256")));
        v.push((String::from_str("gaslimit"), String::from_str("uint256")));
        v.push((String::from_str("number"), String::from_str("uint256")));
        v.push((String::from_str("timestamp"), String::from_str("uint256")));
        proof {
            assert(v.deep_view() =~~= builtin_members(kind@).unwrap());
        }
        Some(v)
    } else if crate::strutil::str_slice_eq(kind, "msg") {
        v.push((String::from_str("data"), String::from_str("bytes")));
        v.push((String::from_str("gas"), String::from_str("uint256")));
        v.push((String::from_str("sender"), String::from_str("address")));
        v.push((String::from_str("sig"), String::from_str("bytes4")));
        v.push((String::from_str("value"), String::from_str("uint256")));
        proof {
            assert(v.deep_view() =~~= builtin_members(kind@).unwrap());
        }
        Some(v)
    } else if crate::strutil::str_slice_eq(kind, "tx") {
        v.push((String::from_str("gasprice"), String::from_str("uint256")));
        v.push((String::from_str("origin"), String::from_str("address")));
        proof {
            assert(v.deep_view() =~~= builtin_members(kind@).unwrap());
        }
        Some(v)
    } else if crate::strutil::str_slice_eq(kind, "abi") {
        v.push((String::from_str("encode"), String::from_str("bytes")));
        v.push((String::from_str("encodePacked"), String::from_str("bytes")));
        v.push((String::from_str("encodeWithSelector"), String::from_str("bytes")));
        v.push((String::from_str("encodeWithSignature"), String::from_str("bytes")));
        proof {
            assert(v.deep_view() =~~= builtin_members(kind@).unwrap());
        }
        Some(v)
    } else if crate::strutil::str_slice_eq(kind, "address") {
        v.push((String::from_str("balance"), String::from_str("uint256")));
        v.push((String::from_str("transfer"), String::from_str("void")));
        v.push((String::from_str("send"), String::from_str("bool")));
        v.push((String::from_str("call"), String::from_str("bool")));
        v.push((String::from_str("callcode"), String::from_str("bool")));
        v.push((String::from_str("delegatecall"), String::from_str("bool")));
        proof {
            assert(v.deep_view() =~~= builtin_members(kind@).unwrap());
        }
        Some(v)
    } else {
        None
    }
}

/// The kind a function expands to: exec mirror of `function_return_kind`.
fn return_kind(d: &Dictionary, f: &AstNode) -> (r: Option<String>)
    ensures
        match r {
            Some(k) => function_return_kind(d.deep_view(), f.deep_view()) == Some(k@),
            None => function_return_kind(d.deep_view(), f.deep_view()) is None,
        },
{
    if f.children.len() < 2 {
        return None;
    }
    match lookup_node(&d.nodes, f.children[1]) {
        None => None,
        Some(rp) => {
            if rp.children.len() == 0 {
                Some(String::from_str("void"))
            } else {
                match lookup_node(&d.nodes, rp.children[0]) {
                    Some(rv) => Some(
                        match &rv.type_str {
                            Some(t) => t.clone(),
                            None => String::new(),
                        },
                    ),
                    None => Some(String::from_str("void")),
                }
            }
        },
    }
}

/// Expand `kind` and append the resulting flats: exec mirror of `flats_of`.
#[verifier::loop_isolation(false)]
fn update_flats(
    d: &Dictionary,
    kind: &str,
    members: &Vec<Member>,
    attrs: &Vec<String>,
    depth: usize,
    out: &mut Vec<Flat>,
)
    ensures
        final(out).deep_view() == old(out).deep_view() + flats_of(
            d.deep_view(),
            kind@,
            members.deep_view(),
            attrs.deep_view(),
            depth as nat,
        ),
    decreases depth, 0int,
{
    let ghost dv = d.deep_view();
    let ghost goal = flats_of(dv, kind@, members.deep_view(), attrs.deep_view(), depth as nat);
    if depth == 0 {
        out.push(
            Flat {
                members: crate::variable::dup_members(members),
                attributes: crate::variable::dup_strings(attrs),
                kind: String::from_str(kind),
            },
        );
        proof {
            assert(out.deep_view() =~~= old(out).deep_view() + goal);
        }
        return ;
    }
    if let Some((name, dim)) = parse_prefixed_struct(kind) {
        let ma = with_indexes(members, attrs, dim);
        match d.find_struct_by_name(name.as_str()) {
            None => {
                proof {
                    assert(out.deep_view() =~~= old(out).deep_view() + goal);
                }
            },
            Some(sid) => match d.lookup(sid) {
                None => {
                    proof {
                        assert(out.deep_view() =~~= old(out).deep_view() + goal);
                    }
                },
                Some(sn) => {
                    expand_fields(d, &sn.children, &ma.0, &ma.1, depth - 1, out);
                },
            },
        }
        return ;
    }
    if let Some((value, dim)) = crate::kind::parse_mapping(kind) {
        let ma = with_indexes(members, attrs, dim);
        update_flats(d, value.as_str(), &ma.0, &ma.1, depth - 1, out);
        return ;
    }
    if let Some((name, dim)) = parse_prefixed_contract(kind) {
        let ma = with_indexes(members, attrs, dim);
        match d.find_contract_by_name(name.as_str()) {
            None => {
                proof {
                    assert(out.deep_view() =~~= old(out).deep_view() + goal);
                }
            },
            Some(cid) => {
                let bm = with_member(&ma.0, Member::Global(String::from_str("balance")));
                let ba = with_seg(&ma.1, String::from_str("balance"));
                update_flats(d, "uint", &bm, &ba, depth - 1, out);
                let states = d.lookup_states_by_contract_id(cid);
                expand_fields(d, &states, &ma.0, &ma.1, depth - 1, out);
                let functions = d.lookup_functions_by_contract_id(cid);
                expand_functions(d, &functions, &ma.0, &ma.1, depth - 1, out);
                proof {
                    assert(out.deep_view() =~~= old(out).deep_view() + goal);
                }
            },
        }
        return ;
    }
    if let Some((base, dim)) = crate::kind::parse_array(kind) {
        let mut element_kind = base;
        element_kind.append(brackets_string(dim - 1).as_str());
        let em = with_member(members, Member::IndexAccess);
        let ea = with_seg(attrs, String::from_str("$"));
        proof {
            reveal_strlit("$");
            assert("$"@ =~~= wildcard_seg());
        }
        update_flats(d, element_kind.as_str(), &em, &ea, depth - 1, out);
        let pm = with_member(members, Member::Global(String::from_str("push")));
        let pa = with_seg(attrs, String::from_str("push"));
        update_flats(d, "void", &pm, &pa, depth - 1, out);
        proof {
            assert(out.deep_view() =~~= old(out).deep_view() + goal);
        }
        return ;
    }
    if let Some(inner) = crate::kind::parse_conversion(kind) {
        update_flats(d, inner.as_str(), members, attrs, depth - 1, out);
        return ;
    }
    if let Some(list) = builtin_members_exec(kind) {
        expand_builtin(d, &list, members, attrs, depth - 1, out);
        return ;
    }
    let lib = match d.find_library_by_kind(kind) {
        Some(lid) => d.lookup(lid),
        None => None,
    };
    match lib {
        Some(ln) => {
            expand_library(d, &ln.children, members, attrs, out);
        },
        None => {
            out.push(
                Flat {
                    members: crate::variable::dup_members(members),
                    attributes: crate::variable::dup_strings(attrs),
                    kind: String::from_str(kind),
                },
            );
            proof {
                assert(out.deep_view() =~~= old(out).deep_view() + goal);
            }
        },
    }
}

/// Parse a struct kind.
fn parse_prefixed_struct(s: &str) -> (r: Option<(String, usize)>)
    ensures
        match r {
            Some(p) => spec_parse_prefixed(s@, "struct "@) == Some((p.0@, p.1 as nat)),
            None => spec_parse_prefixed(s@, "struct "@) is None,
        },
{
    crate::kind::parse_prefixed(s, "struct ")
}

/// Parse a contract kind.
fn parse_prefixed_contract(s: &str) -> (r: Option<(String, usize)>)
    ensures
        match r {
            Some(p) => spec_parse_prefixed(s@, "contract "@) == Some((p.0@, p.1 as nat)),
            None => spec_parse_prefixed(s@, "contract "@) is None,
        },
{
    crate::kind::parse_prefixed(s, "contract ")
}

/// Expand each declaration in `fields`: exec mirror of `flats_of_fields`.
#[verifier::loop_isolation(false)]
fn expand_fields(
    d: &Dictionary,
    fields: &Vec<u32>,
    members: &Vec<Member>,
    attrs: &Vec<String>,
    depth: usize,
    out: &mut Vec<Flat>,
)
    ensures
        final(out).deep_view() == old(out).deep_view() + flats_of_fields(
            d.deep_view(),
            fields@,
            0,
            members.deep_view(),
            attrs.deep_view(),
            depth as nat,
        ),
    decreases depth, 1int,
{
    let ghost dv = d.deep_view();
    let ghost mv = members.deep_view();
    let ghost av = attrs.deep_view();
    let ghost mut done: Seq<FlatModel> = Seq::empty();
    let mut i: usize = 0;
    while i < fields.len()
        invariant
            0 <= i <= fields@.len(),
            out.deep_view() == old(out).deep_view() + done,
            flats_of_fields(dv, fields@, 0, mv, av, depth as nat) == done + flats_of_fields(
                dv,
                fields@,
                i as int,
                mv,
                av,
                depth as nat,
            ),
        decreases fields@.len() - i,
    {
        match lookup_node(&d.nodes, fields[i]) {
            None => {},
            Some(f) => {
                let fm = with_member(members, Member::Reference(f.id));
                let fa = with_seg(
                    attrs,
                    match &f.name {
                        Some(nm) => nm.clone(),
                        None => String::new(),
                    },
                );
                let fk = match &f.type_str {
                    Some(t) => t.clone(),
                    None => String::new(),
                };
                update_flats(d, fk.as_str(), &fm, &fa, depth, out);
            },
        }
        proof {
            let step: Seq<FlatModel> = match find_node(dv.nodes, fields@[i as int]) {
                None => Seq::empty(),
                Some(f) => flats_of(
                    dv,
                    kind_string(f),
                    mv + seq![MemberModel::Reference(f.id)],
                    av + seq![name_string(f)],
                    depth as nat,
                ),
            };
            done = done + step;
            assert(out.deep_view() =~~= old(out).deep_view() + done);
            assert(flats_of_fields(dv, fields@, 0, mv, av, depth as nat) =~~= done
                + flats_of_fields(dv, fields@, i + 1, mv, av, depth as nat));
        }
        i = i + 1;
    }
    proof {
        assert(flats_of_fields(dv, fields@, fields@.len() as int, mv, av, depth as nat) =~~= Seq::<
            FlatModel,
        >::empty());
        assert(out.deep_view() =~~= old(out).deep_view() + (done + Seq::<FlatModel>::empty()));
    }
}

/// Expand each function in `ids`: exec mirror of `flats_of_functions`.
#[verifier::loop_isolation(false)]
fn expand_functions(
    d: &Dictionary,
    ids: &Vec<u32>,
    members: &Vec<Member>,
    attrs: &Vec<String>,
    depth: usize,
    out: &mut Vec<Flat>,
)
    ensures
        final(out).deep_view() == old(out).deep_view() + flats_of_functions(
            d.deep_view(),
            ids@,
            0,
            members.deep_view(),
            attrs.deep_view(),
            depth as nat,
        ),
    decreases depth, 1int,
{
    let ghost dv = d.deep_view();
    let ghost mv = members.deep_view();
    let ghost av = attrs.deep_view();
    let ghost mut done: Seq<FlatModel> = Seq::empty();
    let mut i: usize = 0;
    while i < ids.len()
        invariant
            0 <= i <= ids@.len(),
            out.deep_view() == old(out).deep_view() + done,
            flats_of_functions(dv, ids@, 0, mv, av, depth as nat) == done + flats_of_functions(
                dv,
                ids@,
                i as int,
                mv,
                av,
                depth as nat,
            ),
        decreases ids@.len() - i,
    {
        match lookup_node(&d.nodes, ids[i]) {
            None => {},
            Some(f) => {
                match return_kind(d, f) {
                    None => {},
                    Some(k) => {
                        let fm = with_member(members, Member::Reference(f.id));
                        let fa = with_seg(
                            attrs,
                            match &f.name {
                                Some(nm) => nm.clone(),
                                None => String::new(),
                            },
                        );
                        update_flats(d, k.as_str(), &fm, &fa, depth, out);
                    },
                }
            },
        }
        proof {
            let step: Seq<FlatModel> = match find_node(dv.nodes, ids@[i as int]) {
                None => Seq::empty(),
                Some(f) => match function_return_kind(dv, f) {
                    None => Seq::empty(),
                    Some(k) => flats_of(
                        dv,
                        k,
                        mv + seq![MemberModel::Reference(f.id)],
                        av + seq![name_string(f)],
                        depth as nat,
                    ),
                },
            };
            done = done + step;
            assert(out.deep_view() =~~= old(out).deep_view() + done);
            assert(flats_of_functions(dv, ids@, 0, mv, av, depth as nat) =~~= done
                + flats_of_functions(dv, ids@, i + 1, mv, av, depth as nat));
        }
        i = i + 1;
    }
    proof {
        assert(flats_of_functions(dv, ids@, ids@.len() as int, mv, av, depth as nat) =~~= Seq::<
            FlatModel,
        >::empty());
        assert(out.deep_view() =~~= old(out).deep_view() + (done + Seq::<FlatModel>::empty()));
    }
}

/// Expand each built-in member: exec mirror of `flats_of_builtin`.
#[verifier::loop_isolation(false)]
fn expand_builtin(
    d: &Dictionary,
    list: &Vec<(String, String)>,
    members: &Vec<Member>,
    attrs: &Vec<String>,
    depth: usize,
    out: &mut Vec<Flat>,
)
    ensures
        final(out).deep_view() == old(out).deep_view() + flats_of_builtin(
            d.deep_view(),
            list.deep_view(),
            0,
            members.deep_view(),
            attrs.deep_view(),
            depth as nat,
        ),
    decreases depth, 1int,
{
    let ghost dv = d.deep_view();
    let ghost lv = list.deep_view();
    let ghost mv = members.deep_view();
    let ghost av = attrs.deep_view();
    let ghost mut done: Seq<FlatModel> = Seq::empty();
    let mut i: usize = 0;
    while i < list.len()
        invariant
            0 <= i <= lv.len(),
            lv.len() == list@.len(),
            out.deep_view() == old(out).deep_view() + done,
            flats_of_builtin(dv, lv, 0, mv, av, depth as nat) == done + flats_of_builtin(
                dv,
                lv,
                i as int,
                mv,
                av,
                depth as nat,
            ),
        decreases lv.len() - i,
    {
        proof {
            assert(lv[i as int] == (list@[i as int].0@, list@[i as int].1@));
        }
        let nm = with_member(members, Member::Global(list[i].0.clone()));
        let na = with_seg(attrs, list[i].0.clone());
        update_flats(d, list[i].1.as_str(), &nm, &na, depth, out);
        proof {
            let step = flats_of(
                dv,
                lv[i as int].1,
                mv + seq![MemberModel::Global(lv[i as int].0)],
                av + seq![lv[i as int].0],
                depth as nat,
            );
            done = done + step;
            assert(out.deep_view() =~~= old(out).deep_view() + done);
            assert(flats_of_builtin(dv, lv, 0, mv, av, depth as nat) =~~= done + flats_of_builtin(
                dv,
                lv,
                i + 1,
                mv,
                av,
                depth as nat,
            ));
        }
        i = i + 1;
    }
    proof {
        assert(flats_of_builtin(dv, lv, lv.len() as int, mv, av, depth as nat) =~~= Seq::<
            FlatModel,
        >::empty());
        assert(out.deep_view() =~~= old(out).deep_view() + (done + Seq::<FlatModel>::empty()));
    }
}

/// Emit one flat per library member: exec mirror of `flats_of_library`.
#[verifier::loop_isolation(false)]
fn expand_library(
    d: &Dictionary,
    ids: &Vec<u32>,
    members: &Vec<Member>,
    attrs: &Vec<String>,
    out: &mut Vec<Flat>,
)
    ensures
        final(out).deep_view() == old(out).deep_view() + flats_of_library(
            d.deep_view(),
            ids@,
            0,
            members.deep_view(),
            attrs.deep_view(),
        ),
{
    let ghost dv = d.deep_view();
    let ghost mv = members.deep_view();
    let ghost av = attrs.deep_view();
    let ghost mut done: Seq<FlatModel> = Seq::empty();
    let mut i: usize = 0;
    while i < ids.len()
        invariant
            0 <= i <= ids@.len(),
            out.deep_view() == old(out).deep_view() + done,
            flats_of_library(dv, ids@, 0, mv, av) == done + flats_of_library(
                dv,
                ids@,
                i as int,
                mv,
                av,
            ),
        decreases ids@.len() - i,
    {
        match lookup_node(&d.nodes, ids[i]) {
            None => {},
            Some(f) => {
                match return_kind(d, f) {
                    None => {},
                    Some(k) => {
                        let fm = with_member(members, Member::Reference(f.id));
                        let fa = with_seg(
                            attrs,
                            match &f.name {
                                Some(nm) => nm.clone(),
                                None => String::new(),
                            },
                        );
                        let ghost pre_out = out.deep_view();
                        let ghost fv = FlatModel {
                            members: fm.deep_view(),
                            attributes: fa.deep_view(),
                            kind: k@,
                        };
                        out.push(Flat { members: fm, attributes: fa, kind: k });
                        proof {
                            assert(out.deep_view() =~~= pre_out + seq![fv]);
                        }
                    },
                }
            },
        }
        proof {
            let step: Seq<FlatModel> = match find_node(dv.nodes, ids@[i as int]) {
                None => Seq::empty(),
                Some(f) => match function_return_kind(dv, f) {
                    None => Seq::empty(),
                    Some(k) => seq![
                        FlatModel {
                            members: mv + seq![MemberModel::Reference(f.id)],
                            attributes: av + seq![name_string(f)],
                            kind: k,
                        },
                    ],
                },
            };
            done = done + step;
            assert(out.deep_view() =~~= old(out).deep_view() + done);
            assert(flats_of_library(dv, ids@, 0, mv, av) =~~= done + flats_of_library(
                dv,
                ids@,
                i + 1,
                mv,
                av,
            ));
        }
        i = i + 1;
    }
    proof {
        assert(flats_of_library(dv, ids@, ids@.len() as int, mv, av) =~~= Seq::<FlatModel>::empty());
        assert(out.deep_view() =~~= old(out).deep_view() + (done + Seq::<FlatModel>::empty()));
    }
}

/// The root of an access chain: follow first children through subscripts,
/// member accesses and calls until a plain node is reached.
pub open spec fn spec_find_root(nodes: Seq<NodeModel>, id: u32, fuel: nat) -> Option<NodeModel>
    decreases fuel,
{
    match find_node(nodes, id) {
        None => None,
        Some(n) => {
            if (n.kind == NodeKind::IndexAccess || n.kind == NodeKind::MemberAccess || n.kind
                == NodeKind::FunctionCall) && n.children.len() > 0 && fuel > 0 {
                spec_find_root(nodes, n.children[0], (fuel - 1) as nat)
            } else {
                Some(n)
            }
        },
    }
}

/// Exec mirror of `spec_find_root`.
fn find_root<'a>(nodes: &'a Vec<AstNode>, id: u32, fuel: usize) -> (r: Option<&'a AstNode>)
    ensures
        match r {
            Some(n) => spec_find_root(nodes.deep_view(), id, fuel as nat) == Some(n.deep_view()),
            None => spec_find_root(nodes.deep_view(), id, fuel as nat) is None,
        },
    decreases fuel,
{
    match lookup_node(nodes, id) {
        None => None,
        Some(n) => {
            if (n.kind == NodeKind::IndexAccess || n.kind == NodeKind::MemberAccess || n.kind
                == NodeKind::FunctionCall) && n.children.len() > 0 && fuel > 0 {
                find_root(nodes, n.children[0], fuel - 1)
            } else {
                Some(n)
            }
        },
    }
}

/// The textual segment a node contributes to the focused path, if any.
pub open spec fn segment_of(n: NodeModel) -> Option<Seq<char>> {
    match n.kind {
        NodeKind::IndexAccess => Some(wildcard_seg()),
        NodeKind::MemberAccess => Some(
            match n.member_name {
                Some(m) => m,
                None => Seq::empty(),
            },
        ),
        NodeKind::Identifier => Some(
            match n.value {
                Some(v) => v,
                None => Seq::empty(),
            },
        ),
        NodeKind::VariableDeclaration => Some(name_string(n)),
        NodeKind::FunctionCall => {
            if n.type_conversion {
                Some(kind_string(n))
            } else {
                None
            }
        },
        _ => None,
    }
}

/// The focused path of the expression rooted at `id`: the segments of the
/// first-child chain, the deepest node's segment first.
pub open spec fn focus_path(nodes: Seq<NodeModel>, id: u32, fuel: nat) -> Seq<Seq<char>>
    decreases fuel,
{
    match find_node(nodes, id) {
        None => Seq::empty(),
        Some(n) => {
            let rest: Seq<Seq<char>> = if n.children.len() > 0 && fuel > 0 {
                focus_path(nodes, n.children[0], (fuel - 1) as nat)
            } else {
                Seq::empty()
            };
            match segment_of(n) {
                Some(sv) => rest + seq![sv],
                None => rest,
            }
        },
    }
}

/// Append the focused path of `id` to `out`: exec mirror of `focus_path`.
fn collect_focus(nodes: &Vec<AstNode>, id: u32, fuel: usize, out: &mut Vec<String>)
    ensures
        final(out).deep_view() == old(out).deep_view() + focus_path(
            nodes.deep_view(),
            id,
            fuel as nat,
        ),
    decreases fuel,
{
    proof {
        assert(out.deep_view() =~~= out.deep_view() + Seq::<Seq<char>>::empty());
    }
    let n = match lookup_node(nodes, id) {
        None => {
            return ;
        },
        Some(n) => n,
    };
    if n.children.len() > 0 && fuel > 0 {
        collect_focus(nodes, n.children[0], fuel - 1, out);
    }
    let ghost pre = out.deep_view();
    match n.kind {
        NodeKind::IndexAccess => {
            proof {
                reveal_strlit("$");
            }
            out.push(String::from_str("$"));
            proof {
                assert("$"@ =~~= wildcard_seg());
            }
        },
        NodeKind::MemberAccess => {
            out.push(
                match &n.member_name {
                    Some(m) => m.clone(),
                    None => String::new(),
                },
            );
        },
        NodeKind::Identifier => {
            out.push(
                match &n.value {
                    Some(v) => v.clone(),
                    None => String::new(),
                },
            );
        },
        NodeKind::VariableDeclaration => {
            out.push(
                match &n.name {
                    Some(m) => m.clone(),
                    None => String::new(),
                },
            );
        },
        NodeKind::FunctionCall => {
            if n.type_conversion {
                out.push(
                    match &n.type_str {
                        Some(t) => t.clone(),
                        None => String::new(),
                    },
                );
            }
        },
        _ => {},
    }
    proof {
        match segment_of(n.deep_view()) {
            Some(sv) => {
                assert(out.deep_view() =~~= pre + seq![sv]);
            },
            None => {
                assert(out.deep_view() =~~= pre);
            },
        }
        assert(out.deep_view() =~~= old(out).deep_view() + focus_path(
            nodes.deep_view(),
            id,
            fuel as nat,
        ));
    }
}

/// The attribute naming the root of an access chain: its value, or else its
/// name.
pub open spec fn root_attribute(n: NodeModel) -> Option<Seq<char>> {
    match n.value {
        Some(v) => Some(v),
        None => n.name,
    }
}

/// The flats and the focused path of the expression rooted at `id`.  An
/// expression whose root carries neither a value nor a name yields no flats.
pub open spec fn spec_flat_variable(d: crate::dict::DictModel, id: u32) -> (
    Seq<FlatModel>,
    Seq<Seq<char>>,
) {
    let focus = focus_path(d.nodes, id, d.nodes.len());
    match spec_find_root(d.nodes, id, d.nodes.len()) {
        None => (Seq::empty(), focus),
        Some(rn) => match root_attribute(rn) {
            None => (Seq::empty(), focus),
            Some(attr) => {
                let members0: Seq<MemberModel> = if rn.kind == NodeKind::VariableDeclaration {
                    seq![MemberModel::Reference(rn.id)]
                } else {
                    match rn.referenced_declaration {
                        Some(dd) => if find_node(d.nodes, dd) is Some {
                            seq![MemberModel::Reference(dd)]
                        } else {
                            seq![MemberModel::Global(attr)]
                        },
                        None => seq![MemberModel::Global(attr)],
                    }
                };
                (flats_of(d, kind_string(rn), members0, seq![attr], FLATTEN_DEPTH as nat), focus)
            },
        },
    }
}

/// Expands one AST expression into the set of flat variables it may denote.
/// `flats` holds every leaf of the expansion of the root's type; `attributes`
/// is the focused path that the expression actually accessed.
#[derive(Debug)]
pub struct FlatVariable {
    pub flats: Vec<Flat>,
    pub attributes: Vec<String>,
}

impl FlatVariable {
    /// Expand the expression rooted at `id`.
    pub fn new(dict: &Dictionary, id: u32) -> (r: FlatVariable)
        ensures
            r.flats.deep_view() == spec_flat_variable(dict.deep_view(), id).0,
            r.attributes.deep_view() == spec_flat_variable(dict.deep_view(), id).1,
    {
        let mut fv = FlatVariable { flats: Vec::new(), attributes: Vec::new() };
        proof {
            assert(fv.flats.deep_view() =~~= Seq::<FlatModel>::empty());
            assert(fv.attributes.deep_view() =~~= Seq::<Seq<char>>::empty());
        }
        match find_root(&dict.nodes, id, dict.nodes.len()) {
            None => {},
            Some(root) => {
                let attr: Option<String> = match (&root.value, &root.name) {
                    (Some(v), _) => Some(v.clone()),
                    (None, Some(m)) => Some(m.clone()),
                    (None, None) => None,
                };
                match attr {
                    None => {},
                    Some(attribute) => {
                        let mut members0: Vec<Member> = Vec::new();
                        if root.kind == NodeKind::VariableDeclaration {
                            members0.push(Member::Reference(root.id));
                        } else {
                            let mut resolved = false;
                            match root.referenced_declaration {
                                Some(dd) => {
                                    if lookup_node(&dict.nodes, dd).is_some() {
                                        members0.push(Member::Reference(dd));
                                        resolved = true;
                                    }
                                },
                                None => {},
                            }
                            if !resolved {
                                members0.push(Member::Global(attribute.clone()));
                            }
                        }
                        let mut attrs0: Vec<String> = Vec::new();
                        attrs0.push(attribute);
                        let kind = match &root.type_str {
                            Some(t) => t.clone(),
                            None => String::new(),
                        };
                        proof {
                            let sm = spec_flat_variable(dict.deep_view(), id);
                            assert(attrs0.deep_view() =~~= seq![root_attribute(
                                root.deep_view(),
                            ).unwrap()]);
                            assert(members0.deep_view() =~~= (
                            if root.deep_view().kind == NodeKind::VariableDeclaration {
                                seq![MemberModel::Reference(root.deep_view().id)]
                            } else {
                                match root.deep_view().referenced_declaration {
                                    Some(dd) => if find_node(dict.deep_view().nodes, dd) is Some {
                                        seq![MemberModel::Reference(dd)]
                                    } else {
                                        seq![
                                            MemberModel::Global(
                                                root_attribute(root.deep_view()).unwrap(),
                                            ),
                                        ]
                                    },
                                    None => seq![
                                        MemberModel::Global(
                                            root_attribute(root.deep_view()).unwrap(),
                                        ),
                                    ],
                                }
                            }));
                        }
                        update_flats(
                            dict,
                            kind.as_str(),
                            &members0,
                            &attrs0,
                            FLATTEN_DEPTH,
                            &mut fv.flats,
                        );
                        proof {
                            assert(fv.flats.deep_view() =~~= spec_flat_variable(
                                dict.deep_view(),
                                id,
                            ).0);
                        }
                    },
                }
            },
        }
        fv.update_attributes(dict, id);
        proof {
            assert(fv.attributes.deep_view() =~~= spec_flat_variable(dict.deep_view(), id).1);
        }
        fv
    }

    /// Prepend the focused path of the expression rooted at `id` to the
    /// recorded attributes.
    #[verifier::loop_isolation(false)]
    pub fn update_attributes(&mut self, dict: &Dictionary, id: u32)
        ensures
            final(self).flats.deep_view() == old(self).flats.deep_view(),
            final(self).attributes.deep_view() == focus_path(
                dict.deep_view().nodes,
                id,
                dict.nodes@.len(),
            ) + old(self).attributes.deep_view(),
    {
        let mut fresh: Vec<String> = Vec::new();
        proof {
            assert(fresh.deep_view() =~~= Seq::<Seq<char>>::empty());
        }
        collect_focus(&dict.nodes, id, dict.nodes.len(), &mut fresh);
        let ghost fpath = fresh.deep_view();
        let mut i: usize = 0;
        while i < self.attributes.len()
            invariant
                0 <= i <= self.attributes@.len(),
                self.flats == old(self).flats,
                self.attributes == old(self).attributes,
                fresh.deep_view() == fpath + self.attributes.deep_view().take(i as int),
            decreases self.attributes@.len() - i,
        {
            let ghost fpre = fresh.deep_view();
            let elem = self.attributes[i].clone();
            let ghost ev = elem@;
            fresh.push(elem);
            proof {
                assert(ev == self.attributes.deep_view()[i as int]);
                assert(fresh.deep_view() =~~= fpre + seq![ev]);
                assert(fresh.deep_view() =~~= fpath + self.attributes.deep_view().take(i + 1));
            }
            i = i + 1;
        }
        proof {
            assert(fpath + self.attributes.deep_view().take(self.attributes@.len() as int) =~~=
            fpath + self.attributes.deep_view());
            assert(fpath =~~= Seq::<Seq<char>>::empty() + focus_path(
                dict.deep_view().nodes,
                id,
                dict.nodes@.len(),
            ));
        }
        self.attributes = fresh;
    }
}

/// Whether a flat's segments are selected by the focused path: they are the
/// path itself or extend it by further segments.
pub open spec fn focus_selects(attrs: Seq<Seq<char>>, focus: Seq<Seq<char>>) -> bool {
    attrs == focus || (attrs.len() > focus.len() && attrs.subrange(0, focus.len() as int) == focus)
}

/// The variables made from the selected flats `flats[i..]`, in order, with
/// duplicates kept.
pub open spec fn filtered_from(
    flats: Seq<FlatModel>,
    focus: Seq<Seq<char>>,
    i: int,
) -> Seq<crate::variable::VariableModel>
    decreases flats.len() - i,
{
    if i < 0 || i >= flats.len() {
        Seq::empty()
    } else {
        let rest = filtered_from(flats, focus, i + 1);
        if focus_selects(flats[i].attributes, focus) {
            seq![variable_of(flats[i], focus)] + rest
        } else {
            rest
        }
    }
}

/// The variable a selected flat denotes: the flat's path and kind, with the
/// focused path joined as the source text.
pub open spec fn variable_of(flat: FlatModel, focus: Seq<Seq<char>>) -> crate::variable::VariableModel {
    crate::variable::VariableModel {
        members: flat.members,
        attributes: flat.attributes,
        kind: flat.kind,
        source: crate::strutil::join_dotted(focus),
    }
}

/// What `get_variables` returns: the selected flats as variables, first
/// occurrences kept.
pub open spec fn spec_get_variables(flats: Seq<FlatModel>, focus: Seq<Seq<char>>) -> Seq<
    crate::variable::VariableModel,
> {
    crate::vecset::extend_unique(Seq::empty(), filtered_from(flats, focus, 0))
}

/// Exec mirror of `focus_selects`.
#[verifier::loop_isolation(false)]
fn focus_selects_exec(attrs: &Vec<String>, focus: &Vec<String>) -> (r: bool)
    ensures
        r <==> focus_selects(attrs.deep_view(), focus.deep_view()),
{
    if crate::variable::strings_eq(attrs, focus) {
        return true;
    }
    if attrs.len() <= focus.len() {
        return false;
    }
    let mut j: usize = 0;
    while j < focus.len()
        invariant
            0 <= j <= focus@.len(),
            focus@.len() < attrs@.len(),
            forall|k: int| 0 <= k < j ==> attrs.deep_view()[k] == focus.deep_view()[k],
        decreases focus@.len() - j,
    {
        if !crate::variable::str_eq(&attrs[j], &focus[j]) {
            proof {
                assert(attrs.deep_view()[j as int] != focus.deep_view()[j as int]);
                assert(attrs.deep_view().subrange(0, focus.deep_view().len() as int)[j as int]
                    == attrs.deep_view()[j as int]);
            }
            return false;
        }
        j = j + 1;
    }
    proof {
        assert(attrs.deep_view().subrange(0, focus.deep_view().len() as int) =~~=
        focus.deep_view());
    }
    true
}

impl FlatVariable {
    /// The variables that the focused path selects among the flats: those
    /// whose segments equal the path or extend it.
    #[verifier::loop_isolation(false)]
    pub fn get_variables(&self) -> (r: Vec<crate::variable::Variable>)
        ensures
            r.deep_view() == spec_get_variables(self.flats.deep_view(), self.attributes.deep_view()),
    {
        let source = crate::strutil::join_dotted_exec(&self.attributes);
        let mut r: Vec<crate::variable::Variable> = Vec::new();
        let ghost fv = self.flats.deep_view();
        let ghost focus = self.attributes.deep_view();
        let ghost mut done: Seq<crate::variable::VariableModel> = Seq::empty();
        proof {
            assert(r.deep_view() =~~= Seq::<crate::variable::VariableModel>::empty());
        }
        let mut i: usize = 0;
        while i < self.flats.len()
            invariant
                0 <= i <= self.flats@.len(),
                r.deep_view() == crate::vecset::extend_unique(
                    Seq::<crate::variable::VariableModel>::empty(),
                    done,
                ),
                filtered_from(fv, focus, 0) == done + filtered_from(fv, focus, i as int),
            decreases self.flats@.len() - i,
        {
            let flat = &self.flats[i];
            if focus_selects_exec(&flat.attributes, &self.attributes) {
                let v = crate::variable::Variable {
                    members: crate::variable::dup_members(&flat.members),
                    attributes: crate::variable::dup_strings(&flat.attributes),
                    kind: flat.kind.clone(),
                    source: source.clone(),
                };
                proof {
                    assert(v.deep_view() =~~= variable_of(fv[i as int], focus));
                }
                crate::variable::vars_insert_unique(&mut r, v);
                proof {
                    crate::vecset::lemma_extend_unique_snoc(
                        Seq::<crate::variable::VariableModel>::empty(),
                        done,
                        variable_of(fv[i as int], focus),
                    );
                    done = done.push(variable_of(fv[i as int], focus));
                    assert(seq![variable_of(fv[i as int], focus)] + filtered_from(fv, focus, i + 1)
                        =~~= seq![variable_of(fv[i as int], focus)] + filtered_from(
                        fv,
                        focus,
                        i + 1,
                    ));
                    assert(filtered_from(fv, focus, 0) =~~= done + filtered_from(fv, focus, i + 1));
                }
            } else {
                proof {
                    assert(filtered_from(fv, focus, 0) =~~= done + filtered_from(fv, focus, i + 1));
                }
            }
            i = i + 1;
        }
        proof {
            assert(filtered_from(fv, focus, fv.len() as int) =~~= Seq::<
                crate::variable::VariableModel,
            >::empty());
            assert(done + Seq::<crate::variable::VariableModel>::empty() =~~= done);
        }
        r
    }
}

/// The variables an expression reads or writes, collected over its access
/// chains, in order and with duplicates kept: an access chain contributes the
/// variables its focused path selects; any other node passes to its children.
pub open spec fn parse_vars(d: crate::dict::DictModel, id: u32, fuel: nat) -> Seq<
    crate::variable::VariableModel,
>
    decreases fuel, 0int,
{
    match find_node(d.nodes, id) {
        None => Seq::empty(),
        Some(n) => {
            if n.kind == NodeKind::Identifier || n.kind == NodeKind::MemberAccess || n.kind
                == NodeKind::IndexAccess || n.kind == NodeKind::VariableDeclaration {
                let fv = spec_flat_variable(d, id);
                spec_get_variables(fv.0, fv.1)
            } else if fuel == 0 {
                Seq::empty()
            } else {
                parse_vars_list(d, n.children, 0, (fuel - 1) as nat)
            }
        },
    }
}

/// The variables found under the children `ids[i..]`.
pub open spec fn parse_vars_list(d: crate::dict::DictModel, ids: Seq<u32>, i: int, fuel: nat) -> Seq<
    crate::variable::VariableModel,
>
    decreases fuel, ids.len() - i + 1,
{
    if i < 0 || i >= ids.len() {
        Seq::empty()
    } else {
        parse_vars(d, ids[i], fuel) + parse_vars_list(d, ids, i + 1, fuel)
    }
}

/// What `Variable::parse` returns: the variables of the expression rooted at
/// `id`, first occurrences kept.
pub open spec fn spec_parse_variables(d: crate::dict::DictModel, id: u32) -> Seq<
    crate::variable::VariableModel,
> {
    crate::vecset::extend_unique(
        Seq::<crate::variable::VariableModel>::empty(),
        parse_vars(d, id, d.nodes.len()),
    )
}

/// Collect the variables of the expression rooted at `id` into `acc`.
#[verifier::loop_isolation(false)]
fn parse_into(d: &Dictionary, id: u32, fuel: usize, acc: &mut Vec<crate::variable::Variable>)
    ensures
        final(acc).deep_view() == crate::vecset::extend_unique(
            old(acc).deep_view(),
            parse_vars(d.deep_view(), id, fuel as nat),
        ),
    decreases fuel, 0int,
{
    let n = match d.lookup(id) {
        None => {
            return ;
        },
        Some(n) => n,
    };
    if n.kind == NodeKind::Identifier || n.kind == NodeKind::MemberAccess || n.kind
        == NodeKind::IndexAccess || n.kind == NodeKind::VariableDeclaration {
        let fv = FlatVariable::new(d, id);
        let vars = fv.get_variables();
        crate::variable::vars_extend_unique(acc, &vars);
        return ;
    }
    if fuel == 0 {
        return ;
    }
    let ghost dv = d.deep_view();
    let ghost ids = n.deep_view().children;
    let ghost f1 = (fuel - 1) as nat;
    let ghost mut done: Seq<crate::variable::VariableModel> = Seq::empty();
    let ghost base = acc.deep_view();
    let mut i: usize = 0;
    while i < n.children.len()
        invariant
            0 <= i <= ids.len(),
            acc.deep_view() == crate::vecset::extend_unique(base, done),
            parse_vars_list(dv, ids, 0, f1) == done + parse_vars_list(dv, ids, i as int, f1),
        decreases ids.len() - i,
    {
        parse_into(d, n.children[i], fuel - 1, acc);
        proof {
            let step = parse_vars(dv, ids[i as int], f1);
            crate::vecset::lemma_extend_unique_concat(base, done, step);
            done = done + step;
            assert(parse_vars_list(dv, ids, 0, f1) =~~= done + parse_vars_list(dv, ids, i + 1, f1));
        }
        i = i + 1;
    }
    proof {
        assert(parse_vars_list(dv, ids, ids.len() as int, f1) =~~= Seq::<
            crate::variable::VariableModel,
        >::empty());
        assert(done + Seq::<crate::variable::VariableModel>::empty() =~~= done);
    }
}

/// A path that is selected by an extended focus is selected by the focus
/// itself.
pub proof fn lemma_selects_weaken(attrs: Seq<Seq<char>>, focus: Seq<Seq<char>>, ext: Seq<Seq<char>>)
    requires
        focus_selects(attrs, focus + ext),
    ensures
        focus_selects(attrs, focus),
{
    let long = focus + ext;
    if attrs == long {
        if ext.len() == 0 {
            assert(attrs =~~= focus);
        } else {
            assert(attrs.subrange(0, focus.len() as int) =~~= focus);
        }
    } else {
        assert(attrs.subrange(0, focus.len() as int) =~~= attrs.subrange(
            0,
            long.len() as int,
        ).subrange(0, focus.len() as int));
        assert(attrs.subrange(0, long.len() as int).subrange(0, focus.len() as int) =~~= focus);
    }
}

/// A member of the filtered list is the variable of some selected flat.
pub proof fn lemma_filtered_member(
    flats: Seq<FlatModel>,
    focus: Seq<Seq<char>>,
    i: int,
    v: crate::variable::VariableModel,
)
    requires
        filtered_from(flats, focus, i).contains(v),
    ensures
        exists|j: int|
            0 <= j < flats.len() && focus_selects(#[trigger] flats[j].attributes, focus) && v
                == variable_of(flats[j], focus),
    decreases flats.len() - i,
{
    if 0 <= i < flats.len() {
        let rest = filtered_from(flats, focus, i + 1);
        if focus_selects(flats[i].attributes, focus) {
            let whole = seq![variable_of(flats[i], focus)] + rest;
            let k = choose|k: int| 0 <= k < whole.len() && whole[k] == v;
            if k == 0 {
                assert(focus_selects(flats[i].attributes, focus) && v == variable_of(
                    flats[i],
                    focus,
                ));
            } else {
                assert(rest[k - 1] == v);
                lemma_filtered_member(flats, focus, i + 1, v);
            }
        } else {
            lemma_filtered_member(flats, focus, i + 1, v);
        }
    }
}

/// The variable of a selected flat is in the filtered list.
pub proof fn lemma_filtered_has(flats: Seq<FlatModel>, focus: Seq<Seq<char>>, i: int, j: int)
    requires
        0 <= i <= j < flats.len(),
        focus_selects(flats[j].attributes, focus),
    ensures
        filtered_from(flats, focus, i).contains(variable_of(flats[j], focus)),
    decreases flats.len() - i,
{
    let rest = filtered_from(flats, focus, i + 1);
    if i == j {
        let whole = seq![variable_of(flats[i], focus)] + rest;
        assert(whole[0] == variable_of(flats[j], focus));
    } else {
        lemma_filtered_has(flats, focus, i + 1, j);
        let k = choose|k: int| 0 <= k < rest.len() && rest[k] == variable_of(flats[j], focus);
        if focus_selects(flats[i].attributes, focus) {
            let whole = seq![variable_of(flats[i], focus)] + rest;
            assert(whole[k + 1] == variable_of(flats[j], focus));
        }
    }
}

/// Flatten prefix closure: a variable selected under an extended focus is,
/// up to its source text, also selected under the focus itself.  In
/// particular the variables of a member-access extension of an expression
/// are among the variables of the expression.
pub proof fn lemma_flatten_prefix_closure(
    flats: Seq<FlatModel>,
    focus: Seq<Seq<char>>,
    ext: Seq<Seq<char>>,
    v: crate::variable::VariableModel,
)
    requires
        spec_get_variables(flats, focus + ext).contains(v),
    ensures
        exists|w: crate::variable::VariableModel|
            #![all_triggers]
            spec_get_variables(flats, focus).contains(w) && w.members == v.members && w.attributes
                == v.attributes && w.kind == v.kind,
{
    let long = focus + ext;
    crate::vecset::lemma_extend_unique_member(
        Seq::<crate::variable::VariableModel>::empty(),
        filtered_from(flats, long, 0),
        v,
    );
    lemma_filtered_member(flats, long, 0, v);
    let j = choose|j: int|
        0 <= j < flats.len() && focus_selects(#[trigger] flats[j].attributes, long) && v
            == variable_of(flats[j], long);
    lemma_selects_weaken(flats[j].attributes, focus, ext);
    lemma_filtered_has(flats, focus, 0, j);
    let w = variable_of(flats[j], focus);
    crate::vecset::lemma_extend_unique_adds(
        Seq::<crate::variable::VariableModel>::empty(),
        filtered_from(flats, focus, 0),
        w,
    );
    assert(spec_get_variables(flats, focus).contains(w) && w.members == v.members && w.attributes
        == v.attributes && w.kind == v.kind);
}

/// Every flat pairs one textual segment with one member.
pub open spec fn flats_wf(fs: Seq<FlatModel>) -> bool {
    forall|i: int|
        0 <= i < fs.len() ==> (#[trigger] fs[i]).members.len() == fs[i].attributes.len()
}

/// Well-formedness survives concatenation.
proof fn lemma_flats_wf_concat(a: Seq<FlatModel>, b: Seq<FlatModel>)
    requires
        flats_wf(a),
        flats_wf(b),
    ensures
        flats_wf(a + b),
{
    assert forall|i: int|
        0 <= i < (a + b).len() implies (#[trigger] (a + b)[i]).members.len() == (a
        + b)[i].attributes.len() by {
        if i < a.len() {
            assert((a + b)[i] == a[i]);
        } else {
            assert((a + b)[i] == b[i - a.len()]);
        }
    }
}

/// The expansion keeps one segment per member: every flat it produces has as
/// many textual segments as members, whenever the seed path does.
pub proof fn lemma_flats_of_wf(
    d: crate::dict::DictModel,
    kind: Seq<char>,
    members: Seq<MemberModel>,
    attrs: Seq<Seq<char>>,
    depth: nat,
)
    requires
        members.len() == attrs.len(),
    ensures
        flats_wf(flats_of(d, kind, members, attrs, depth)),
    decreases depth, 0int, 0int,
{
    if depth == 0 {
        let fs = flats_of(d, kind, members, attrs, depth);
        assert(fs[0].members.len() == fs[0].attributes.len());
    } else if spec_parse_prefixed(kind, "struct "@) is Some {
        let p = spec_parse_prefixed(kind, "struct "@).unwrap();
        match spec_struct_by_name(d, p.0) {
            None => {},
            Some(sid) => match find_node(d.nodes, sid) {
                None => {},
                Some(sn) => {
                    lemma_flats_of_fields_wf(
                        d,
                        sn.children,
                        0,
                        members + index_members(p.1),
                        attrs + dollar_segs(p.1),
                        (depth - 1) as nat,
                    );
                },
            },
        }
    } else if spec_is_mapping(kind) {
        let p = spec_parse_mapping(kind).unwrap();
        lemma_flats_of_wf(
            d,
            p.0,
            members + index_members(p.1),
            attrs + dollar_segs(p.1),
            (depth - 1) as nat,
        );
    } else if spec_parse_prefixed(kind, "contract "@) is Some {
        let p = spec_parse_prefixed(kind, "contract "@).unwrap();
        match spec_contract_by_name(d, p.0) {
            None => {},
            Some(cid) => {
                let m2 = members + index_members(p.1);
                let a2 = attrs + dollar_segs(p.1);
                lemma_flats_of_wf(
                    d,
                    "uint"@,
                    m2 + seq![MemberModel::Global("balance"@)],
                    a2 + seq!["balance"@],
                    (depth - 1) as nat,
                );
                lemma_flats_of_fields_wf(
                    d,
                    spec_states_by_contract_id(d, cid),
                    0,
                    m2,
                    a2,
                    (depth - 1) as nat,
                );
                lemma_flats_of_functions_wf(
                    d,
                    spec_functions_by_contract_id(d, cid),
                    0,
                    m2,
                    a2,
                    (depth - 1) as nat,
                );
                let balance = flats_of(
                    d,
                    "uint"@,
                    m2 + seq![MemberModel::Global("balance"@)],
                    a2 + seq!["balance"@],
                    (depth - 1) as nat,
                );
                let states = flats_of_fields(
                    d,
                    spec_states_by_contract_id(d, cid),
                    0,
                    m2,
                    a2,
                    (depth - 1) as nat,
                );
                let functions = flats_of_functions(
                    d,
                    spec_functions_by_contract_id(d, cid),
                    0,
                    m2,
                    a2,
                    (depth - 1) as nat,
                );
                lemma_flats_wf_concat(balance, states);
                lemma_flats_wf_concat(balance + states, functions);
            },
        }
    } else if spec_parse_array(kind) is Some {
        let p = spec_parse_array(kind).unwrap();
        lemma_flats_of_wf(
            d,
            p.0 + brackets_repeated((p.1 - 1) as nat),
            members + seq![MemberModel::IndexAccess],
            attrs + seq![wildcard_seg()],
            (depth - 1) as nat,
        );
        lemma_flats_of_wf(
            d,
            "void"@,
            members + seq![MemberModel::Global("push"@)],
            attrs + seq!["push"@],
            (depth - 1) as nat,
        );
        lemma_flats_wf_concat(
            flats_of(
                d,
                p.0 + brackets_repeated((p.1 - 1) as nat),
                members + seq![MemberModel::IndexAccess],
                attrs + seq![wildcard_seg()],
                (depth - 1) as nat,
            ),
            flats_of(
                d,
                "void"@,
                members + seq![MemberModel::Global("push"@)],
                attrs + seq!["push"@],
                (depth - 1) as nat,
            ),
        );
    } else if spec_parse_conversion(kind) is Some {
        lemma_flats_of_wf(d, spec_parse_conversion(kind).unwrap(), members, attrs, (depth - 1) as nat);
    } else if builtin_members(kind) is Some {
        lemma_flats_of_builtin_wf(
            d,
            builtin_members(kind).unwrap(),
            0,
            members,
            attrs,
            (depth - 1) as nat,
        );
    } else {
        match spec_library_by_kind(d, kind) {
            Some(lid) => match find_node(d.nodes, lid) {
                Some(ln) => {
                    lemma_flats_of_library_wf(d, ln.children, 0, members, attrs);
                },
                None => {
                    let fs = flats_of(d, kind, members, attrs, depth);
                    assert(fs[0].members.len() == fs[0].attributes.len());
                },
            },
            None => {
                let fs = flats_of(d, kind, members, attrs, depth);
                assert(fs[0].members.len() == fs[0].attributes.len());
            },
        }
    }
}

/// Helper induction over declarations.
proof fn lemma_flats_of_fields_wf(
    d: crate::dict::DictModel,
    fields: Seq<u32>,
    i: int,
    members: Seq<MemberModel>,
    attrs: Seq<Seq<char>>,
    depth: nat,
)
    requires
        members.len() == attrs.len(),
    ensures
        flats_wf(flats_of_fields(d, fields, i, members, attrs, depth)),
    decreases depth, 1int, fields.len() - i,
{
    if 0 <= i < fields.len() {
        match find_node(d.nodes, fields[i]) {
            None => {},
            Some(f) => {
                lemma_flats_of_wf(
                    d,
                    kind_string(f),
                    members + seq![MemberModel::Reference(f.id)],
                    attrs + seq![name_string(f)],
                    depth,
                );
            },
        }
        lemma_flats_of_fields_wf(d, fields, i + 1, members, attrs, depth);
        let head: Seq<FlatModel> = match find_node(d.nodes, fields[i]) {
            None => Seq::empty(),
            Some(f) => flats_of(
                d,
                kind_string(f),
                members + seq![MemberModel::Reference(f.id)],
                attrs + seq![name_string(f)],
                depth,
            ),
        };
        lemma_flats_wf_concat(head, flats_of_fields(d, fields, i + 1, members, attrs, depth));
    }
}

/// Helper induction over functions.
proof fn lemma_flats_of_functions_wf(
    d: crate::dict::DictModel,
    ids: Seq<u32>,
    i: int,
    members: Seq<MemberModel>,
    attrs: Seq<Seq<char>>,
    depth: nat,
)
    requires
        members.len() == attrs.len(),
    ensures
        flats_wf(flats_of_functions(d, ids, i, members, attrs, depth)),
    decreases depth, 1int, ids.len() - i,
{
    if 0 <= i < ids.len() {
        let head: Seq<FlatModel> = match find_node(d.nodes, ids[i]) {
            None => Seq::empty(),
            Some(f) => match function_return_kind(d, f) {
                None => Seq::empty(),
                Some(k) => flats_of(
                    d,
                    k,
                    members + seq![MemberModel::Reference(f.id)],
                    attrs + seq![name_string(f)],
                    depth,
                ),
            },
        };
        match find_node(d.nodes, ids[i]) {
            None => {},
            Some(f) => match function_return_kind(d, f) {
                None => {},
                Some(k) => {
                    lemma_flats_of_wf(
                        d,
                        k,
                        members + seq![MemberModel::Reference(f.id)],
                        attrs + seq![name_string(f)],
                        depth,
                    );
                },
            },
        }
        lemma_flats_of_functions_wf(d, ids, i + 1, members, attrs, depth);
        lemma_flats_wf_concat(head, flats_of_functions(d, ids, i + 1, members, attrs, depth));
    }
}

/// Helper induction over built-in members.
proof fn lemma_flats_of_builtin_wf(
    d: crate::dict::DictModel,
    list: Seq<(Seq<char>, Seq<char>)>,
    i: int,
    members: Seq<MemberModel>,
    attrs: Seq<Seq<char>>,
    depth: nat,
)
    requires
        members.len() == attrs.len(),
    ensures
        flats_wf(flats_of_builtin(d, list, i, members, attrs, depth)),
    decreases depth, 1int, list.len() - i,
{
    if 0 <= i < list.len() {
        lemma_flats_of_wf(
            d,
            list[i].1,
            members + seq![MemberModel::Global(list[i].0)],
            attrs + seq![list[i].0],
            depth,
        );
        lemma_flats_of_builtin_wf(d, list, i + 1, members, attrs, depth);
        lemma_flats_wf_concat(
            flats_of(
                d,
                list[i].1,
                members + seq![MemberModel::Global(list[i].0)],
                attrs + seq![list[i].0],
                depth,
            ),
            flats_of_builtin(d, list, i + 1, members, attrs, depth),
        );
    }
}

/// Helper induction over library members.
proof fn lemma_flats_of_library_wf(
    d: crate::dict::DictModel,
    ids: Seq<u32>,
    i: int,
    members: Seq<MemberModel>,
    attrs: Seq<Seq<char>>,
)
    requires
        members.len() == attrs.len(),
    ensures
        flats_wf(flats_of_library(d, ids, i, members, attrs)),
    decreases ids.len() - i,
{
    if 0 <= i < ids.len() {
        let head: Seq<FlatModel> = match find_node(d.nodes, ids[i]) {
            None => Seq::empty(),
            Some(f) => match function_return_kind(d, f) {
                None => Seq::empty(),
                Some(k) => seq![
                    FlatModel {
                        members: members + seq![MemberModel::Reference(f.id)],
                        attributes: attrs + seq![name_string(f)],
                        kind: k,
                    },
                ],
            },
        };
        assert(flats_wf(head));
        lemma_flats_of_library_wf(d, ids, i + 1, members, attrs);
        lemma_flats_wf_concat(head, flats_of_library(d, ids, i + 1, members, attrs));
    }
}

/// Data-model invariant: every variable an expression flattens to carries as
/// many textual segments as members.
pub proof fn lemma_variable_segment_counts(
    d: crate::dict::DictModel,
    id: u32,
    v: crate::variable::VariableModel,
)
    requires
        spec_get_variables(spec_flat_variable(d, id).0, spec_flat_variable(d, id).1).contains(v),
    ensures
        v.members.len() == v.attributes.len(),
{
    let fv = spec_flat_variable(d, id);
    assert(flats_wf(fv.0)) by {
        match spec_find_root(d.nodes, id, d.nodes.len()) {
            None => {},
            Some(rn) => match root_attribute(rn) {
                None => {},
                Some(attr) => {
                    let members0: Seq<MemberModel> = if rn.kind == NodeKind::VariableDeclaration {
                        seq![MemberModel::Reference(rn.id)]
                    } else {
                        match rn.referenced_declaration {
                            Some(dd) => if find_node(d.nodes, dd) is Some {
                                seq![MemberModel::Reference(dd)]
                            } else {
                                seq![MemberModel::Global(attr)]
                            },
                            None => seq![MemberModel::Global(attr)],
                        }
                    };
                    lemma_flats_of_wf(d, kind_string(rn), members0, seq![attr], FLATTEN_DEPTH as nat);
                },
            },
        }
    }
    crate::vecset::lemma_extend_unique_member(
        Seq::<crate::variable::VariableModel>::empty(),
        filtered_from(fv.0, fv.1, 0),
        v,
    );
    lemma_filtered_member(fv.0, fv.1, 0, v);
}

/// The names a node carries are usable as path segments: when present they
/// are non-empty and never the subscript segment itself.
pub open spec fn node_names_wf(n: NodeModel) -> bool {
    &&& (n.name matches Some(s) ==> s.len() > 0 && s != wildcard_seg())
    &&& (n.value matches Some(s) ==> s.len() > 0 && s != wildcard_seg())
}

/// Every node of the arena carries usable names.
pub open spec fn arena_names_wf(nodes: Seq<NodeModel>) -> bool {
    forall|i: int| 0 <= i < nodes.len() ==> node_names_wf(#[trigger] nodes[i])
}

/// A member path and its segments pair up: same length, and the subscript
/// segment stands exactly where a subscript member stands.
pub open spec fn path_paired(members: Seq<MemberModel>, attrs: Seq<Seq<char>>) -> bool {
    &&& members.len() == attrs.len()
    &&& forall|i: int|
        0 <= i < members.len() ==> ((attrs[i] == wildcard_seg()) <==> (#[trigger] members[i]) is IndexAccess)
}

/// Every flat of the list pairs up and keeps the root member `r0` first.
pub open spec fn flats_rooted(fs: Seq<FlatModel>, r0: MemberModel) -> bool {
    forall|i: int|
        0 <= i < fs.len() ==> path_paired((#[trigger] fs[i]).members, fs[i].attributes)
            && fs[i].members.len() >= 1 && fs[i].members[0] == r0
}

/// Appending one non-subscript step keeps a path paired and rooted.
proof fn lemma_paired_push(
    members: Seq<MemberModel>,
    attrs: Seq<Seq<char>>,
    m: MemberModel,
    a: Seq<char>,
)
    requires
        path_paired(members, attrs),
        (a == wildcard_seg()) <==> m is IndexAccess,
    ensures
        path_paired(members + seq![m], attrs + seq![a]),
{
    let m2 = members + seq![m];
    let a2 = attrs + seq![a];
    assert forall|i: int|
        0 <= i < m2.len() implies ((a2[i] == wildcard_seg()) <==> (#[trigger] m2[i]) is IndexAccess) by {
        if i < members.len() {
            assert(m2[i] == members[i]);
            assert(a2[i] == attrs[i]);
        } else {
            assert(m2[i] == m);
            assert(a2[i] == a);
        }
    }
}

/// Appending subscript steps keeps a path paired and rooted.
proof fn lemma_paired_extend_indexes(members: Seq<MemberModel>, attrs: Seq<Seq<char>>, n: nat)
    requires
        path_paired(members, attrs),
    ensures
        path_paired(members + index_members(n), attrs + dollar_segs(n)),
{
    let m2 = members + index_members(n);
    let a2 = attrs + dollar_segs(n);
    assert forall|i: int|
        0 <= i < m2.len() implies ((a2[i] == wildcard_seg()) <==> (#[trigger] m2[i]) is IndexAccess) by {
        if i < members.len() {
            assert(m2[i] == members[i]);
            assert(a2[i] == attrs[i]);
        } else {
            assert(m2[i] == MemberModel::IndexAccess);
            assert(a2[i] == wildcard_seg());
        }
    }
}

/// Rootedness survives concatenation.
proof fn lemma_rooted_concat(a: Seq<FlatModel>, b: Seq<FlatModel>, r0: MemberModel)
    requires
        flats_rooted(a, r0),
        flats_rooted(b, r0),
    ensures
        flats_rooted(a + b, r0),
{
    assert forall|i: int|
        0 <= i < (a + b).len() implies path_paired(
        (#[trigger] (a + b)[i]).members,
        (a + b)[i].attributes,
    ) && (a + b)[i].members.len() >= 1 && (a + b)[i].members[0] == r0 by {
        if i < a.len() {
            assert((a + b)[i] == a[i]);
        } else {
            assert((a + b)[i] == b[i - a.len()]);
        }
    }
}

/// A name string taken from a well-named node is no subscript segment.
proof fn lemma_name_string_not_wildcard(nodes: Seq<NodeModel>, n: NodeModel)
    requires
        arena_names_wf(nodes),
        nodes.contains(n),
    ensures
        name_string(n) != wildcard_seg(),
{
    let i = choose|i: int| 0 <= i < nodes.len() && nodes[i] == n;
    assert(node_names_wf(nodes[i]));
    if n.name is None {
        assert(name_string(n).len() == 0);
        assert(wildcard_seg().len() == 1);
    }
}

/// The expansion keeps paths paired with their segments and rooted at the
/// seed's first member, for any well-named arena.
pub proof fn lemma_flats_of_paired(
    d: crate::dict::DictModel,
    kind: Seq<char>,
    members: Seq<MemberModel>,
    attrs: Seq<Seq<char>>,
    depth: nat,
    r0: MemberModel,
)
    requires
        arena_names_wf(d.nodes),
        path_paired(members, attrs),
        members.len() >= 1,
        members[0] == r0,
    ensures
        flats_rooted(flats_of(d, kind, members, attrs, depth), r0),
    decreases depth, 0int, 0int,
{
    if depth == 0 {
        let fs = flats_of(d, kind, members, attrs, depth);
        assert(fs[0].members == members);
    } else if spec_parse_prefixed(kind, "struct "@) is Some {
        let p = spec_parse_prefixed(kind, "struct "@).unwrap();
        lemma_paired_extend_indexes(members, attrs, p.1);
        match spec_struct_by_name(d, p.0) {
            None => {},
            Some(sid) => match find_node(d.nodes, sid) {
                None => {},
                Some(sn) => {
                    lemma_flats_of_fields_paired(
                        d,
                        sn.children,
                        0,
                        members + index_members(p.1),
                        attrs + dollar_segs(p.1),
                        (depth - 1) as nat,
                        r0,
                    );
                },
            },
        }
    } else if spec_is_mapping(kind) {
        let p = spec_parse_mapping(kind).unwrap();
        lemma_paired_extend_indexes(members, attrs, p.1);
        lemma_flats_of_paired(
            d,
            p.0,
            members + index_members(p.1),
            attrs + dollar_segs(p.1),
            (depth - 1) as nat,
            r0,
        );
    } else if spec_parse_prefixed(kind, "contract "@) is Some {
        let p = spec_parse_prefixed(kind, "contract "@).unwrap();
        lemma_paired_extend_indexes(members, attrs, p.1);
        match spec_contract_by_name(d, p.0) {
            None => {},
            Some(cid) => {
                let m2 = members + index_members(p.1);
                let a2 = attrs + dollar_segs(p.1);
                reveal_strlit("balance");
                assert("balance"@.len() == 7);
                lemma_paired_push(m2, a2, MemberModel::Global("balance"@), "balance"@);
                lemma_flats_of_paired(
                    d,
                    "uint"@,
                    m2 + seq![MemberModel::Global("balance"@)],
                    a2 + seq!["balance"@],
                    (depth - 1) as nat,
                    r0,
                );
                lemma_flats_of_fields_paired(
                    d,
                    spec_states_by_contract_id(d, cid),
                    0,
                    m2,
                    a2,
                    (depth - 1) as nat,
                    r0,
                );
                lemma_flats_of_functions_paired(
                    d,
                    spec_functions_by_contract_id(d, cid),
                    0,
                    m2,
                    a2,
                    (depth - 1) as nat,
                    r0,
                );
                let balance = flats_of(
                    d,
                    "uint"@,
                    m2 + seq![MemberModel::Global("balance"@)],
                    a2 + seq!["balance"@],
                    (depth - 1) as nat,
                );
                let states = flats_of_fields(
                    d,
                    spec_states_by_contract_id(d, cid),
                    0,
                    m2,
                    a2,
                    (depth - 1) as nat,
                );
                let functions = flats_of_functions(
                    d,
                    spec_functions_by_contract_id(d, cid),
                    0,
                    m2,
                    a2,
                    (depth - 1) as nat,
                );
                lemma_rooted_concat(balance, states, r0);
                lemma_rooted_concat(balance + states, functions, r0);
            },
        }
    } else if spec_parse_array(kind) is Some {
        let p = spec_parse_array(kind).unwrap();
        lemma_paired_push(members, attrs, MemberModel::IndexAccess, wildcard_seg());
        lemma_flats_of_paired(
            d,
            p.0 + brackets_repeated((p.1 - 1) as nat),
            members + seq![MemberModel::IndexAccess],
            attrs + seq![wildcard_seg()],
            (depth - 1) as nat,
            r0,
        );
        reveal_strlit("push");
        assert("push"@.len() == 4);
        lemma_paired_push(members, attrs, MemberModel::Global("push"@), "push"@);
        lemma_flats_of_paired(
            d,
            "void"@,
            members + seq![MemberModel::Global("push"@)],
            attrs + seq!["push"@],
            (depth - 1) as nat,
            r0,
        );
        lemma_rooted_concat(
            flats_of(
                d,
                p.0 + brackets_repeated((p.1 - 1) as nat),
                members + seq![MemberModel::IndexAccess],
                attrs + seq![wildcard_seg()],
                (depth - 1) as nat,
            ),
            flats_of(
                d,
                "void"@,
                members + seq![MemberModel::Global("push"@)],
                attrs + seq!["push"@],
                (depth - 1) as nat,
            ),
            r0,
        );
    } else if spec_parse_conversion(kind) is Some {
        lemma_flats_of_paired(
            d,
            spec_parse_conversion(kind).unwrap(),
            members,
            attrs,
            (depth - 1) as nat,
            r0,
        );
    } else if builtin_members(kind) is Some {
        reveal_strlit("blockhash");
        reveal_strlit("coinbase");
        reveal_strlit("difficulty");
        reveal_strlit("gaslimit");
        reveal_strlit("number");
        reveal_strlit("timestamp");
        reveal_strlit("data");
        reveal_strlit("gas");
        reveal_strlit("sender");
        reveal_strlit("sig");
        reveal_strlit("value");
        reveal_strlit("gasprice");
        reveal_strlit("origin");
        reveal_strlit("encode");
        reveal_strlit("encodePacked");
        reveal_strlit("encodeWithSelector");
        reveal_strlit("encodeWithSignature");
        reveal_strlit("balance");
        reveal_strlit("transfer");
        reveal_strlit("send");
        reveal_strlit("call");
        reveal_strlit("callcode");
        reveal_strlit("delegatecall");
        let list = builtin_members(kind).unwrap();
        assert forall|m: int| 0 <= m < list.len() implies (#[trigger] list[m]).0 != wildcard_seg() by {
            assert(list[m].0.len() >= 3);
        }
        lemma_flats_of_builtin_paired(d, list, 0, members, attrs, (depth - 1) as nat, r0);
    } else {
        match spec_library_by_kind(d, kind) {
            Some(lid) => match find_node(d.nodes, lid) {
                Some(ln) => {
                    lemma_flats_of_library_paired(d, ln.children, 0, members, attrs, r0);
                },
                None => {
                    let fs = flats_of(d, kind, members, attrs, depth);
                    assert(fs[0].members == members);
                },
            },
            None => {
                let fs = flats_of(d, kind, members, attrs, depth);
                assert(fs[0].members == members);
            },
        }
    }
}

/// Helper induction over declarations.
proof fn lemma_flats_of_fields_paired(
    d: crate::dict::DictModel,
    fields: Seq<u32>,
    i: int,
    members: Seq<MemberModel>,
    attrs: Seq<Seq<char>>,
    depth: nat,
    r0: MemberModel,
)
    requires
        arena_names_wf(d.nodes),
        path_paired(members, attrs),
        members.len() >= 1,
        members[0] == r0,
    ensures
        flats_rooted(flats_of_fields(d, fields, i, members, attrs, depth), r0),
    decreases depth, 1int, fields.len() - i,
{
    if 0 <= i < fields.len() {
        match find_node(d.nodes, fields[i]) {
            None => {},
            Some(f) => {
                crate::vecset::lemma_find_first_is_member(
                    d.nodes,
                    |n: NodeModel| n.id == fields[i],
                    f,
                );
                lemma_name_string_not_wildcard(d.nodes, f);
                lemma_paired_push(members, attrs, MemberModel::Reference(f.id), name_string(f));
                lemma_flats_of_paired(
                    d,
                    kind_string(f),
                    members + seq![MemberModel::Reference(f.id)],
                    attrs + seq![name_string(f)],
                    depth,
                    r0,
                );
            },
        }
        lemma_flats_of_fields_paired(d, fields, i + 1, members, attrs, depth, r0);
        let head: Seq<FlatModel> = match find_node(d.nodes, fields[i]) {
            None => Seq::empty(),
            Some(f) => flats_of(
                d,
                kind_string(f),
                members + seq![MemberModel::Reference(f.id)],
                attrs + seq![name_string(f)],
                depth,
            ),
        };
        lemma_rooted_concat(head, flats_of_fields(d, fields, i + 1, members, attrs, depth), r0);
    }
}

/// Helper induction over functions.
proof fn lemma_flats_of_functions_paired(
    d: crate::dict::DictModel,
    ids: Seq<u32>,
    i: int,
    members: Seq<MemberModel>,
    attrs: Seq<Seq<char>>,
    depth: nat,
    r0: MemberModel,
)
    requires
        arena_names_wf(d.nodes),
        path_paired(members, attrs),
        members.len() >= 1,
        members[0] == r0,
    ensures
        flats_rooted(flats_of_functions(d, ids, i, members, attrs, depth), r0),
    decreases depth, 1int, ids.len() - i,
{
    if 0 <= i < ids.len() {
        let head: Seq<FlatModel> = match find_node(d.nodes, ids[i]) {
            None => Seq::empty(),
            Some(f) => match function_return_kind(d, f) {
                None => Seq::empty(),
                Some(k) => flats_of(
                    d,
                    k,
                    members + seq![MemberModel::Reference(f.id)],
                    attrs + seq![name_string(f)],
                    depth,
                ),
            },
        };
        match find_node(d.nodes, ids[i]) {
            None => {},
            Some(f) => match function_return_kind(d, f) {
                None => {},
                Some(k) => {
                    crate::vecset::lemma_find_first_is_member(
                        d.nodes,
                        |n: NodeModel| n.id == ids[i],
                        f,
                    );
                    lemma_name_string_not_wildcard(d.nodes, f);
                    lemma_paired_push(members, attrs, MemberModel::Reference(f.id), name_string(f));
                    lemma_flats_of_paired(
                        d,
                        k,
                        members + seq![MemberModel::Reference(f.id)],
                        attrs + seq![name_string(f)],
                        depth,
                        r0,
                    );
                },
            },
        }
        lemma_flats_of_functions_paired(d, ids, i + 1, members, attrs, depth, r0);
        lemma_rooted_concat(head, flats_of_functions(d, ids, i + 1, members, attrs, depth), r0);
    }
}

/// Helper induction over built-in members.
proof fn lemma_flats_of_builtin_paired(
    d: crate::dict::DictModel,
    list: Seq<(Seq<char>, Seq<char>)>,
    i: int,
    members: Seq<MemberModel>,
    attrs: Seq<Seq<char>>,
    depth: nat,
    r0: MemberModel,
)
    requires
        arena_names_wf(d.nodes),
        path_paired(members, attrs),
        members.len() >= 1,
        members[0] == r0,
        forall|m: int| 0 <= m < list.len() ==> (#[trigger] list[m]).0 != wildcard_seg(),
    ensures
        flats_rooted(flats_of_builtin(d, list, i, members, attrs, depth), r0),
    decreases depth, 1int, list.len() - i,
{
    if 0 <= i < list.len() {
        lemma_paired_push(members, attrs, MemberModel::Global(list[i].0), list[i].0);
        lemma_flats_of_paired(
            d,
            list[i].1,
            members + seq![MemberModel::Global(list[i].0)],
            attrs + seq![list[i].0],
            depth,
            r0,
        );
        lemma_flats_of_builtin_paired(d, list, i + 1, members, attrs, depth, r0);
        lemma_rooted_concat(
            flats_of(
                d,
                list[i].1,
                members + seq![MemberModel::Global(list[i].0)],
                attrs + seq![list[i].0],
                depth,
            ),
            flats_of_builtin(d, list, i + 1, members, attrs, depth),
            r0,
        );
    }
}

/// Helper induction over library members.
proof fn lemma_flats_of_library_paired(
    d: crate::dict::DictModel,
    ids: Seq<u32>,
    i: int,
    members: Seq<MemberModel>,
    attrs: Seq<Seq<char>>,
    r0: MemberModel,
)
    requires
        arena_names_wf(d.nodes),
        path_paired(members, attrs),
        members.len() >= 1,
        members[0] == r0,
    ensures
        flats_rooted(flats_of_library(d, ids, i, members, attrs), r0),
    decreases ids.len() - i,
{
    if 0 <= i < ids.len() {
        let head: Seq<FlatModel> = match find_node(d.nodes, ids[i]) {
            None => Seq::empty(),
            Some(f) => match function_return_kind(d, f) {
                None => Seq::empty(),
                Some(k) => seq![
                    FlatModel {
                        members: members + seq![MemberModel::Reference(f.id)],
                        attributes: attrs + seq![name_string(f)],
                        kind: k,
                    },
                ],
            },
        };
        match find_node(d.nodes, ids[i]) {
            None => {},
            Some(f) => match function_return_kind(d, f) {
                None => {},
                Some(k) => {
                    crate::vecset::lemma_find_first_is_member(
                        d.nodes,
                        |n: NodeModel| n.id == ids[i],
                        f,
                    );
                    lemma_name_string_not_wildcard(d.nodes, f);
                    lemma_paired_push(members, attrs, MemberModel::Reference(f.id), name_string(f));
                },
            },
        }
        assert(flats_rooted(head, r0));
        lemma_flats_of_library_paired(d, ids, i + 1, members, attrs, r0);
        lemma_rooted_concat(head, flats_of_library(d, ids, i + 1, members, attrs), r0);
    }
}

/// Whether a member may root a variable: a `Reference` the arena resolves,
/// or a `Global` carrying a non-empty name.
pub open spec fn root_member_ok(d: crate::dict::DictModel, m: MemberModel) -> bool {
    match m {
        MemberModel::Reference(id) => find_node(d.nodes, id) is Some,
        MemberModel::Global(s) => s.len() > 0,
        MemberModel::IndexAccess => false,
    }
}

/// The root of an access chain is a node of the arena.
proof fn lemma_find_root_is_member(nodes: Seq<NodeModel>, id: u32, fuel: nat, n: NodeModel)
    requires
        spec_find_root(nodes, id, fuel) == Some(n),
    ensures
        nodes.contains(n),
        find_node(nodes, n.id) is Some,
    decreases fuel,
{
    match find_node(nodes, id) {
        None => {},
        Some(m) => {
            if (m.kind == NodeKind::IndexAccess || m.kind == NodeKind::MemberAccess || m.kind
                == NodeKind::FunctionCall) && m.children.len() > 0 && fuel > 0 {
                lemma_find_root_is_member(nodes, m.children[0], (fuel - 1) as nat, n);
            } else {
                crate::vecset::lemma_find_first_is_member(nodes, |x: NodeModel| x.id == id, n);
                let k = choose|k: int| 0 <= k < nodes.len() && nodes[k] == n;
                crate::vecset::lemma_find_first_some(nodes, |x: NodeModel| x.id == n.id, k);
            }
        },
    }
}

/// Data-model invariants of every flattened variable, for a well-named
/// arena: one textual segment per member, the subscript segment exactly
/// where a subscript member stands, and a first member that is either a
/// `Reference` the arena resolves or a `Global` with a non-empty name.
pub proof fn lemma_variable_data_model(
    d: crate::dict::DictModel,
    id: u32,
    v: crate::variable::VariableModel,
)
    requires
        arena_names_wf(d.nodes),
        spec_get_variables(spec_flat_variable(d, id).0, spec_flat_variable(d, id).1).contains(v),
    ensures
        v.members.len() == v.attributes.len(),
        forall|i: int|
            0 <= i < v.members.len() ==> ((v.attributes[i] == wildcard_seg()) <==> (
            #[trigger] v.members[i]) is IndexAccess),
        v.members.len() >= 1,
        root_member_ok(d, v.members[0]),
{
    let fv = spec_flat_variable(d, id);
    match spec_find_root(d.nodes, id, d.nodes.len()) {
        None => {
            assert(fv.0.len() == 0);
            crate::vecset::lemma_extend_unique_member(
                Seq::<crate::variable::VariableModel>::empty(),
                filtered_from(fv.0, fv.1, 0),
                v,
            );
            lemma_filtered_member(fv.0, fv.1, 0, v);
        },
        Some(rn) => {
            lemma_find_root_is_member(d.nodes, id, d.nodes.len(), rn);
            let k = choose|k: int| 0 <= k < d.nodes.len() && d.nodes[k] == rn;
            assert(node_names_wf(rn));
            match root_attribute(rn) {
                None => {
                    assert(fv.0.len() == 0);
                    crate::vecset::lemma_extend_unique_member(
                        Seq::<crate::variable::VariableModel>::empty(),
                        filtered_from(fv.0, fv.1, 0),
                        v,
                    );
                    lemma_filtered_member(fv.0, fv.1, 0, v);
                },
                Some(attr) => {
                    let members0: Seq<MemberModel> = if rn.kind == NodeKind::VariableDeclaration {
                        seq![MemberModel::Reference(rn.id)]
                    } else {
                        match rn.referenced_declaration {
                            Some(dd) => if find_node(d.nodes, dd) is Some {
                                seq![MemberModel::Reference(dd)]
                            } else {
                                seq![MemberModel::Global(attr)]
                            },
                            None => seq![MemberModel::Global(attr)],
                        }
                    };
                    assert(path_paired(members0, seq![attr]));
                    assert(root_member_ok(d, members0[0]));
                    lemma_flats_of_paired(
                        d,
                        kind_string(rn),
                        members0,
                        seq![attr],
                        FLATTEN_DEPTH as nat,
                        members0[0],
                    );
                    crate::vecset::lemma_extend_unique_member(
                        Seq::<crate::variable::VariableModel>::empty(),
                        filtered_from(fv.0, fv.1, 0),
                        v,
                    );
                    lemma_filtered_member(fv.0, fv.1, 0, v);
                },
            }
        },
    }
}

/// A member access or subscript whose base is `id` shares `id`'s root — and
/// so its flats — and extends its focused path by exactly its own segment.
/// The two stability hypotheses say that the chain below `id` settles one
/// step before the walking depth runs out, which holds on every acyclic
/// arena.
pub proof fn lemma_extension_shares_root(d: crate::dict::DictModel, id2: u32, id: u32)
    requires
        find_node(d.nodes, id2) matches Some(n2) && ((n2.kind == NodeKind::MemberAccess || n2.kind
            == NodeKind::IndexAccess) && n2.children.len() > 0 && n2.children[0] == id),
        d.nodes.len() >= 1,
        spec_find_root(d.nodes, id, (d.nodes.len() - 1) as nat) == spec_find_root(
            d.nodes,
            id,
            d.nodes.len() as nat,
        ),
        focus_path(d.nodes, id, (d.nodes.len() - 1) as nat) == focus_path(
            d.nodes,
            id,
            d.nodes.len() as nat,
        ),
    ensures
        spec_flat_variable(d, id2).0 == spec_flat_variable(d, id).0,
        spec_flat_variable(d, id2).1 == spec_flat_variable(d, id).1 + seq![
            segment_of(find_node(d.nodes, id2).unwrap()).unwrap(),
        ],
{
    let n2 = find_node(d.nodes, id2).unwrap();
    assert(spec_find_root(d.nodes, id2, d.nodes.len() as nat) == spec_find_root(
        d.nodes,
        id,
        (d.nodes.len() - 1) as nat,
    ));
    assert(focus_path(d.nodes, id2, d.nodes.len() as nat) =~~= focus_path(
        d.nodes,
        id,
        (d.nodes.len() - 1) as nat,
    ) + seq![segment_of(n2).unwrap()]);
}

/// Flatten prefix closure across expressions: every variable of a member
/// access or subscript extension of an expression is, up to its source
/// text, among the variables of the expression itself.
pub proof fn lemma_prefix_closure_extension(
    d: crate::dict::DictModel,
    id2: u32,
    id: u32,
    v: crate::variable::VariableModel,
)
    requires
        find_node(d.nodes, id2) matches Some(n2) && ((n2.kind == NodeKind::MemberAccess || n2.kind
            == NodeKind::IndexAccess) && n2.children.len() > 0 && n2.children[0] == id),
        d.nodes.len() >= 1,
        spec_find_root(d.nodes, id, (d.nodes.len() - 1) as nat) == spec_find_root(
            d.nodes,
            id,
            d.nodes.len() as nat,
        ),
        focus_path(d.nodes, id, (d.nodes.len() - 1) as nat) == focus_path(
            d.nodes,
            id,
            d.nodes.len() as nat,
        ),
        spec_get_variables(spec_flat_variable(d, id2).0, spec_flat_variable(d, id2).1).contains(v),
    ensures
        exists|w: crate::variable::VariableModel|
            #![all_triggers]
            spec_get_variables(spec_flat_variable(d, id).0, spec_flat_variable(d, id).1).contains(
                w,
            ) && w.members == v.members && w.attributes == v.attributes && w.kind == v.kind,
{
    lemma_extension_shares_root(d, id2, id);
    let n2 = find_node(d.nodes, id2).unwrap();
    lemma_flatten_prefix_closure(
        spec_flat_variable(d, id).0,
        spec_flat_variable(d, id).1,
        seq![segment_of(n2).unwrap()],
        v,
    );
}

/// A kind that no expansion rule matches: not a struct, mapping, contract,
/// array or conversion type, no built-in namespace, and no registered
/// library.
pub open spec fn is_leaf_kind(d: crate::dict::DictModel, kind: Seq<char>) -> bool {
    &&& spec_parse_prefixed(kind, "struct "@) is None
    &&& !spec_is_mapping(kind)
    &&& spec_parse_prefixed(kind, "contract "@) is None
    &&& spec_parse_array(kind) is None
    &&& spec_parse_conversion(kind) is None
    &&& builtin_members(kind) is None
    &&& spec_library_by_kind(d, kind) is None
}

/// A leaf kind expands to exactly one flat: the path as given.
pub proof fn lemma_flatten_leaf(
    d: crate::dict::DictModel,
    kind: Seq<char>,
    members: Seq<MemberModel>,
    attrs: Seq<Seq<char>>,
    depth: nat,
)
    requires
        is_leaf_kind(d, kind),
    ensures
        flats_of(d, kind, members, attrs, depth) == seq![
            FlatModel { members, attributes: attrs, kind },
        ],
{
}

/// A plain identifier with a resolved declaration and a leaf kind flattens
/// to exactly one variable: the declaration as sole member, the
/// identifier's text as sole segment and source, and the identifier's kind.
pub proof fn lemma_identifier_singleton(d: crate::dict::DictModel, id: u32)
    requires
        find_node(d.nodes, id) matches Some(n) && (n.kind == NodeKind::Identifier
            && n.children.len() == 0 && n.value is Some && (n.referenced_declaration matches Some(
            dd,
        ) && find_node(d.nodes, dd) is Some) && is_leaf_kind(d, kind_string(n))),
    ensures
        ({
            let n = find_node(d.nodes, id).unwrap();
            let fv = spec_flat_variable(d, id);
            spec_get_variables(fv.0, fv.1) == seq![
                crate::variable::VariableModel {
                    members: seq![MemberModel::Reference(n.referenced_declaration.unwrap())],
                    attributes: seq![n.value.unwrap()],
                    kind: kind_string(n),
                    source: n.value.unwrap(),
                },
            ]
        }),
{
    let n = find_node(d.nodes, id).unwrap();
    let val = n.value.unwrap();
    let dd = n.referenced_declaration.unwrap();
    assert(spec_find_root(d.nodes, id, d.nodes.len()) == Some(n));
    assert(root_attribute(n) == Some(val));
    let members0 = seq![MemberModel::Reference(dd)];
    lemma_flatten_leaf(d, kind_string(n), members0, seq![val], FLATTEN_DEPTH as nat);
    let fv = spec_flat_variable(d, id);
    assert(fv.0 == seq![
        FlatModel { members: members0, attributes: seq![val], kind: kind_string(n) },
    ]);
    assert(focus_path(d.nodes, id, d.nodes.len()) =~~= seq![val]);
    let flat = fv.0[0];
    assert(focus_selects(flat.attributes, fv.1));
    assert(filtered_from(fv.0, fv.1, 1) =~~= Seq::<crate::variable::VariableModel>::empty());
    assert(filtered_from(fv.0, fv.1, 0) =~~= seq![variable_of(flat, fv.1)]);
    assert(crate::strutil::join_dotted(seq![val]) == val);
    let v = variable_of(flat, fv.1);
    assert(spec_get_variables(fv.0, fv.1) =~~= seq![v]) by {
        let emp = Seq::<crate::variable::VariableModel>::empty();
        assert(!emp.contains(v));
        assert(seq![v].drop_first() =~~= emp);
        assert(crate::vecset::extend_unique(emp, seq![v])
            == crate::vecset::extend_unique(emp.push(v), seq![v].drop_first()));
        assert(crate::vecset::extend_unique(emp.push(v), emp) == emp.push(v));
        assert(emp.push(v) =~~= seq![v]);
    }
}

impl crate::variable::Variable {
    /// The set of variables that the expression rooted at `id` may read or
    /// write.
    pub fn parse(dict: &Dictionary, id: u32) -> (r: Vec<crate::variable::Variable>)
        ensures
            r.deep_view() == spec_parse_variables(dict.deep_view(), id),
    {
        let mut acc: Vec<crate::variable::Variable> = Vec::new();
        proof {
            assert(acc.deep_view() =~~= Seq::<crate::variable::VariableModel>::empty());
        }
        parse_into(dict, id, dict.nodes.len(), &mut acc);
        acc
    }
}

} // verus!

use vstd::prelude::*;

use crate::vecset::{extend_unique, lemma_extend_unique_snoc, push_unique};

verus! {

/// One step in the path from a root declaration to an accessed location.
///
/// `Reference` points at a declared entity by its AST node id, `IndexAccess`
/// is an array or mapping subscript, and `Global` names an entity that has no
/// AST node (a built-in namespace member or an undeclared identifier).
#[derive(Debug, Clone, PartialEq, Eq, Hash)]
pub enum Member {
    Reference(u32),
    IndexAccess,
    Global(String),
}

/// Mathematical value of a `Member`.
#[verifier::ext_equal]
pub enum MemberModel {
    Reference(u32),
    IndexAccess,
    Global(Seq<char>),
}

impl DeepView for Member {
    type V = MemberModel;

    open spec fn deep_view(&self) -> MemberModel {
        match self {
            Member::Reference(id) => MemberModel::Reference(*id),
            Member::IndexAccess => MemberModel::IndexAccess,
            Member::Global(name) => MemberModel::Global(name@),
        }
    }
}

/// A storage location, canonicalized as a path of members.
///
/// `attributes` holds the textual path segments (the segment `"$"` stands for
/// a subscript and matches any segment during comparison); it always has as
/// many segments as `members` has entries.  `kind` is the type string taken
/// from the AST and `source` the textual form of the accessed expression.
#[derive(Debug, Clone, PartialEq, Eq, Hash)]
pub struct Variable {
    pub members: Vec<Member>,
    pub attributes: Vec<String>,
    pub kind: String,
    pub source: String,
}

/// Mathematical value of a `Variable`.
#[verifier::ext_equal]
pub struct VariableModel {
    pub members: Seq<MemberModel>,
    pub attributes: Seq<Seq<char>>,
    pub kind: Seq<char>,
    pub source: Seq<char>,
}

impl DeepView for Variable {
    type V = VariableModel;

    open spec fn deep_view(&self) -> VariableModel {
        VariableModel {
            members: self.members.deep_view(),
            attributes: self.attributes.deep_view(),
            kind: self.kind@,
            source: self.source@,
        }
    }
}

/// Outcome of comparing two variables by their attribute paths: either the
/// paths agree segment for segment, or one is a proper prefix of the other,
/// or neither.
#[derive(Debug, Clone, Copy, PartialEq, Eq, Structural)]
pub enum VariableComparison {
    Equal,
    Partial,
    NotEqual,
}

/// The subscript segment: it compares equal to any other segment.
pub open spec fn wildcard_seg() -> Seq<char> {
    seq!['$']
}

/// Two path segments agree when they are the same text or either is `"$"`.
pub open spec fn seg_matches(a: Seq<char>, b: Seq<char>) -> bool {
    a == b || a == wildcard_seg() || b == wildcard_seg()
}

/// All segments strictly below position `n` agree.
pub open spec fn paths_match_upto(a: Seq<Seq<char>>, b: Seq<Seq<char>>, n: int) -> bool {
    forall|i: int| 0 <= i < n ==> seg_matches(a[i], b[i])
}

/// Comparison of two attribute paths: `Equal` when they have the same length
/// and agree on every segment, `Partial` when the shorter is a proper prefix
/// of the longer (under the `"$"` wildcard), `NotEqual` otherwise.
pub open spec fn spec_compare(a: Seq<Seq<char>>, b: Seq<Seq<char>>) -> VariableComparison {
    let n = if a.len() <= b.len() { a.len() as int } else { b.len() as int };
    if !paths_match_upto(a, b, n) {
        VariableComparison::NotEqual
    } else if a.len() == b.len() {
        VariableComparison::Equal
    } else {
        VariableComparison::Partial
    }
}

/// Comparing two attribute paths has exactly one of three outcomes: the
/// result is a single value, and it is always one of `Equal`, `Partial` and
/// `NotEqual`.
pub proof fn lemma_comparison_trichotomy(a: Seq<Seq<char>>, b: Seq<Seq<char>>)
    ensures
        spec_compare(a, b) == VariableComparison::Equal || spec_compare(a, b)
            == VariableComparison::Partial || spec_compare(a, b) == VariableComparison::NotEqual,
{
}

/// Comparison is symmetric: in particular two variables are `Equal` in one
/// order exactly when they are `Equal` in the other.
pub proof fn lemma_compare_symmetric(a: Seq<Seq<char>>, b: Seq<Seq<char>>)
    ensures
        spec_compare(a, b) == spec_compare(b, a),
{
    let n = if a.len() <= b.len() {
        a.len() as int
    } else {
        b.len() as int
    };
    if paths_match_upto(a, b, n) {
        assert forall|i: int| 0 <= i < n implies seg_matches(b[i], a[i]) by {
            assert(seg_matches(a[i], b[i]));
        }
    }
    if paths_match_upto(b, a, n) {
        assert forall|i: int| 0 <= i < n implies seg_matches(a[i], b[i]) by {
            assert(seg_matches(b[i], a[i]));
        }
    }
}

/// Whether a segment is the subscript wildcard `"$"`.
fn seg_is_wildcard(s: &String) -> (r: bool)
    ensures
        r <==> s@ == wildcard_seg(),
{
    proof {
        reveal_strlit("$");
    }
    let res = s.as_str().unicode_len() == 1 && s.as_str().get_char(0) == '$';
    proof {
        if res {
            assert(s@ =~= wildcard_seg());
        }
        if s@ == wildcard_seg() {
            assert(s@.len() == 1 && s@[0] == '$');
        }
    }
    res
}

/// Whether two strings hold the same text.
pub fn str_eq(a: &String, b: &String) -> (r: bool)
    ensures
        r <==> a@ == b@,
{
    a.eq(b)
}

/// Whether two segments agree under the `"$"` wildcard.
fn segs_match(a: &String, b: &String) -> (r: bool)
    ensures
        r <==> seg_matches(a@, b@),
{
    if str_eq(a, b) {
        true
    } else {
        seg_is_wildcard(a) || seg_is_wildcard(b)
    }
}

/// Copy a list of path segments.
#[verifier::loop_isolation(false)]
pub fn dup_strings(v: &Vec<String>) -> (r: Vec<String>)
    ensures
        r.deep_view() == v.deep_view(),
{
    let mut r: Vec<String> = Vec::new();
    let mut i: usize = 0;
    while i < v.len()
        invariant
            0 <= i <= v@.len(),
            r@.len() == i,
            forall|j: int| 0 <= j < i ==> r@[j] == v@[j],
        decreases v@.len() - i,
    {
        r.push(v[i].clone());
        i = i + 1;
    }
    proof {
        assert(r.deep_view() =~= v.deep_view());
    }
    r
}

impl Member {
    /// Copy this member.
    pub fn duplicate(&self) -> (r: Member)
        ensures
            r == *self,
    {
        match self {
            Member::Reference(id) => Member::Reference(*id),
            Member::IndexAccess => Member::IndexAccess,
            Member::Global(name) => Member::Global(name.clone()),
        }
    }

    /// Whether this member denotes the same step as another.
    pub fn same_as(&self, other: &Member) -> (r: bool)
        ensures
            r <==> self.deep_view() == other.deep_view(),
    {
        match (self, other) {
            (Member::Reference(a), Member::Reference(b)) => a == b,
            (Member::IndexAccess, Member::IndexAccess) => true,
            (Member::Global(a), Member::Global(b)) => str_eq(a, b),
            _ => false,
        }
    }
}

/// Copy a list of members.
#[verifier::loop_isolation(false)]
pub fn dup_members(v: &Vec<Member>) -> (r: Vec<Member>)
    ensures
        r.deep_view() == v.deep_view(),
{
    let mut r: Vec<Member> = Vec::new();
    let mut i: usize = 0;
    while i < v.len()
        invariant
            0 <= i <= v@.len(),
            r@.len() == i,
            forall|j: int| 0 <= j < i ==> r@[j] == v@[j],
        decreases v@.len() - i,
    {
        r.push(v[i].duplicate());
        i = i + 1;
    }
    proof {
        assert(r.deep_view() =~= v.deep_view());
    }
    r
}

/// Whether two segment lists hold the same texts.
#[verifier::loop_isolation(false)]
pub fn strings_eq(a: &Vec<String>, b: &Vec<String>) -> (r: bool)
    ensures
        r <==> a.deep_view() == b.deep_view(),
{
    if a.len() != b.len() {
        proof {
            assert(a.deep_view().len() == a@.len());
            assert(b.deep_view().len() == b@.len());
        }
        return false;
    }
    let mut i: usize = 0;
    while i < a.len()
        invariant
            0 <= i <= a@.len(),
            a@.len() == b@.len(),
            forall|j: int| 0 <= j < i ==> a.deep_view()[j] == b.deep_view()[j],
        decreases a@.len() - i,
    {
        if !str_eq(&a[i], &b[i]) {
            assert(a.deep_view()[i as int] != b.deep_view()[i as int]);
            return false;
        }
        i = i + 1;
    }
    proof {
        assert(a.deep_view() =~= b.deep_view());
    }
    true
}

/// Whether two member lists denote the same path.
#[verifier::loop_isolation(false)]
pub fn members_eq(a: &Vec<Member>, b: &Vec<Member>) -> (r: bool)
    ensures
        r <==> a.deep_view() == b.deep_view(),
{
    if a.len() != b.len() {
        proof {
            assert(a.deep_view().len() == a@.len());
            assert(b.deep_view().len() == b@.len());
        }
        return false;
    }
    let mut i: usize = 0;
    while i < a.len()
        invariant
            0 <= i <= a@.len(),
            a@.len() == b@.len(),
            forall|j: int| 0 <= j < i ==> a.deep_view()[j] == b.deep_view()[j],
        decreases a@.len() - i,
    {
        if !a[i].same_as(&b[i]) {
            assert(a.deep_view()[i as int] != b.deep_view()[i as int]);
            return false;
        }
        i = i + 1;
    }
    proof {
        assert(a.deep_view() =~= b.deep_view());
    }
    true
}

impl Variable {
    /// Copy this variable.
    pub fn duplicate(&self) -> (r: Variable)
        ensures
            r.deep_view() == self.deep_view(),
    {
        Variable {
            members: dup_members(&self.members),
            attributes: dup_strings(&self.attributes),
            kind: self.kind.clone(),
            source: self.source.clone(),
        }
    }

    /// Whether this variable denotes the same location as another, field for
    /// field.
    pub fn same_as(&self, other: &Variable) -> (r: bool)
        ensures
            r <==> self.deep_view() == other.deep_view(),
    {
        members_eq(&self.members, &other.members) && strings_eq(&self.attributes, &other.attributes)
            && str_eq(&self.kind, &other.kind) && str_eq(&self.source, &other.source)
    }

    /// Build a variable from its parts.
    pub fn new(members: Vec<Member>, attributes: Vec<String>, kind: String, source: String) -> (r:
        Variable)
        ensures
            r.deep_view().members == members.deep_view(),
            r.deep_view().attributes == attributes.deep_view(),
            r.deep_view().kind == kind@,
            r.deep_view().source == source@,
    {
        Variable { members, attributes, kind, source }
    }

    /// Compare this variable's attribute path with another's.
    #[verifier::loop_isolation(false)]
    pub fn contains(&self, other: &Variable) -> (r: VariableComparison)
        ensures
            r == spec_compare(self.attributes.deep_view(), other.attributes.deep_view()),
    {
        let a = &self.attributes;
        let b = &other.attributes;
        let n = if a.len() <= b.len() {
            a.len()
        } else {
            b.len()
        };
        let mut i: usize = 0;
        while i < n
            invariant
                0 <= i <= n,
                n == if a@.len() <= b@.len() {
                    a@.len() as int
                } else {
                    b@.len() as int
                },
                paths_match_upto(a.deep_view(), b.deep_view(), i as int),
            decreases n - i,
        {
            if !segs_match(&a[i], &b[i]) {
                proof {
                    let aa = a.deep_view();
                    let bb = b.deep_view();
                    assert(aa[i as int] == a@[i as int]@);
                    assert(!seg_matches(aa[i as int], bb[i as int]));
                    assert(!paths_match_upto(aa, bb, n as int));
                }
                return VariableComparison::NotEqual;
            }
            i = i + 1;
        }
        if a.len() == b.len() {
            VariableComparison::Equal
        } else {
            VariableComparison::Partial
        }
    }
}

/// Whether an equal variable is already in the list.
#[verifier::loop_isolation(false)]
pub fn vars_contain(vs: &Vec<Variable>, v: &Variable) -> (r: bool)
    ensures
        r <==> vs.deep_view().contains(v.deep_view()),
{
    let mut i: usize = 0;
    while i < vs.len()
        invariant
            0 <= i <= vs@.len(),
            forall|j: int| 0 <= j < i ==> vs.deep_view()[j] != v.deep_view(),
        decreases vs@.len() - i,
    {
        if vs[i].same_as(v) {
            assert(vs.deep_view()[i as int] == v.deep_view());
            return true;
        }
        i = i + 1;
    }
    false
}

/// Add a variable to a duplicate-free list unless it is already there.
pub fn vars_insert_unique(vs: &mut Vec<Variable>, v: Variable)
    ensures
        final(vs).deep_view() == push_unique(old(vs).deep_view(), v.deep_view()),
{
    if !vars_contain(vs, &v) {
        let ghost pre = vs.deep_view();
        vs.push(v);
        proof {
            assert(vs.deep_view() =~= pre.push(v.deep_view()));
        }
    }
}

/// Add every variable of `t`, in order and without duplicates.
#[verifier::loop_isolation(false)]
pub fn vars_extend_unique(vs: &mut Vec<Variable>, t: &Vec<Variable>)
    ensures
        final(vs).deep_view() == extend_unique(old(vs).deep_view(), t.deep_view()),
{
    let ghost orig = vs.deep_view();
    let mut i: usize = 0;
    while i < t.len()
        invariant
            0 <= i <= t@.len(),
            vs.deep_view() == extend_unique(orig, t.deep_view().take(i as int)),
        decreases t@.len() - i,
    {
        vars_insert_unique(vs, t[i].duplicate());
        proof {
            lemma_extend_unique_snoc(orig, t.deep_view().take(i as int), t.deep_view()[i as int]);
            assert(t.deep_view().take(i as int).push(t.deep_view()[i as int]) =~= t.deep_view().take(
                i + 1,
            ));
        }
        i = i + 1;
    }
    proof {
        assert(t.deep_view().take(t@.len() as int) =~= t.deep_view());
    }
}

} // verus!

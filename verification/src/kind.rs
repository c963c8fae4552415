use vstd::prelude::*;
use vstd::string::*;

use crate::strutil::str_slice_eq;

verus! {

/// Whether `s` begins with the segment `pre`.
pub open spec fn spec_starts_with(s: Seq<char>, pre: Seq<char>) -> bool {
    s.len() >= pre.len() && s.subrange(0, pre.len() as int) == pre
}

/// Length of the run of characters from `i` on that are neither `[` nor `]`.
pub open spec fn run_non_bracket(s: Seq<char>, i: int) -> nat
    decreases s.len() - i,
{
    if i < 0 || i >= s.len() || s[i] == '[' || s[i] == ']' {
        0
    } else {
        1 + run_non_bracket(s, i + 1)
    }
}

/// Number of consecutive `[]` pairs starting at `i`.
pub open spec fn bracket_pairs(s: Seq<char>, i: int) -> nat
    decreases s.len() - i,
{
    if i < 0 || i + 2 > s.len() || s[i] != '[' || s[i + 1] != ']' {
        0
    } else {
        1 + bracket_pairs(s, i + 2)
    }
}

/// Number of `[]` pairs that end the string.
pub open spec fn end_bracket_pairs(s: Seq<char>) -> nat
    decreases s.len(),
{
    if s.len() < 2 || s[s.len() - 2] != '[' || s[s.len() - 1] != ']' {
        0
    } else {
        1 + end_bracket_pairs(s.take(s.len() - 2))
    }
}

/// Length of the run of characters other than `[` that ends just before `i`.
pub open spec fn back_run_non_lbracket(s: Seq<char>, i: int) -> nat
    decreases i,
{
    if i <= 0 || i > s.len() || s[i - 1] == '[' {
        0
    } else {
        1 + back_run_non_lbracket(s, i - 1)
    }
}

/// The position of the last `)` strictly below `i`, if any.
pub open spec fn last_close_before(s: Seq<char>, i: int) -> Option<int>
    decreases i,
{
    if i <= 0 || i > s.len() {
        None
    } else if s[i - 1] == ')' {
        Some(i - 1)
    } else {
        last_close_before(s, i - 1)
    }
}

/// Number of leading space characters from `i` on.
pub open spec fn space_run(s: Seq<char>, i: int) -> nat
    decreases s.len() - i,
{
    if i < 0 || i >= s.len() || s[i] != ' ' {
        0
    } else {
        1 + space_run(s, i + 1)
    }
}

/// Number of trailing space characters ending just before `i`.
pub open spec fn back_space_run(s: Seq<char>, i: int) -> nat
    decreases i,
{
    if i <= 0 || i > s.len() || s[i - 1] != ' ' {
        0
    } else {
        1 + back_space_run(s, i - 1)
    }
}

/// The string with leading and trailing spaces removed.
pub open spec fn spec_trim(s: Seq<char>) -> Seq<char> {
    let a = space_run(s, 0) as int;
    let b = s.len() - back_space_run(s, s.len() as int);
    if a <= b {
        s.subrange(a, b)
    } else {
        Seq::empty()
    }
}

/// A type of the form `<pre><name><dim × []>…`: the name is the maximal
/// bracket-free run after the prefix and `dim` counts the `[]` pairs that
/// follow it; the rest of the string is ignored.
pub open spec fn spec_parse_prefixed(s: Seq<char>, pre: Seq<char>) -> Option<(Seq<char>, nat)> {
    if spec_starts_with(s, pre) {
        let j = pre.len() + run_non_bracket(s, pre.len() as int);
        Some((s.subrange(pre.len() as int, j as int), bracket_pairs(s, j as int)))
    } else {
        None
    }
}

/// Exec mirror of `spec_starts_with`.
pub fn starts_with_str(s: &str, pre: &str) -> (r: bool)
    ensures
        r <==> spec_starts_with(s@, pre@),
{
    let n = s.unicode_len();
    let p = pre.unicode_len();
    if n < p {
        return false;
    }
    let head = s.substring_char(0, p);
    str_slice_eq(head, pre)
}

/// Whether the character at `j` is `[` or `]`.
fn is_bracket_at(s: &str, j: usize) -> (r: bool)
    requires
        j < s@.len(),
    ensures
        r <==> (s@[j as int] == '[' || s@[j as int] == ']'),
{
    let c = s.get_char(j);
    c == '[' || c == ']'
}

/// Exec mirror of `run_non_bracket`.
#[verifier::loop_isolation(false)]
pub fn find_run_non_bracket(s: &str, start: usize) -> (r: usize)
    requires
        start <= s@.len(),
    ensures
        r == run_non_bracket(s@, start as int),
        start + r <= s@.len(),
{
    let n = s.unicode_len();
    let mut j = start;
    while j < n && !is_bracket_at(s, j)
        invariant
            start <= j <= n,
            run_non_bracket(s@, start as int) == (j - start) + run_non_bracket(s@, j as int),
        decreases n - j,
    {
        j = j + 1;
    }
    j - start
}

/// Exec mirror of `bracket_pairs`.
#[verifier::loop_isolation(false)]
pub fn find_bracket_pairs(s: &str, start: usize) -> (r: usize)
    requires
        start <= s@.len(),
    ensures
        r == bracket_pairs(s@, start as int),
        start + 2 * r <= s@.len(),
{
    let n = s.unicode_len();
    let mut j = start;
    let mut count: usize = 0;
    while j < n && j + 1 < n && s.get_char(j) == '[' && s.get_char(j + 1) == ']'
        invariant
            start <= j <= n,
            j == start + 2 * count,
            bracket_pairs(s@, start as int) == count + bracket_pairs(s@, j as int),
        decreases n - j,
    {
        j = j + 2;
        count = count + 1;
    }
    count
}

/// Parse `<pre><name>([])*`, returning the name and the dimension count.
pub fn parse_prefixed(s: &str, pre: &str) -> (r: Option<(String, usize)>)
    ensures
        match r {
            Some(p) => spec_parse_prefixed(s@, pre@) == Some((p.0@, p.1 as nat)),
            None => spec_parse_prefixed(s@, pre@) is None,
        },
{
    if !starts_with_str(s, pre) {
        return None;
    }
    let p = pre.unicode_len();
    let n = s.unicode_len();
    proof {
        assert(p <= s@.len());
    }
    let run = find_run_non_bracket(s, p);
    proof {
        assert(p + run <= n);
    }
    let name = s.substring_char(p, p + run);
    let dim = find_bracket_pairs(s, p + run);
    Some((String::from_str(name), dim))
}

/// Exec mirror of `spec_trim`.
#[verifier::loop_isolation(false)]
pub fn trim_str(s: &str) -> (r: String)
    ensures
        r@ == spec_trim(s@),
{
    let n = s.unicode_len();
    let mut a: usize = 0;
    while a < n && s.get_char(a) == ' '
        invariant
            0 <= a <= n,
            space_run(s@, 0) == (a - 0) + space_run(s@, a as int),
        decreases n - a,
    {
        a = a + 1;
    }
    let mut b: usize = n;
    while b > 0 && s.get_char(b - 1) == ' '
        invariant
            0 <= b <= n,
            back_space_run(s@, n as int) == (n - b) + back_space_run(s@, b as int),
        decreases b,
    {
        b = b - 1;
    }
    if a <= b {
        String::from_str(s.substring_char(a, b))
    } else {
        String::new()
    }
}

/// One step of the scan that finds the value type of a mapping: `d` is the
/// parenthesis depth, `from` the position after the first top-level `=>`,
/// `to` the position before the last parenthesis that closes the top level.
pub open spec fn mapping_scan(s: Seq<char>, i: int, d: int, from: int, to: int) -> (int, int)
    decreases s.len() - i,
{
    if i < 0 || i >= s.len() {
        (from, to)
    } else {
        let d1 = if s[i] == '(' {
            d + 1
        } else if s[i] == ')' {
            d - 1
        } else {
            d
        };
        let from1 = if d1 == 1 && i >= 1 && s[i] == '>' && s[i - 1] == '=' {
            i + 1
        } else {
            from
        };
        let to1 = if d1 == 0 && s[i] == ')' {
            i - 1
        } else {
            to
        };
        mapping_scan(s, i + 1, d1, from1, to1)
    }
}

/// Whether `s` is a mapping type: it begins with `mapping(` and a closing
/// parenthesis follows the key type.
pub open spec fn spec_is_mapping(s: Seq<char>) -> bool {
    spec_starts_with(s, "mapping("@) && (match last_close_before(s, s.len() as int) {
        Some(p) => p >= 9,
        None => false,
    })
}

/// The value type of a mapping (trimmed), and its dimension count: one for
/// the mapping itself plus one per `[]` pair after the closing parenthesis.
pub open spec fn spec_parse_mapping(s: Seq<char>) -> Option<(Seq<char>, nat)> {
    if !spec_is_mapping(s) {
        None
    } else {
        let fromto = mapping_scan(s, 0, 0, 0, 0);
        let value = if 0 <= fromto.0 && fromto.0 <= fromto.1 + 1 && fromto.1 + 1 <= s.len() {
            spec_trim(s.subrange(fromto.0, fromto.1 + 1))
        } else {
            Seq::empty()
        };
        let p = last_close_before(s, s.len() as int).unwrap();
        Some((value, bracket_pairs(s, p + 1) + 1))
    }
}

/// The position of the last `)` in `s`, if any.
#[verifier::loop_isolation(false)]
pub fn find_last_close(s: &str) -> (r: Option<usize>)
    ensures
        match r {
            Some(p) => last_close_before(s@, s@.len() as int) == Some(p as int) && p < s@.len(),
            None => last_close_before(s@, s@.len() as int) is None,
        },
{
    let n = s.unicode_len();
    let mut k: usize = n;
    while k > 0
        invariant
            0 <= k <= n,
            last_close_before(s@, n as int) == last_close_before(s@, k as int),
        decreases k,
    {
        if s.get_char(k - 1) == ')' {
            return Some(k - 1);
        }
        k = k - 1;
    }
    None
}

/// Parse a mapping type: exec mirror of `spec_parse_mapping`.
#[verifier::loop_isolation(false)]
pub fn parse_mapping(s: &str) -> (r: Option<(String, usize)>)
    ensures
        match r {
            Some(p) => spec_parse_mapping(s@) == Some((p.0@, p.1 as nat)),
            None => spec_parse_mapping(s@) is None,
        },
{
    if !starts_with_str(s, "mapping(") {
        return None;
    }
    let p = match find_last_close(s) {
        None => {
            return None;
        },
        Some(p) => p,
    };
    if p < 9 {
        return None;
    }
    let n = s.unicode_len();
    let mut i: usize = 0;
    let mut d: i128 = 0;
    let mut from: usize = 0;
    let mut to: usize = 0;
    while i < n
        invariant
            0 <= i <= n,
            -(i as int) <= d as int <= i as int,
            0 <= from <= n,
            0 <= to <= n,
            mapping_scan(s@, 0, 0, 0, 0) == mapping_scan(s@, i as int, d as int, from as int, to as int),
        decreases n - i,
    {
        let c = s.get_char(i);
        if c == '(' {
            d = d + 1;
        } else if c == ')' {
            d = d - 1;
        }
        if d == 1 && i >= 1 && c == '>' && s.get_char(i - 1) == '=' {
            from = i + 1;
        }
        if d == 0 && c == ')' {
            to = i - 1;
        }
        i = i + 1;
    }
    let value: String = if to < n && from <= to + 1 {
        trim_str(s.substring_char(from, to + 1))
    } else {
        String::new()
    };
    let dims = find_bracket_pairs(s, p + 1);
    Some((value, dims + 1))
}

/// The element type of an array (its base without the final `[]`s), and the
/// number of trailing `[]` pairs.
pub open spec fn spec_parse_array(s: Seq<char>) -> Option<(Seq<char>, nat)> {
    let d = end_bracket_pairs(s);
    if d == 0 {
        None
    } else {
        let tail = s.len() - 2 * d;
        let back = back_run_non_lbracket(s, tail);
        if back == 0 {
            None
        } else {
            Some((s.subrange(tail - back, tail), d))
        }
    }
}

/// Parse an array type: exec mirror of `spec_parse_array`.
#[verifier::loop_isolation(false)]
pub fn parse_array(s: &str) -> (r: Option<(String, usize)>)
    ensures
        match r {
            Some(p) => spec_parse_array(s@) == Some((p.0@, p.1 as nat)),
            None => spec_parse_array(s@) is None,
        },
{
    let n = s.unicode_len();
    proof {
        assert(s@.take(n as int) =~= s@);
    }
    let mut e: usize = n;
    let mut d: usize = 0;
    while e >= 2 && s.get_char(e - 2) == '[' && s.get_char(e - 1) == ']'
        invariant
            0 <= e <= n,
            e == n - 2 * d,
            end_bracket_pairs(s@) == d + end_bracket_pairs(s@.take(e as int)),
        decreases e,
    {
        proof {
            assert(s@.take(e as int).take(e - 2) =~= s@.take(e - 2));
        }
        e = e - 2;
        d = d + 1;
    }
    proof {
        assert(end_bracket_pairs(s@.take(e as int)) == 0);
    }
    if d == 0 {
        return None;
    }
    let mut k: usize = e;
    while k > 0 && s.get_char(k - 1) != '['
        invariant
            0 <= k <= e,
            back_run_non_lbracket(s@, e as int) == (e - k) + back_run_non_lbracket(s@, k as int),
        decreases k,
    {
        k = k - 1;
    }
    if k == e {
        return None;
    }
    Some((String::from_str(s.substring_char(k, e)), d))
}

/// The inner type of a conversion expression `type(T)`.
pub open spec fn spec_parse_conversion(s: Seq<char>) -> Option<Seq<char>> {
    if spec_starts_with(s, "type("@) && s.len() >= 7 && s[s.len() - 1] == ')' {
        Some(s.subrange(5, s.len() - 1))
    } else {
        None
    }
}

/// Parse a conversion type: exec mirror of `spec_parse_conversion`.
pub fn parse_conversion(s: &str) -> (r: Option<String>)
    ensures
        match r {
            Some(p) => spec_parse_conversion(s@) == Some(p@),
            None => spec_parse_conversion(s@) is None,
        },
{
    proof {
        reveal_strlit("type(");
    }
    let n = s.unicode_len();
    if starts_with_str(s, "type(") && n >= 7 && s.get_char(n - 1) == ')' {
        Some(String::from_str(s.substring_char(5, n - 1)))
    } else {
        None
    }
}

} // verus!

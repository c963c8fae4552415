use vstd::prelude::*;

verus! {

/// Append `v` to `s` unless an equal element is already present.
pub open spec fn push_unique<T>(s: Seq<T>, v: T) -> Seq<T> {
    if s.contains(v) {
        s
    } else {
        s.push(v)
    }
}

/// Append every element of `t` to `s` in order, skipping duplicates.
pub open spec fn extend_unique<T>(s: Seq<T>, t: Seq<T>) -> Seq<T>
    decreases t.len(),
{
    if t.len() == 0 {
        s
    } else {
        extend_unique(push_unique(s, t[0]), t.drop_first())
    }
}

/// Extending by one more trailing element is pushing it at the end.
pub proof fn lemma_extend_unique_snoc<T>(s: Seq<T>, t: Seq<T>, v: T)
    ensures
        extend_unique(s, t.push(v)) == push_unique(extend_unique(s, t), v),
    decreases t.len(),
{
    if t.len() == 0 {
        assert(t.push(v).drop_first() =~= Seq::<T>::empty());
        assert(extend_unique(s, t.push(v)) == extend_unique(push_unique(s, v), t.push(
            v,
        ).drop_first()));
    } else {
        assert(t.push(v).drop_first() =~= t.drop_first().push(v));
        lemma_extend_unique_snoc(push_unique(s, t[0]), t.drop_first(), v);
    }
}

/// Extending by a concatenation is extending by each part in turn.
pub proof fn lemma_extend_unique_concat<T>(s: Seq<T>, a: Seq<T>, b: Seq<T>)
    ensures
        extend_unique(s, a + b) == extend_unique(extend_unique(s, a), b),
    decreases a.len(),
{
    if a.len() == 0 {
        assert(a + b =~= b);
    } else {
        assert((a + b).drop_first() =~= a.drop_first() + b);
        assert((a + b)[0] == a[0]);
        lemma_extend_unique_concat(push_unique(s, a[0]), a.drop_first(), b);
    }
}

/// Adding an element keeps every element that was there.
pub proof fn lemma_push_unique_keeps<T>(s: Seq<T>, v: T, x: T)
    requires
        s.contains(x),
    ensures
        push_unique(s, v).contains(x),
{
    if !s.contains(v) {
        let i = choose|i: int| 0 <= i < s.len() && s[i] == x;
        assert(s.push(v)[i] == x);
    }
}

/// The added element is present afterwards.
pub proof fn lemma_push_unique_adds<T>(s: Seq<T>, v: T)
    ensures
        push_unique(s, v).contains(v),
{
    if !s.contains(v) {
        assert(s.push(v)[s.len() as int] == v);
    }
}

/// An element of an extension came from one of the two parts.
pub proof fn lemma_extend_unique_member<T>(s: Seq<T>, t: Seq<T>, v: T)
    requires
        extend_unique(s, t).contains(v),
    ensures
        s.contains(v) || t.contains(v),
    decreases t.len(),
{
    if t.len() != 0 {
        lemma_extend_unique_member(push_unique(s, t[0]), t.drop_first(), v);
        if push_unique(s, t[0]).contains(v) {
            if !s.contains(v) {
                if !s.contains(t[0]) {
                    let i = choose|i: int|
                        0 <= i < s.push(t[0]).len() && s.push(t[0])[i] == v;
                    if i < s.len() {
                        assert(s[i] == v);
                    } else {
                        assert(t[0] == v);
                    }
                }
            }
        } else {
            let i = choose|i: int| 0 <= i < t.drop_first().len() && t.drop_first()[i] == v;
            assert(t[i + 1] == v);
        }
    }
}

/// Extending never loses elements that were already present.
pub proof fn lemma_extend_unique_keeps<T>(s: Seq<T>, t: Seq<T>, v: T)
    requires
        s.contains(v),
    ensures
        extend_unique(s, t).contains(v),
    decreases t.len(),
{
    if t.len() != 0 {
        if !s.contains(t[0]) {
            assert(s.push(t[0]).contains(v)) by {
                let i = choose|i: int| 0 <= i < s.len() && s[i] == v;
                assert(s.push(t[0])[i] == v);
            }
        }
        lemma_extend_unique_keeps(push_unique(s, t[0]), t.drop_first(), v);
    }
}

/// After extending, every element of the extension is present.
pub proof fn lemma_extend_unique_adds<T>(s: Seq<T>, t: Seq<T>, v: T)
    requires
        t.contains(v),
    ensures
        extend_unique(s, t).contains(v),
    decreases t.len(),
{
    if t.len() != 0 {
        if t[0] == v {
            if s.contains(v) {
                lemma_extend_unique_keeps(s, t.drop_first(), v);
            } else {
                assert(s.push(v).contains(v)) by {
                    assert(s.push(v)[s.len() as int] == v);
                }
                lemma_extend_unique_keeps(s.push(v), t.drop_first(), v);
            }
        } else {
            let i = choose|i: int| 0 <= i < t.len() && t[i] == v;
            assert(t.drop_first()[i - 1] == v);
            assert(t.drop_first().contains(v));
            lemma_extend_unique_adds(push_unique(s, t[0]), t.drop_first(), v);
        }
    }
}

/// The sequence with the first occurrence of `v` removed, if any.
pub open spec fn remove_first<T>(s: Seq<T>, v: T) -> Seq<T>
    decreases s.len(),
{
    if s.len() == 0 {
        s
    } else if s[0] == v {
        s.drop_first()
    } else {
        seq![s[0]] + remove_first(s.drop_first(), v)
    }
}

/// If position `j` holds the first occurrence, removal drops exactly it.
pub proof fn lemma_remove_first_at<T>(s: Seq<T>, v: T, j: int)
    requires
        0 <= j < s.len(),
        s[j] == v,
        forall|k: int| 0 <= k < j ==> s[k] != v,
    ensures
        remove_first(s, v) == s.take(j) + s.skip(j + 1),
    decreases j,
{
    if j == 0 {
        assert(remove_first(s, v) =~= s.take(0int) + s.skip(1));
    } else {
        lemma_remove_first_at(s.drop_first(), v, j - 1);
        assert(s.drop_first().take(j - 1) =~= s.take(j).drop_first());
        assert(s.drop_first().skip(j) =~= s.skip(j + 1));
        assert(seq![s[0]] + (s.take(j).drop_first() + s.skip(j + 1)) =~= s.take(j) + s.skip(j + 1));
    }
}

/// If `v` does not occur, removal changes nothing.
pub proof fn lemma_remove_first_none<T>(s: Seq<T>, v: T)
    requires
        forall|k: int| 0 <= k < s.len() ==> s[k] != v,
    ensures
        remove_first(s, v) == s,
    decreases s.len(),
{
    if s.len() > 0 {
        lemma_remove_first_none(s.drop_first(), v);
        assert(seq![s[0]] + s.drop_first() =~= s);
    }
}

/// The first element satisfying `p`, scanning from the front.
pub open spec fn find_first<T>(s: Seq<T>, p: spec_fn(T) -> bool) -> Option<T>
    decreases s.len(),
{
    if s.len() == 0 {
        None
    } else if p(s[0]) {
        Some(s[0])
    } else {
        find_first(s.drop_first(), p)
    }
}

/// If position `i` is the first to satisfy `p`, the scan returns it.
pub proof fn lemma_find_first_at<T>(s: Seq<T>, p: spec_fn(T) -> bool, i: int)
    requires
        0 <= i < s.len(),
        p(s[i]),
        forall|j: int| 0 <= j < i ==> !p(s[j]),
    ensures
        find_first(s, p) == Some(s[i]),
    decreases i,
{
    if i > 0 {
        lemma_find_first_at(s.drop_first(), p, i - 1);
    }
}

/// What the scan returns is an element of the sequence.
pub proof fn lemma_find_first_is_member<T>(s: Seq<T>, p: spec_fn(T) -> bool, e: T)
    requires
        find_first(s, p) == Some(e),
    ensures
        s.contains(e),
    decreases s.len(),
{
    if s.len() > 0 {
        if p(s[0]) {
            assert(s[0] == e);
        } else {
            lemma_find_first_is_member(s.drop_first(), p, e);
            let i = choose|i: int| 0 <= i < s.drop_first().len() && s.drop_first()[i] == e;
            assert(s[i + 1] == e);
        }
    }
}

/// A witness position makes the scan find something.
pub proof fn lemma_find_first_some<T>(s: Seq<T>, p: spec_fn(T) -> bool, k: int)
    requires
        0 <= k < s.len(),
        p(s[k]),
    ensures
        find_first(s, p) is Some,
    decreases k,
{
    if s.len() > 0 && !p(s[0]) {
        assert(s.drop_first()[k - 1] == s[k]);
        lemma_find_first_some(s.drop_first(), p, k - 1);
    }
}

/// If no position satisfies `p`, the scan returns nothing.
pub proof fn lemma_find_first_none<T>(s: Seq<T>, p: spec_fn(T) -> bool)
    requires
        forall|j: int| 0 <= j < s.len() ==> !p(s[j]),
    ensures
        find_first(s, p) == None::<T>,
    decreases s.len(),
{
    if s.len() > 0 {
        lemma_find_first_none(s.drop_first(), p);
    }
}

} // verus!

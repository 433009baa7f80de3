//! The first position in a sequence where a predicate holds.
use vstd::prelude::*;

verus! {

/// The index of the first element of `s` that satisfies `p`, or -1.
pub open spec fn first_index<T>(s: Seq<T>, p: spec_fn(T) -> bool) -> int
    decreases s.len(),
{
    if s.len() == 0 {
        -1
    } else if p(s[0]) {
        0
    } else {
        let r = first_index(s.drop_first(), p);
        if r < 0 {
            -1
        } else {
            r + 1
        }
    }
}

pub proof fn lemma_first_index_at<T>(s: Seq<T>, p: spec_fn(T) -> bool, i: int)
    requires
        0 <= i < s.len(),
        p(s[i]),
        forall|j: int| 0 <= j < i ==> !p(#[trigger] s[j]),
    ensures
        first_index(s, p) == i,
    decreases i,
{
    if i > 0 {
        let t = s.drop_first();
        assert forall|j: int| 0 <= j < i - 1 implies !p(#[trigger] t[j]) by {
            assert(t[j] == s[j + 1]);
        }
        lemma_first_index_at(t, p, i - 1);
    }
}

pub proof fn lemma_first_index_none<T>(s: Seq<T>, p: spec_fn(T) -> bool)
    requires
        forall|j: int| 0 <= j < s.len() ==> !p(#[trigger] s[j]),
    ensures
        first_index(s, p) == -1,
    decreases s.len(),
{
    if s.len() > 0 {
        let t = s.drop_first();
        assert forall|j: int| 0 <= j < t.len() implies !p(#[trigger] t[j]) by {
            assert(t[j] == s[j + 1]);
        }
        lemma_first_index_none(t, p);
    }
}

/// Two sequences of one length whose elements satisfy their predicates at the same
/// positions have the same first index.
pub proof fn lemma_first_index_same<A, B>(a: Seq<A>, p: spec_fn(A) -> bool, b: Seq<B>, q: spec_fn(B) -> bool)
    requires
        a.len() == b.len(),
        forall|i: int| 0 <= i < a.len() ==> p(#[trigger] a[i]) == q(b[i]),
    ensures
        first_index(a, p) == first_index(b, q),
    decreases a.len(),
{
    if a.len() > 0 {
        let (ta, tb) = (a.drop_first(), b.drop_first());
        assert forall|i: int| 0 <= i < ta.len() implies p(#[trigger] ta[i]) == q(tb[i]) by {
            assert(ta[i] == a[i + 1] && tb[i] == b[i + 1]);
        }
        assert(p(a[0]) == q(b[0]));
        lemma_first_index_same(ta, p, tb, q);
    }
}

pub proof fn lemma_first_index_facts<T>(s: Seq<T>, p: spec_fn(T) -> bool)
    ensures
        -1 <= first_index(s, p) < s.len(),
        first_index(s, p) >= 0 ==> p(s[first_index(s, p)]),
        first_index(s, p) >= 0 ==> forall|j: int| 0 <= j < first_index(s, p) ==> !p(#[trigger] s[j]),
        first_index(s, p) < 0 ==> forall|j: int| 0 <= j < s.len() ==> !p(#[trigger] s[j]),
    decreases s.len(),
{
    if s.len() > 0 {
        let t = s.drop_first();
        lemma_first_index_facts(t, p);
        if !p(s[0]) {
            if first_index(t, p) >= 0 {
                assert forall|j: int| 0 <= j < first_index(s, p) implies !p(#[trigger] s[j]) by {
                    if j > 0 {
                        assert(s[j] == t[j - 1]);
                    }
                }
            } else {
                assert forall|j: int| 0 <= j < s.len() implies !p(#[trigger] s[j]) by {
                    if j > 0 {
                        assert(s[j] == t[j - 1]);
                    }
                }
            }
        }
    }
}

} // verus!

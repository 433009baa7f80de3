//! The order in which texts are sorted: lexicographic by character code, the order of
//! `str`'s comparison.
use vstd::prelude::*;

use crate::text::{chars_eq, chars_of, string_of, texts};

verus! {

/// Whether `a` comes before `b`: at the first position where they differ, `a`'s character
/// has the smaller code, or `a` is a proper prefix of `b`.
pub open spec fn text_lt(a: Seq<char>, b: Seq<char>) -> bool
    decreases a.len(),
{
    if b.len() == 0 {
        false
    } else if a.len() == 0 {
        true
    } else if a[0] != b[0] {
        (a[0] as u32) < (b[0] as u32)
    } else {
        text_lt(a.drop_first(), b.drop_first())
    }
}

/// Whether every text of `s` comes before each text after it.
pub open spec fn strictly_sorted(s: Seq<Seq<char>>) -> bool {
    forall|i: int, j: int| 0 <= i < j < s.len() ==> text_lt(#[trigger] s[i], #[trigger] s[j])
}

pub proof fn lemma_text_lt_transitive(a: Seq<char>, b: Seq<char>, c: Seq<char>)
    requires
        text_lt(a, b),
        text_lt(b, c),
    ensures
        text_lt(a, c),
    decreases a.len(),
{
    if a.len() > 0 && b.len() > 0 && c.len() > 0 && a[0] == b[0] && b[0] == c[0] {
        lemma_text_lt_transitive(a.drop_first(), b.drop_first(), c.drop_first());
    }
}

pub proof fn lemma_text_lt_total(a: Seq<char>, b: Seq<char>)
    requires
        a != b,
    ensures
        text_lt(a, b) || text_lt(b, a),
    decreases a.len(),
{
    if a.len() > 0 && b.len() > 0 {
        if a[0] == b[0] {
            if a.drop_first() == b.drop_first() {
                assert(a =~= seq![a[0]] + a.drop_first());
                assert(b =~= seq![b[0]] + b.drop_first());
            }
            lemma_text_lt_total(a.drop_first(), b.drop_first());
        } else {
            vstd::utf8::char_u32_cast(a[0], a[0] as u32);
            vstd::utf8::char_u32_cast(b[0], b[0] as u32);
        }
    } else if a.len() == 0 && b.len() == 0 {
        assert(a =~= b);
    }
}

/// Whether `a` comes before `b`, as `text_lt` describes.
pub fn chars_lt(a: &Vec<char>, b: &Vec<char>) -> (r: bool)
    ensures
        r == text_lt(a@, b@),
{
    let mut i: usize = 0;
    assert(a@.subrange(0, a@.len() as int) =~= a@);
    assert(b@.subrange(0, b@.len() as int) =~= b@);
    while i < a.len() && i < b.len() && a[i] == b[i]
        invariant
            i <= a.len(),
            i <= b.len(),
            a@.subrange(0, i as int) == b@.subrange(0, i as int),
            text_lt(a@, b@) == text_lt(a@.subrange(i as int, a@.len() as int), b@.subrange(i as int, b@.len() as int)),
        decreases a.len() - i,
    {
        proof {
            let ta = a@.subrange(i as int, a@.len() as int);
            let tb = b@.subrange(i as int, b@.len() as int);
            assert(ta.drop_first() =~= a@.subrange(i + 1, a@.len() as int));
            assert(tb.drop_first() =~= b@.subrange(i + 1, b@.len() as int));
            assert(a@.subrange(0, i + 1) =~= a@.subrange(0, i as int).push(a@[i as int]));
            assert(b@.subrange(0, i + 1) =~= b@.subrange(0, i as int).push(b@[i as int]));
        }
        i = i + 1;
    }
    if i == b.len() {
        false
    } else if i == a.len() {
        true
    } else {
        (a[i] as u32) < (b[i] as u32)
    }
}

/// Adds `t` to the strictly sorted names `out` where it belongs, unless it is there.
pub fn insert_sorted(out: &mut Vec<String>, t: &Vec<char>)
    requires
        strictly_sorted(texts(old(out)@)),
    ensures
        strictly_sorted(texts(final(out)@)),
        forall|v: Seq<char>| texts(final(out)@).contains(v) <==> (texts(old(out)@).contains(v) || v == t@),
{
    let ghost s = texts(out@);
    let mut p: usize = 0;
    while p < out.len() && chars_lt(&chars_of(out[p].as_str()), t)
        invariant
            p <= out.len(),
            s == texts(out@),
            strictly_sorted(s),
            forall|i: int| 0 <= i < p ==> text_lt(#[trigger] s[i], t@),
        decreases out.len() - p,
    {
        p = p + 1;
    }
    if p < out.len() && chars_eq(&chars_of(out[p].as_str()), t) {
        assert(s[p as int] == t@);
        assert forall|v: Seq<char>| texts(out@).contains(v) <==> (s.contains(v) || v == t@) by {
            if v == t@ {
                assert(s[p as int] == v);
            }
        }
        return;
    }
    proof {
        if p < out.len() {
            assert(!text_lt(s[p as int], t@));
            assert(s[p as int] != t@);
            lemma_text_lt_total(s[p as int], t@);
        }
    }
    out.insert(p, string_of(t));
    let ghost n = texts(out@);
    assert(n =~= s.subrange(0, p as int).push(t@) + s.subrange(p as int, s.len() as int));
    assert forall|i: int, j: int| 0 <= i < j < n.len() implies text_lt(#[trigger] n[i], #[trigger] n[j]) by {
        if j < p {
            assert(n[i] == s[i] && n[j] == s[j]);
        } else if j == p {
            assert(n[i] == s[i]);
        } else if i == p {
            assert(n[j] == s[j - 1]);
            if j - 1 > p {
                lemma_text_lt_transitive(t@, s[p as int], s[j - 1]);
            }
        } else if i < p {
            assert(n[i] == s[i] && n[j] == s[j - 1]);
        } else {
            assert(n[i] == s[i - 1] && n[j] == s[j - 1]);
        }
    }
    assert forall|v: Seq<char>| n.contains(v) <==> (s.contains(v) || v == t@) by {
        if s.contains(v) {
            let k = choose|k: int| 0 <= k < s.len() && s[k] == v;
            if k < p {
                assert(n[k] == v);
            } else {
                assert(n[k + 1] == v);
            }
        }
        if v == t@ {
            assert(n[p as int] == v);
        }
        if n.contains(v) {
            let k = choose|k: int| 0 <= k < n.len() && n[k] == v;
            if k < p {
                assert(s[k] == v);
            } else if k > p {
                assert(s[k - 1] == v);
            }
        }
    }
}

} // verus!

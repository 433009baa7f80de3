//! A table of named entries: the variables of a running program and the nodes of the
//! diagram it runs, each found by its name.
use vstd::prelude::*;

use crate::search::{
    first_index, lemma_first_index_at, lemma_first_index_facts, lemma_first_index_none,
    lemma_first_index_same,
};
use crate::text::{chars_eq, chars_of, eq_ignore_case, eq_ignore_case_chars, find, find_char, owned, slice_of};

verus! {

/// Whether an entry has the name `k`.
pub open spec fn key_is<T>(k: Seq<char>) -> spec_fn((Seq<char>, T)) -> bool {
    |e: (Seq<char>, T)| e.0 == k
}

/// Whether an entry's name matches `k` ignoring ASCII case.
pub open spec fn key_like<T>(k: Seq<char>) -> spec_fn((Seq<char>, T)) -> bool {
    |e: (Seq<char>, T)| eq_ignore_case(e.0, k)
}

/// The value of the first entry whose name satisfies `p`.
pub open spec fn first_value<T>(es: Seq<(Seq<char>, T)>, p: spec_fn((Seq<char>, T)) -> bool) -> Option<T> {
    let i = first_index(es, p);
    if 0 <= i < es.len() {
        Some(es[i].1)
    } else {
        None
    }
}

/// The value named `k`.
pub open spec fn lookup<T>(es: Seq<(Seq<char>, T)>, k: Seq<char>) -> Option<T> {
    first_value(es, key_is(k))
}

/// The first value whose name matches `k` ignoring ASCII case.
pub open spec fn lookup_like<T>(es: Seq<(Seq<char>, T)>, k: Seq<char>) -> Option<T> {
    first_value(es, key_like(k))
}

/// What a name in an expression refers to: the value of that exact name; else the first
/// value whose name matches it ignoring ASCII case; else, for a dotted name, the first value
/// whose name matches the part before the first dot ignoring ASCII case.
pub open spec fn resolve_name<T>(es: Seq<(Seq<char>, T)>, name: Seq<char>) -> Option<T> {
    if lookup(es, name) is Some {
        lookup(es, name)
    } else if lookup_like(es, name) is Some {
        lookup_like(es, name)
    } else if find(name, '.') >= 0 {
        lookup_like(es, name.subrange(0, find(name, '.')))
    } else {
        None
    }
}

/// The entries after setting `k` to `v`: the entry named `k` takes the new value where it
/// stands, or a new entry is appended.
pub open spec fn put<T>(es: Seq<(Seq<char>, T)>, k: Seq<char>, v: T) -> Seq<(Seq<char>, T)> {
    let i = first_index(es, key_is(k));
    if 0 <= i < es.len() {
        es.update(i, (k, v))
    } else {
        es.push((k, v))
    }
}

/// No two entries share a name.
pub open spec fn unique_keys<T>(es: Seq<(Seq<char>, T)>) -> bool {
    forall|i: int, j: int| 0 <= i < j < es.len() ==> #[trigger] es[i].0 != #[trigger] es[j].0
}

/// Named entries in the order they were first set.
pub struct Table<T> {
    entries: Vec<(String, T)>,
}

impl<T> View for Table<T> {
    type V = Seq<(Seq<char>, T)>;

    closed spec fn view(&self) -> Seq<(Seq<char>, T)> {
        self.entries@.map_values(|e: (String, T)| (e.0@, e.1))
    }
}

impl<T> Table<T> {
    pub fn new() -> (r: Table<T>)
        ensures
            r@ == Seq::<(Seq<char>, T)>::empty(),
    {
        let r = Table { entries: Vec::new() };
        assert(r@ =~= Seq::<(Seq<char>, T)>::empty());
        r
    }

    pub fn len(&self) -> (r: usize)
        ensures
            r == self@.len(),
    {
        self.entries.len()
    }

    /// Removes every entry.
    pub fn clear(&mut self)
        ensures
            final(self)@ == Seq::<(Seq<char>, T)>::empty(),
    {
        self.entries.clear();
        assert(self@ =~= Seq::<(Seq<char>, T)>::empty());
    }

    /// The name of the `i`-th entry.
    pub fn key_at(&self, i: usize) -> (r: &String)
        requires
            i < self@.len(),
        ensures
            r@ == self@[i as int].0,
    {
        &self.entries[i].0
    }

    /// The value of the `i`-th entry.
    pub fn value_at(&self, i: usize) -> (r: &T)
        requires
            i < self@.len(),
        ensures
            *r == self@[i as int].1,
    {
        &self.entries[i].1
    }

    fn position(&self, key: &Vec<char>) -> (r: Option<usize>)
        ensures
            match r {
                Some(i) => i < self@.len() && i as int == first_index(self@, key_is::<T>(key@)),
                None => first_index(self@, key_is::<T>(key@)) == -1,
            },
    {
        let mut i: usize = 0;
        while i < self.entries.len()
            invariant
                i <= self.entries.len(),
                self@.len() == self.entries.len(),
                forall|j: int| 0 <= j < i ==> !key_is::<T>(key@)(#[trigger] self@[j]),
            decreases self.entries.len() - i,
        {
            if chars_eq(&chars_of(self.entries[i].0.as_str()), key) {
                proof {
                    lemma_first_index_at(self@, key_is::<T>(key@), i as int);
                }
                return Some(i);
            }
            i = i + 1;
        }
        proof {
            lemma_first_index_none(self@, key_is::<T>(key@));
        }
        None
    }

    fn position_like(&self, key: &Vec<char>) -> (r: Option<usize>)
        ensures
            match r {
                Some(i) => i < self@.len() && i as int == first_index(self@, key_like::<T>(key@)),
                None => first_index(self@, key_like::<T>(key@)) == -1,
            },
    {
        let mut i: usize = 0;
        while i < self.entries.len()
            invariant
                i <= self.entries.len(),
                self@.len() == self.entries.len(),
                forall|j: int| 0 <= j < i ==> !key_like::<T>(key@)(#[trigger] self@[j]),
            decreases self.entries.len() - i,
        {
            if eq_ignore_case_chars(&chars_of(self.entries[i].0.as_str()), key) {
                proof {
                    lemma_first_index_at(self@, key_like::<T>(key@), i as int);
                }
                return Some(i);
            }
            i = i + 1;
        }
        proof {
            lemma_first_index_none(self@, key_like::<T>(key@));
        }
        None
    }

    /// The value named `key`.
    pub fn get(&self, key: &str) -> (r: Option<&T>)
        ensures
            match r {
                Some(v) => lookup(self@, key@) == Some(*v),
                None => lookup(self@, key@) is None,
            },
    {
        match self.position(&chars_of(key)) {
            Some(i) => Some(&self.entries[i].1),
            None => None,
        }
    }

    /// Whether some entry is named `key`.
    pub fn contains_key(&self, key: &str) -> (r: bool)
        ensures
            r == (lookup(self@, key@) is Some),
    {
        self.get(key).is_some()
    }

    /// The first value whose name matches `key` ignoring ASCII case.
    pub fn get_like(&self, key: &str) -> (r: Option<&T>)
        ensures
            match r {
                Some(v) => lookup_like(self@, key@) == Some(*v),
                None => lookup_like(self@, key@) is None,
            },
    {
        match self.position_like(&chars_of(key)) {
            Some(i) => Some(&self.entries[i].1),
            None => None,
        }
    }

    /// What `name` refers to, as `resolve_name` describes.
    pub fn resolve(&self, name: &str) -> (r: Option<&T>)
        ensures
            match r {
                Some(v) => resolve_name(self@, name@) == Some(*v),
                None => resolve_name(self@, name@) is None,
            },
    {
        let key = chars_of(name);
        match self.position(&key) {
            Some(i) => {
                return Some(&self.entries[i].1);
            },
            None => {},
        }
        match self.position_like(&key) {
            Some(i) => {
                return Some(&self.entries[i].1);
            },
            None => {},
        }
        match find_char(&key, '.') {
            Some(d) => {
                let base = slice_of(&key, 0, d);
                match self.position_like(&base) {
                    Some(i) => Some(&self.entries[i].1),
                    None => None,
                }
            },
            None => None,
        }
    }

    /// Sets the value named `key`, as `put` describes.
    pub fn insert(&mut self, key: &str, v: T)
        ensures
            final(self)@ == put(old(self)@, key@, v),
    {
        let k = chars_of(key);
        match self.position(&k) {
            Some(i) => {
                let ghost before = self.entries@;
                self.entries.set(i, (owned(key), v));
                assert(self@ =~= put(old(self)@, key@, v));
            },
            None => {
                self.entries.push((owned(key), v));
                assert(self@ =~= put(old(self)@, key@, v));
            },
        }
    }
}

/// The entries with each value replaced by its view.
pub open spec fn viewed<T: View>(es: Seq<(Seq<char>, T)>) -> Seq<(Seq<char>, T::V)> {
    es.map_values(|e: (Seq<char>, T)| (e.0, e.1@))
}

/// Setting a value and then viewing the entries is viewing them and setting the value's view.
pub proof fn lemma_put_viewed<T: View>(es: Seq<(Seq<char>, T)>, k: Seq<char>, v: T)
    ensures
        viewed(put(es, k, v)) == put(viewed(es), k, v@),
{
    let ves = viewed(es);
    assert forall|i: int| 0 <= i < es.len() implies key_is::<T>(k)(#[trigger] es[i]) == key_is::<
        T::V,
    >(k)(ves[i]) by {}
    lemma_first_index_same(es, key_is::<T>(k), ves, key_is::<T::V>(k));
    lemma_first_index_facts(es, key_is::<T>(k));
    assert(viewed(put(es, k, v)) =~= put(viewed(es), k, v@));
}

/// Looking a name up among viewed entries finds the view of what it finds among the entries.
pub proof fn lemma_lookup_viewed<T: View>(es: Seq<(Seq<char>, T)>, k: Seq<char>)
    ensures
        lookup(viewed(es), k) == match lookup(es, k) {
            Some(v) => Some(v@),
            None => None,
        },
{
    let ves = viewed(es);
    assert forall|i: int| 0 <= i < es.len() implies key_is::<T>(k)(#[trigger] es[i]) == key_is::<
        T::V,
    >(k)(ves[i]) by {}
    lemma_first_index_same(es, key_is::<T>(k), ves, key_is::<T::V>(k));
    lemma_first_index_facts(es, key_is::<T>(k));
}

/// After `k` is set to `v`, looking `k` up finds `v`, and looking any other name up finds
/// what it found before.
pub proof fn lemma_lookup_put<T>(es: Seq<(Seq<char>, T)>, k: Seq<char>, v: T, k2: Seq<char>)
    ensures
        lookup(put(es, k, v), k2) == if k2 == k {
            Some(v)
        } else {
            lookup(es, k2)
        },
{
    let r = put(es, k, v);
    lemma_first_index_facts(es, key_is::<T>(k));
    lemma_first_index_facts(es, key_is::<T>(k2));
    let i = first_index(es, key_is::<T>(k));
    if k2 == k {
        if 0 <= i < es.len() {
            assert forall|j: int| 0 <= j < i implies !key_is::<T>(k)(#[trigger] r[j]) by {
                assert(r[j] == es[j]);
            }
            lemma_first_index_at(r, key_is::<T>(k), i);
        } else {
            assert forall|j: int| 0 <= j < es.len() implies !key_is::<T>(k)(#[trigger] r[j]) by {
                assert(r[j] == es[j]);
            }
            lemma_first_index_at(r, key_is::<T>(k), es.len() as int);
        }
    } else {
        let j2 = first_index(es, key_is::<T>(k2));
        if 0 <= j2 < es.len() {
            assert(j2 != i);
            assert forall|j: int| 0 <= j < j2 implies !key_is::<T>(k2)(#[trigger] r[j]) by {
                if j != i {
                    assert(r[j] == es[j]);
                }
            }
            assert(r[j2] == es[j2]);
            lemma_first_index_at(r, key_is::<T>(k2), j2);
        } else {
            assert forall|j: int| 0 <= j < r.len() implies !key_is::<T>(k2)(#[trigger] r[j]) by {
                if j < es.len() && j != i {
                    assert(r[j] == es[j]);
                }
            }
            lemma_first_index_none(r, key_is::<T>(k2));
        }
    }
}

/// Looking a name up after an entry is appended finds what it found before, or else the
/// appended entry when it has that name.
pub proof fn lemma_lookup_push<T>(es: Seq<(Seq<char>, T)>, e: (Seq<char>, T), k: Seq<char>)
    ensures
        lookup(es.push(e), k) == if lookup(es, k) is Some {
            lookup(es, k)
        } else if e.0 == k {
            Some(e.1)
        } else {
            None
        },
{
    let r = es.push(e);
    lemma_first_index_facts(es, key_is::<T>(k));
    let i = first_index(es, key_is::<T>(k));
    if 0 <= i < es.len() {
        assert forall|j: int| 0 <= j < i implies !key_is::<T>(k)(#[trigger] r[j]) by {
            assert(r[j] == es[j]);
        }
        assert(r[i] == es[i]);
        lemma_first_index_at(r, key_is::<T>(k), i);
    } else if e.0 == k {
        assert forall|j: int| 0 <= j < es.len() implies !key_is::<T>(k)(#[trigger] r[j]) by {
            assert(r[j] == es[j]);
        }
        lemma_first_index_at(r, key_is::<T>(k), es.len() as int);
    } else {
        assert forall|j: int| 0 <= j < r.len() implies !key_is::<T>(k)(#[trigger] r[j]) by {
            if j < es.len() {
                assert(r[j] == es[j]);
            }
        }
        lemma_first_index_none(r, key_is::<T>(k));
    }
}

/// Setting a value keeps the names of a table distinct.
pub proof fn lemma_put_keeps_keys_unique<T>(es: Seq<(Seq<char>, T)>, k: Seq<char>, v: T)
    requires
        unique_keys(es),
    ensures
        unique_keys(put(es, k, v)),
        lookup(put(es, k, v), k) == Some(v),
{
    lemma_first_index_facts(es, key_is::<T>(k));
    let r = put(es, k, v);
    let i = first_index(es, key_is::<T>(k));
    if 0 <= i < es.len() {
        assert forall|a: int, b: int| 0 <= a < b < r.len() implies #[trigger] r[a].0 != #[trigger] r[b].0 by {
            if a != i && b != i {
                assert(r[a] == es[a] && r[b] == es[b]);
            } else if a == i {
                assert(r[b] == es[b]);
                assert(es[i].0 == k);
            } else {
                assert(r[a] == es[a]);
                assert(es[i].0 == k);
            }
        }
        lemma_first_index_at(r, key_is::<T>(k), i);
    } else {
        assert forall|a: int, b: int| 0 <= a < b < r.len() implies #[trigger] r[a].0 != #[trigger] r[b].0 by {
            if b < es.len() {
                assert(r[a] == es[a] && r[b] == es[b]);
            } else {
                assert(r[a] == es[a]);
                assert(!key_is::<T>(k)(es[a]));
            }
        }
        assert forall|j: int| 0 <= j < es.len() implies !key_is::<T>(k)(#[trigger] r[j]) by {
            assert(r[j] == es[j]);
        }
        lemma_first_index_at(r, key_is::<T>(k), es.len() as int);
    }
}

} // verus!

//! A map from text keys to values that keeps its entries in insertion order.

use crate::text::same_text;
use vstd::prelude::*;

verus! {

/// `i` is the first position of key `k` among `entries`.
pub open spec fn is_first_key<T>(entries: Seq<(Seq<char>, T)>, k: Seq<char>, i: int) -> bool {
    &&& 0 <= i < entries.len()
    &&& entries[i].0 == k
    &&& forall|j: int| 0 <= j < i ==> entries[j].0 != k
}

/// `k` is the key of one of `entries`.
pub open spec fn has_key<T>(entries: Seq<(Seq<char>, T)>, k: Seq<char>) -> bool {
    exists|i: int| 0 <= i < entries.len() && entries[i].0 == k
}

/// The value stored under the first occurrence of `k`, if any.
pub open spec fn value_of<T>(entries: Seq<(Seq<char>, T)>, k: Seq<char>) -> Option<T> {
    if exists|i: int| is_first_key(entries, k, i) {
        let i = choose|i: int| is_first_key(entries, k, i);
        Some(entries[i].1)
    } else {
        None
    }
}

/// The first occurrence of a key is unique, and one exists exactly when the key is present.
pub proof fn lemma_first_key<T>(entries: Seq<(Seq<char>, T)>, k: Seq<char>, i: int)
    requires
        is_first_key(entries, k, i),
    ensures
        has_key(entries, k),
        value_of(entries, k) == Some(entries[i].1),
{
    let c = choose|c: int| is_first_key(entries, k, c);
    if c < i {
        assert(entries[c].0 != k);
    } else if i < c {
        assert(entries[i].0 != k);
    }
}

/// A key that is absent has no value.
pub proof fn lemma_absent_key<T>(entries: Seq<(Seq<char>, T)>, k: Seq<char>)
    requires
        !has_key(entries, k),
    ensures
        value_of(entries, k) is None,
{
    if exists|i: int| is_first_key(entries, k, i) {
        let i = choose|i: int| is_first_key(entries, k, i);
        assert(0 <= i < entries.len() && entries[i].0 == k);
    }
}

/// No key occurs twice among `entries`.
pub open spec fn keys_unique<T>(entries: Seq<(Seq<char>, T)>) -> bool {
    forall|i: int, j: int|
        0 <= i < entries.len() && 0 <= j < entries.len() && i != j ==> entries[i].0 != entries[j].0
}

proof fn lemma_insert_lookup<T>(before: Seq<(Seq<char>, T)>, after: Seq<(Seq<char>, T)>, k: Seq<char>, v: T, found: Option<usize>)
    requires
        match found {
            Some(i) => is_first_key(before, k, i as int) && after == before.update(i as int, (k, v)),
            None => !has_key(before, k) && after == before.push((k, v)),
        },
    ensures
        value_of(after, k) == Some(v),
        forall|k2: Seq<char>| k2 != k ==> value_of(after, k2) == value_of(before, k2),
        forall|k2: Seq<char>| has_key(after, k2) <==> (has_key(before, k2) || k2 == k),
{
    let i: int = match found {
        Some(i) => i as int,
        None => before.len() as int,
    };
    assert(is_first_key(after, k, i));
    lemma_first_key(after, k, i);
    assert forall|k2: Seq<char>| k2 != k implies value_of(after, k2) == value_of(before, k2) by {
        if exists|j: int| is_first_key(before, k2, j) {
            let j = choose|j: int| is_first_key(before, k2, j);
            assert(j != i);
            assert(is_first_key(after, k2, j));
            lemma_first_key(after, k2, j);
            lemma_first_key(before, k2, j);
        } else {
            if has_key(after, k2) {
                let j = choose|j: int| 0 <= j < after.len() && after[j].0 == k2;
                assert(before[j].0 == k2);
                let f = first_key_index(before, k2, j);
            }
            if has_key(before, k2) {
                let j = choose|j: int| 0 <= j < before.len() && before[j].0 == k2;
                let f = first_key_index(before, k2, j);
            }
            lemma_absent_key(after, k2);
            lemma_absent_key(before, k2);
        }
    }
    assert forall|k2: Seq<char>| has_key(after, k2) <==> (has_key(before, k2) || k2 == k) by {
        if has_key(after, k2) && k2 != k {
            let j = choose|j: int| 0 <= j < after.len() && after[j].0 == k2;
            assert(before[j].0 == k2);
        }
        if has_key(before, k2) && k2 != k {
            let j = choose|j: int| 0 <= j < before.len() && before[j].0 == k2;
            assert(after[j].0 == k2);
        }
    }
}

/// The first position of `k` at or before `i`.
pub proof fn first_key_index<T>(entries: Seq<(Seq<char>, T)>, k: Seq<char>, i: int) -> (f: int)
    requires
        0 <= i < entries.len(),
        entries[i].0 == k,
    ensures
        is_first_key(entries, k, f),
    decreases i,
{
    if exists|j: int| 0 <= j < i && entries[j].0 == k {
        let j = choose|j: int| 0 <= j < i && entries[j].0 == k;
        first_key_index(entries, k, j)
    } else {
        i
    }
}

/// Text keys to values, in insertion order, each key once.
#[derive(Debug)]
pub struct StringMap<T> {
    entries: Vec<(String, T)>,
}

impl<T> View for StringMap<T> {
    type V = Seq<(Seq<char>, T)>;

    closed spec fn view(&self) -> Seq<(Seq<char>, T)> {
        self.entries@.map_values(|e: (String, T)| (e.0@, e.1))
    }
}

impl<T> StringMap<T> {
    #[verifier::type_invariant]
    closed spec fn inv(&self) -> bool {
        keys_unique(self@)
    }

    /// An empty map.
    pub fn new() -> (r: Self)
        ensures
            r@ == Seq::<(Seq<char>, T)>::empty(),
    {
        let r = StringMap { entries: Vec::new() };
        assert(r@ =~= Seq::<(Seq<char>, T)>::empty());
        r
    }

    /// The number of entries; no key occurs twice.
    pub fn len(&self) -> (r: usize)
        ensures
            r == self@.len(),
            keys_unique(self@),
    {
        proof {
            use_type_invariant(self);
        }
        self.entries.len()
    }

    /// The key of entry `i`.
    pub fn key_at(&self, i: usize) -> (r: &String)
        requires
            i < self@.len(),
        ensures
            r@ == self@[i as int].0,
    {
        &self.entries[i].0
    }

    /// The value of entry `i`.
    pub fn value_at(&self, i: usize) -> (r: &T)
        requires
            i < self@.len(),
        ensures
            *r == self@[i as int].1,
    {
        &self.entries[i].1
    }

    /// The first position of key `k`, if it is present.
    pub fn find(&self, k: &str) -> (r: Option<usize>)
        ensures
            match r {
                Some(i) => is_first_key(self@, k@, i as int),
                None => !has_key(self@, k@),
            },
    {
        let mut i: usize = 0;
        while i < self.entries.len()
            invariant
                i <= self.entries@.len(),
                forall|j: int| 0 <= j < i ==> self@[j].0 != k@,
            decreases self.entries@.len() - i,
        {
            if same_text(self.entries[i].0.as_str(), k) {
                return Some(i);
            }
            i = i + 1;
        }
        None
    }

    /// Whether key `k` is present.
    pub fn contains_key(&self, k: &str) -> (r: bool)
        ensures
            r == has_key(self@, k@),
    {
        self.find(k).is_some()
    }

    /// The value stored under `k`, if any.
    pub fn get(&self, k: &str) -> (r: Option<&T>)
        ensures
            match r {
                Some(v) => value_of(self@, k@) == Some(*v),
                None => value_of(self@, k@) is None,
            },
    {
        match self.find(k) {
            Some(i) => {
                proof {
                    lemma_first_key(self@, k@, i as int);
                }
                Some(&self.entries[i].1)
            },
            None => {
                proof {
                    lemma_absent_key(self@, k@);
                }
                None
            },
        }
    }

    /// Stores `v` under `k`: in place of its first occurrence, else at the end.
    pub fn insert(&mut self, k: String, v: T)
        ensures
            has_key(old(self)@, k@) ==> exists|i: int|
                is_first_key(old(self)@, k@, i) && final(self)@ == old(self)@.update(i, (k@, v)),
            !has_key(old(self)@, k@) ==> final(self)@ == old(self)@.push((k@, v)),
            value_of(final(self)@, k@) == Some(v),
            forall|k2: Seq<char>| k2 != k@ ==> value_of(final(self)@, k2) == value_of(old(self)@, k2),
            forall|k2: Seq<char>| has_key(final(self)@, k2) <==> (has_key(old(self)@, k2) || k2 == k@),
    {
        proof {
            use_type_invariant(&*self);
        }
        let ghost before = self@;
        let found = self.find(k.as_str());
        let mut taken = StringMap::new();
        core::mem::swap(self, &mut taken);
        let StringMap { entries: mut entries } = taken;
        assert(entries@.map_values(|e: (String, T)| (e.0@, e.1)) == before);
        match found {
            Some(i) => {
                entries.set(i, (k, v));
                let ghost after = entries@.map_values(|e: (String, T)| (e.0@, e.1));
                assert(after =~= before.update(i as int, (before[i as int].0, v)));
            },
            None => {
                entries.push((k, v));
                let ghost after = entries@.map_values(|e: (String, T)| (e.0@, e.1));
                assert(after =~= before.push((k@, v)));
            },
        }
        let mut rebuilt = StringMap { entries };
        core::mem::swap(self, &mut rebuilt);
        proof {
            lemma_insert_lookup(before, self@, k@, v, found);
        }
    }
}

/// Texts keyed by text, as characters.
pub open spec fn text_pairs(entries: Seq<(Seq<char>, String)>) -> Seq<(Seq<char>, Seq<char>)> {
    entries.map_values(|e: (Seq<char>, String)| (e.0, e.1@))
}

impl Clone for StringMap<String> {
    fn clone(&self) -> (r: Self)
        ensures
            r@ == self@,
    {
        proof {
            use_type_invariant(self);
        }
        let mut entries: Vec<(String, String)> = Vec::new();
        let mut i: usize = 0;
        while i < self.entries.len()
            invariant
                i <= self.entries@.len(),
                entries@.len() == i,
                forall|j: int| 0 <= j < i ==> #[trigger] entries@[j] == self.entries@[j],
            decreases self.entries@.len() - i,
        {
            let key = self.entries[i].0.clone();
            let value = self.entries[i].1.clone();
            entries.push((key, value));
            i = i + 1;
        }
        assert(entries@ =~= self.entries@);
        let r = StringMap { entries };
        r
    }
}

} // verus!

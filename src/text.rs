//! Small text operations on manifest entries such as `"Group.Mode"`.

use vstd::prelude::*;

verus! {

/// `i` is the position of the first `'.'` in `s`.
pub open spec fn is_first_dot(s: Seq<char>, i: int) -> bool {
    &&& 0 <= i < s.len()
    &&& s[i] == '.'
    &&& forall|j: int| 0 <= j < i ==> s[j] != '.'
}

/// `s` split at its first `'.'`: the text before it and the text after it.
pub open spec fn split_dot(s: Seq<char>) -> Option<(Seq<char>, Seq<char>)> {
    if exists|i: int| is_first_dot(s, i) {
        let i = choose|i: int| is_first_dot(s, i);
        Some((s.take(i), s.skip(i + 1)))
    } else {
        None
    }
}

/// The text before the first `'.'`, or all of `s` when it holds none.
pub open spec fn dot_head(s: Seq<char>) -> Seq<char> {
    match split_dot(s) {
        Some(parts) => parts.0,
        None => s,
    }
}

proof fn lemma_first_dot_unique(s: Seq<char>, i: int, k: int)
    requires
        is_first_dot(s, i),
        is_first_dot(s, k),
    ensures
        i == k,
{
    if k < i {
        assert(s[k] != '.');
    } else if i < k {
        assert(s[i] != '.');
    }
}

/// Splits `s` at its first `'.'`.
pub fn split_once_dot(s: &str) -> (r: Option<(String, String)>)
    ensures
        match r {
            Some(parts) => split_dot(s@) == Some((parts.0@, parts.1@)),
            None => split_dot(s@) is None,
        },
{
    let n = s.unicode_len();
    let mut i: usize = 0;
    while i < n
        invariant
            n == s@.len(),
            i <= n,
            forall|j: int| 0 <= j < i ==> s@[j] != '.',
        decreases n - i,
    {
        if s.get_char(i) == '.' {
            proof {
                assert(is_first_dot(s@, i as int));
                let k = choose|k: int| is_first_dot(s@, k);
                lemma_first_dot_unique(s@, i as int, k);
            }
            let head = s.substring_char(0, i).to_owned();
            let tail = s.substring_char(i + 1, n).to_owned();
            return Some((head, tail));
        }
        i = i + 1;
    }
    None
}

/// Whether two texts hold the same characters.
pub fn same_text(a: &str, b: &str) -> (r: bool)
    ensures
        r == (a@ == b@),
{
    let n = a.unicode_len();
    if n != b.unicode_len() {
        return false;
    }
    let mut i: usize = 0;
    while i < n
        invariant
            n == a@.len(),
            n == b@.len(),
            i <= n,
            forall|j: int| 0 <= j < i ==> a@[j] == b@[j],
        decreases n - i,
    {
        if a.get_char(i) != b.get_char(i) {
            return false;
        }
        i = i + 1;
    }
    assert(a@ =~= b@);
    true
}

/// The characters of each text in `v`.
pub open spec fn texts(v: Seq<String>) -> Seq<Seq<char>> {
    v.map_values(|s: String| s@)
}

/// The texts of `v` as a set.
pub open spec fn text_set(v: Seq<Seq<char>>) -> Set<Seq<char>> {
    Set::new(|x: Seq<char>| v.contains(x))
}

/// The texts of `v` joined with `','` between neighbours.
pub open spec fn join_comma(v: Seq<Seq<char>>) -> Seq<char>
    decreases v.len(),
{
    if v.len() == 0 {
        Seq::empty()
    } else if v.len() == 1 {
        v[0]
    } else {
        join_comma(v.drop_last()) + seq![','] + v.last()
    }
}

/// Whether `v` holds a text equal to `s`.
pub fn contains_text(v: &Vec<String>, s: &str) -> (r: bool)
    ensures
        r == texts(v@).contains(s@),
{
    let mut i: usize = 0;
    while i < v.len()
        invariant
            i <= v@.len(),
            forall|j: int| 0 <= j < i ==> v@[j]@ != s@,
        decreases v@.len() - i,
    {
        if same_text(v[i].as_str(), s) {
            assert(texts(v@)[i as int] == s@);
            return true;
        }
        i = i + 1;
    }
    assert forall|j: int| 0 <= j < texts(v@).len() implies texts(v@)[j] != s@ by {
        assert(v@[j]@ != s@);
    }
    false
}

/// Whether every text of `a` occurs in `b`.
fn all_texts_in(a: &Vec<String>, b: &Vec<String>) -> (r: bool)
    ensures
        r == (forall|x: Seq<char>| texts(a@).contains(x) ==> texts(b@).contains(x)),
{
    let mut i: usize = 0;
    while i < a.len()
        invariant
            i <= a@.len(),
            forall|j: int| 0 <= j < i ==> texts(b@).contains(#[trigger] texts(a@)[j]),
        decreases a@.len() - i,
    {
        if !contains_text(b, a[i].as_str()) {
            assert(texts(a@).contains(texts(a@)[i as int]));
            return false;
        }
        i = i + 1;
    }
    assert forall|x: Seq<char>| texts(a@).contains(x) implies texts(b@).contains(x) by {
        let j = choose|j: int| 0 <= j < texts(a@).len() && texts(a@)[j] == x;
    }
    true
}

/// Whether `a` and `b` hold the same texts, regardless of order and repetition.
pub fn same_text_set(a: &Vec<String>, b: &Vec<String>) -> (r: bool)
    ensures
        r == (text_set(texts(a@)) == text_set(texts(b@))),
{
    let ab = all_texts_in(a, b);
    let ba = all_texts_in(b, a);
    if ab && ba {
        assert(text_set(texts(a@)) =~= text_set(texts(b@)));
        true
    } else {
        if ab {
            let ghost x = choose|x: Seq<char>| texts(b@).contains(x) && !texts(a@).contains(x);
            assert(text_set(texts(b@)).contains(x));
        } else {
            let ghost x = choose|x: Seq<char>| texts(a@).contains(x) && !texts(b@).contains(x);
            assert(text_set(texts(a@)).contains(x));
        }
        false
    }
}

/// The texts of `v` joined with `','` between neighbours.
pub fn join_with_comma(v: &Vec<String>) -> (r: String)
    ensures
        r@ == join_comma(texts(v@)),
{
    let mut r = String::new();
    if v.len() == 0 {
        return r;
    }
    r.append(v[0].as_str());
    assert(texts(v@).take(1) =~= seq![v@[0]@]);
    let mut i: usize = 1;
    while i < v.len()
        invariant
            1 <= i <= v@.len(),
            r@ == join_comma(texts(v@).take(i as int)),
        decreases v@.len() - i,
    {
        proof {
            reveal_strlit(",");
        }
        r.append(",");
        r.append(v[i].as_str());
        assert(texts(v@).take(i + 1).drop_last() =~= texts(v@).take(i as int));
        i = i + 1;
    }
    assert(texts(v@).take(v@.len() as int) =~= texts(v@));
    r
}

/// A copy of `v`.
pub fn copy_texts(v: &Vec<String>) -> (r: Vec<String>)
    ensures
        r@ == v@,
{
    let mut r: Vec<String> = Vec::new();
    let mut i: usize = 0;
    while i < v.len()
        invariant
            i <= v@.len(),
            r@ == v@.take(i as int),
        decreases v@.len() - i,
    {
        r.push(v[i].clone());
        assert(v@.take(i + 1) =~= v@.take(i as int).push(v@[i as int]));
        i = i + 1;
    }
    assert(v@.take(v@.len() as int) =~= v@);
    r
}

/// The text before the first `'.'` of `s`, or all of `s` when it holds none.
pub fn head_before_dot(s: &str) -> (r: String)
    ensures
        r@ == dot_head(s@),
{
    match split_once_dot(s) {
        Some(parts) => parts.0,
        None => s.to_owned(),
    }
}

/// Whether `s` reads `g.m`, split at its first `'.'`.
pub fn names_pair(s: &str, g: &str, m: &str) -> (r: bool)
    ensures
        r == (split_dot(s@) == Some((g@, m@))),
{
    match split_once_dot(s) {
        Some(parts) => same_text(parts.0.as_str(), g) && same_text(parts.1.as_str(), m),
        None => false,
    }
}

/// `a`, then `b`, then `c`.
pub fn concat3(a: &str, b: &str, c: &str) -> (r: String)
    ensures
        r@ == a@ + b@ + c@,
{
    let mut r = a.to_owned();
    r.append(b);
    r.append(c);
    r
}

/// `a`, `b`, `c`, `d`, then `e`.
pub fn concat5(a: &str, b: &str, c: &str, d: &str, e: &str) -> (r: String)
    ensures
        r@ == a@ + b@ + c@ + d@ + e@,
{
    let mut r = a.to_owned();
    r.append(b);
    r.append(c);
    r.append(d);
    r.append(e);
    r
}

} // verus!

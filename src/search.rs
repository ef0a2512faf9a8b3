//! The first hit of a scan over a sequence.

use vstd::prelude::*;

verus! {

/// The first `Some` that `f` gives over `s`, in order.
pub open spec fn first_some<A, E>(s: Seq<A>, f: spec_fn(A) -> Option<E>) -> Option<E>
    decreases s.len(),
{
    if s.len() == 0 {
        None
    } else {
        match f(s[0]) {
            Some(e) => Some(e),
            None => first_some(s.drop_first(), f),
        }
    }
}

/// One step of a scan: the first hit from `i` on is the hit at `i`, or the
/// first hit from `i + 1` on.
pub proof fn lemma_first_some_step<A, E>(s: Seq<A>, f: spec_fn(A) -> Option<E>, i: int)
    requires
        0 <= i < s.len(),
    ensures
        first_some(s.skip(i), f) == match f(s[i]) {
            Some(e) => Some(e),
            None => first_some(s.skip(i + 1), f),
        },
{
    assert(s.skip(i)[0] == s[i]);
    assert(s.skip(i).drop_first() =~= s.skip(i + 1));
}

/// A scan starts at the beginning and ends with nothing left.
pub proof fn lemma_first_some_ends<A, E>(s: Seq<A>, f: spec_fn(A) -> Option<E>)
    ensures
        first_some(s.skip(0), f) == first_some(s, f),
        first_some(s.skip(s.len() as int), f) is None,
{
    assert(s.skip(0) =~= s);
    assert(s.skip(s.len() as int).len() == 0);
}

/// Scanning one more element: the first hit is the earlier one, else the new one.
pub proof fn lemma_first_some_push<A, E>(s: Seq<A>, f: spec_fn(A) -> Option<E>, x: A)
    ensures
        first_some(s.push(x), f) == match first_some(s, f) {
            Some(e) => Some(e),
            None => f(x),
        },
    decreases s.len(),
{
    if s.len() == 0 {
        assert(s.push(x)[0] == x);
        assert(s.push(x).drop_first() =~= Seq::<A>::empty());
        assert(first_some(Seq::<A>::empty(), f) is None);
        assert(first_some(s, f) is None);
    } else {
        assert(s.push(x)[0] == s[0]);
        assert(s.push(x).drop_first() =~= s.drop_first().push(x));
        lemma_first_some_push(s.drop_first(), f, x);
        assert(first_some(s.push(x), f) == match f(s[0]) {
            Some(e) => Some(e),
            None => first_some(s.drop_first().push(x), f),
        });
    }
}

/// A hit within a prefix is the first hit of the whole sequence.
pub proof fn lemma_first_some_prefix<A, E>(s: Seq<A>, f: spec_fn(A) -> Option<E>, m: int)
    requires
        0 <= m <= s.len(),
        first_some(s.take(m), f) is Some,
    ensures
        first_some(s, f) == first_some(s.take(m), f),
    decreases m,
{
    if m > 0 {
        assert(s.take(m)[0] == s[0]);
        if f(s[0]) is None {
            assert(s.take(m).drop_first() =~= s.drop_first().take(m - 1));
            lemma_first_some_prefix(s.drop_first(), f, m - 1);
        }
    }
}

} // verus!

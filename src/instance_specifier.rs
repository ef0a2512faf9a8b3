//! Instance specifiers: `/`-separated paths of `Package.ShortName` elements.

use crate::search::{first_some, lemma_first_some_prefix, lemma_first_some_push};
use vstd::prelude::*;

verus! {

/// Why a text is not an instance specifier.
#[derive(Debug)]
pub enum InstanceSpecifierError {
    InvalidMetaModelShortname(String),
    InvalidMetaModelPath(String),
}

/// What is wrong with one path element.
#[derive(PartialEq, Eq, Structural)]
pub enum PathElementFault {
    Empty,
    NotAShortname,
}

/// The parts of `s` between `'/'` separators, in order, empty ones included.
pub open spec fn segments(s: Seq<char>) -> Seq<Seq<char>>
    decreases s.len(),
{
    if s.len() == 0 {
        seq![Seq::<char>::empty()]
    } else {
        let prev = segments(s.drop_last());
        if s.last() == '/' {
            prev.push(Seq::<char>::empty())
        } else {
            prev.update(prev.len() - 1, prev.last().push(s.last()))
        }
    }
}

/// The number of `'.'` in `p`.
pub open spec fn dot_count(p: Seq<char>) -> nat
    decreases p.len(),
{
    if p.len() == 0 {
        0
    } else {
        dot_count(p.drop_last()) + if p.last() == '.' {
            1nat
        } else {
            0nat
        }
    }
}

/// A path element must be non-empty and hold exactly one `'.'`.
pub open spec fn element_fault(p: Seq<char>) -> Option<PathElementFault> {
    if p.len() == 0 {
        Some(PathElementFault::Empty)
    } else if dot_count(p) != 1 {
        Some(PathElementFault::NotAShortname)
    } else {
        None
    }
}

/// The check of each path element.
pub open spec fn element_check() -> spec_fn(Seq<char>) -> Option<PathElementFault> {
    |p: Seq<char>| element_fault(p)
}

/// The fault of the first faulty element of `s`, if any.
pub open spec fn identifier_fault(s: Seq<char>) -> Option<PathElementFault> {
    first_some(segments(s), element_check())
}

proof fn lemma_segments_grow(s: Seq<char>, i: int, j: int)
    requires
        0 <= i <= j <= s.len(),
    ensures
        segments(s.take(i)).len() >= 1,
        segments(s.take(j)).len() >= segments(s.take(i)).len(),
        segments(s.take(j)).take(segments(s.take(i)).len() - 1) == segments(s.take(i)).drop_last(),
    decreases j - i,
{
    lemma_segments_nonempty(s.take(i));
    if j > i {
        lemma_segments_grow(s, i, j - 1);
        lemma_segments_nonempty(s.take(j - 1));
        assert(s.take(j).drop_last() =~= s.take(j - 1));
        let prev = segments(s.take(j - 1));
        let k = segments(s.take(i)).len() - 1;
        assert(segments(s.take(j)).take(k) =~= prev.take(k));
    } else {
        assert(segments(s.take(j)).take(segments(s.take(i)).len() - 1) =~= segments(s.take(i)).drop_last());
    }
}

proof fn lemma_segments_nonempty(s: Seq<char>)
    ensures
        segments(s).len() >= 1,
    decreases s.len(),
{
    if s.len() > 0 {
        lemma_segments_nonempty(s.drop_last());
    }
}

/// A text that names a model element: `/`-separated elements, each of the
/// form `Package.ShortName`.
#[derive(Debug, Clone, PartialEq, Eq, PartialOrd, Ord)]
pub struct InstanceSpecifier<'a> {
    meta_model_identifier: &'a str,
}

impl<'a> InstanceSpecifier<'a> {
    /// The text of the specifier.
    pub closed spec fn spec_text(&self) -> Seq<char> {
        self.meta_model_identifier@
    }

    pub fn new(meta_model_identifier: &'a str) -> (r: Result<Self, InstanceSpecifierError>)
        ensures
            Self::accepts(meta_model_identifier, r),
    {
        InstanceSpecifier::validate(meta_model_identifier)
    }

    pub fn create(meta_model_identifier: &'a str) -> (r: Result<Self, InstanceSpecifierError>)
        ensures
            Self::accepts(meta_model_identifier, r),
    {
        InstanceSpecifier::validate(meta_model_identifier)
    }

    /// `r` is what checking `id` gives: the specifier when every element is
    /// valid, else the error of the first faulty element, naming `id`.
    pub open spec fn accepts(id: &str, r: Result<Self, InstanceSpecifierError>) -> bool {
        match identifier_fault(id@) {
            None => r is Ok && r->Ok_0.spec_text() == id@,
            Some(PathElementFault::Empty) => r matches Err(InstanceSpecifierError::InvalidMetaModelPath(t)) && t@ == id@,
            Some(PathElementFault::NotAShortname) => r matches Err(InstanceSpecifierError::InvalidMetaModelShortname(t)) && t@ == id@,
        }
    }

    fn validate(meta_model_identifier: &'a str) -> (r: Result<Self, InstanceSpecifierError>)
        ensures
            Self::accepts(meta_model_identifier, r),
    {
        let ghost s = meta_model_identifier@;
        let n = meta_model_identifier.unicode_len();
        let mut cur_len: usize = 0;
        let mut cur_dots: usize = 0;
        let mut i: usize = 0;
        assert(s.take(0) =~= Seq::<char>::empty());
        while i < n
            invariant
                n == s.len(),
                s == meta_model_identifier@,
                i <= n,
                segments(s.take(i as int)).len() >= 1,
                cur_len == segments(s.take(i as int)).last().len(),
                cur_dots == dot_count(segments(s.take(i as int)).last()),
                cur_dots <= cur_len <= i,
                first_some(segments(s.take(i as int)).drop_last(), element_check()) is None,
            decreases n - i,
        {
            let ghost segs = segments(s.take(i as int));
            let ghost cur = segs.last();
            assert(s.take(i + 1).drop_last() =~= s.take(i as int));
            assert(s.take(i + 1).last() == s[i as int]);
            let c = meta_model_identifier.get_char(i);
            if c == '/' {
                proof {
                    lemma_segments_grow(s, i + 1, n as int);
                    assert(s.take(n as int) =~= s);
                    assert(segments(s.take(i + 1)).drop_last() =~= segs);
                    assert(segs =~= segs.drop_last().push(cur));
                    lemma_first_some_push(segs.drop_last(), element_check(), cur);
                }
                if cur_len == 0 || cur_dots != 1 {
                    proof {
                        let whole = segments(s);
                        assert(whole.take(segs.len() as int) == segs);
                        lemma_first_some_prefix(whole, element_check(), segs.len() as int);
                    }
                    if cur_len == 0 {
                        return Err(InstanceSpecifierError::InvalidMetaModelPath(meta_model_identifier.to_owned()));
                    } else {
                        return Err(InstanceSpecifierError::InvalidMetaModelShortname(meta_model_identifier.to_owned()));
                    }
                }
                cur_len = 0;
                cur_dots = 0;
            } else {
                let ghost next = cur.push(c);
                assert(next.drop_last() =~= cur);
                if c == '.' {
                    cur_dots = cur_dots + 1;
                }
                cur_len = cur_len + 1;
                assert(segments(s.take(i + 1)).drop_last() =~= segs.drop_last());
            }
            i = i + 1;
        }
        assert(s.take(n as int) =~= s);
        let ghost segs = segments(s);
        proof {
            assert(segs =~= segs.drop_last().push(segs.last()));
            lemma_first_some_push(segs.drop_last(), element_check(), segs.last());
        }
        if cur_len == 0 {
            return Err(InstanceSpecifierError::InvalidMetaModelPath(meta_model_identifier.to_owned()));
        }
        if cur_dots != 1 {
            return Err(InstanceSpecifierError::InvalidMetaModelShortname(meta_model_identifier.to_owned()));
        }
        Ok(Self { meta_model_identifier })
    }

    /// The text of the specifier.
    pub fn as_str(&self) -> (r: &'a str)
        ensures
            r@ == self.spec_text(),
    {
        self.meta_model_identifier
    }
}

} // verus!

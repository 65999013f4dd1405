//! Finding the first element of a sequence that satisfies a predicate.

use vstd::prelude::*;

verus! {

/// The index of the first element of `s` that satisfies `p`, if there is one.
pub open spec fn first_index<T>(s: Seq<T>, p: spec_fn(T) -> bool) -> Option<int>
    decreases s.len(),
{
    if s.len() == 0 {
        None
    } else if p(s[0]) {
        Some(0)
    } else {
        match first_index(s.drop_first(), p) {
            Some(i) => Some(i + 1),
            None => None,
        }
    }
}

/// `i` is the first index whose element satisfies `p`.
pub open spec fn is_first_index<T>(s: Seq<T>, p: spec_fn(T) -> bool, i: int) -> bool {
    &&& 0 <= i < s.len()
    &&& p(s[i])
    &&& forall|k: int| 0 <= k < i ==> !p(#[trigger] s[k])
}

/// `first_index` names the first satisfying index, and is `None` exactly when
/// no element satisfies `p`.
pub proof fn lemma_first_index<T>(s: Seq<T>, p: spec_fn(T) -> bool)
    ensures
        match first_index(s, p) {
            Some(i) => is_first_index(s, p, i),
            None => forall|k: int| 0 <= k < s.len() ==> !p(#[trigger] s[k]),
        },
    decreases s.len(),
{
    if s.len() > 0 && !p(s[0]) {
        lemma_first_index(s.drop_first(), p);
        match first_index(s.drop_first(), p) {
            Some(i) => {
                assert forall|k: int| 0 <= k < i + 1 implies !p(#[trigger] s[k]) by {
                    if k > 0 {
                        assert(s[k] == s.drop_first()[k - 1]);
                    }
                }
            },
            None => {
                assert forall|k: int| 0 <= k < s.len() implies !p(#[trigger] s[k]) by {
                    if k > 0 {
                        assert(s[k] == s.drop_first()[k - 1]);
                    }
                }
            },
        }
    }
}

/// A first satisfying index is what `first_index` gives.
pub proof fn lemma_first_index_is<T>(s: Seq<T>, p: spec_fn(T) -> bool, i: int)
    requires
        is_first_index(s, p, i),
    ensures
        first_index(s, p) == Some(i),
{
    lemma_first_index(s, p);
    match first_index(s, p) {
        Some(j) => {
            if j < i {
                assert(!p(s[j]));
            } else if i < j {
                assert(!p(s[i]));
            }
        },
        None => {
            assert(!p(s[i]));
        },
    }
}

/// With no satisfying element, `first_index` is `None`.
pub proof fn lemma_first_index_none<T>(s: Seq<T>, p: spec_fn(T) -> bool)
    requires
        forall|k: int| 0 <= k < s.len() ==> !p(#[trigger] s[k]),
    ensures
        first_index(s, p) is None,
{
    lemma_first_index(s, p);
    if let Some(i) = first_index(s, p) {
        assert(p(s[i]));
    }
}

/// The first satisfying index of `a + b`: the one in `a` if there is one,
/// else the one in `b` shifted past `a`.
pub proof fn lemma_first_index_append<T>(a: Seq<T>, b: Seq<T>, p: spec_fn(T) -> bool)
    ensures
        first_index(a + b, p) == match first_index(a, p) {
            Some(i) => Some(i),
            None => match first_index(b, p) {
                Some(j) => Some(j + a.len()),
                None => None,
            },
        },
{
    lemma_first_index(a, p);
    lemma_first_index(b, p);
    let s = a + b;
    match first_index(a, p) {
        Some(i) => {
            assert forall|k: int| 0 <= k < i implies !p(#[trigger] s[k]) by {
                assert(s[k] == a[k]);
            }
            assert(s[i] == a[i]);
            lemma_first_index_is(s, p, i);
        },
        None => {
            match first_index(b, p) {
                Some(j) => {
                    assert forall|k: int| 0 <= k < j + a.len() implies !p(#[trigger] s[k]) by {
                        if k < a.len() {
                            assert(s[k] == a[k]);
                        } else {
                            assert(s[k] == b[k - a.len()]);
                        }
                    }
                    assert(s[j + a.len()] == b[j]);
                    lemma_first_index_is(s, p, j + a.len());
                },
                None => {
                    assert forall|k: int| 0 <= k < s.len() implies !p(#[trigger] s[k]) by {
                        if k < a.len() {
                            assert(s[k] == a[k]);
                        } else {
                            assert(s[k] == b[k - a.len()]);
                        }
                    }
                    lemma_first_index_none(s, p);
                },
            }
        },
    }
}

} // verus!

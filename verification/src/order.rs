//! Stable sorting by keys, and the orders the views sort by.
//!
//! `stable_order` returns the positions of the keys in sorted order; equal keys
//! keep their original relative order, as `slice::sort_by` keeps them.

use vstd::prelude::*;

verus! {

/// A key with a total preorder.
pub trait SortKey: Sized {
    /// `self` may come before `other`.
    spec fn key_le(&self, other: &Self) -> bool;

    proof fn lemma_key_total(a: &Self, b: &Self)
        ensures
            a.key_le(b) || b.key_le(a),
    ;

    proof fn lemma_key_trans(a: &Self, b: &Self, c: &Self)
        requires
            a.key_le(b),
            b.key_le(c),
        ensures
            a.key_le(c),
    ;

    fn le(&self, other: &Self) -> (r: bool)
        ensures
            r == self.key_le(other),
    ;
}

/// Position `k` occurs in `perm`.
pub open spec fn lists(perm: Seq<usize>, k: int) -> bool {
    exists|i: int| 0 <= i < perm.len() && #[trigger] perm[i] == k
}

/// `perm` lists each position below `n` exactly once.
pub open spec fn is_index_permutation(perm: Seq<usize>, n: nat) -> bool {
    &&& perm.len() == n
    &&& forall|i: int| 0 <= i < perm.len() ==> #[trigger] perm[i] < n
    &&& forall|i: int, j: int| 0 <= i < j < perm.len() ==> perm[i] != perm[j]
    &&& forall|k: int| 0 <= k < n ==> #[trigger] lists(perm, k)
}

/// `perm` visits the keys in non-decreasing order.
pub open spec fn visits_sorted<K: SortKey>(keys: Seq<K>, perm: Seq<usize>) -> bool {
    forall|i: int, j: int|
        #![trigger perm[i], perm[j]]
        0 <= i < j < perm.len() ==> keys[perm[i] as int].key_le(&keys[perm[j] as int])
}

/// Keys that compare equal are visited in their original order.
pub open spec fn visits_stably<K: SortKey>(keys: Seq<K>, perm: Seq<usize>) -> bool {
    forall|i: int, j: int|
        #![trigger perm[i], perm[j]]
        0 <= i < j < perm.len() && keys[perm[j] as int].key_le(&keys[perm[i] as int])
            ==> perm[i] < perm[j]
}

/// `perm` is the stable sorting order of `keys`.
pub open spec fn is_stable_order<K: SortKey>(keys: Seq<K>, perm: Seq<usize>) -> bool {
    &&& is_index_permutation(perm, keys.len())
    &&& visits_sorted(keys, perm)
    &&& visits_stably(keys, perm)
}

/// The positions of `keys` in stable sorted order (insertion sort).
pub fn stable_order<K: SortKey>(keys: &Vec<K>) -> (perm: Vec<usize>)
    ensures
        is_stable_order(keys@, perm@),
{
    let n = keys.len();
    let mut out: Vec<usize> = Vec::new();
    let mut i: usize = 0;
    while i < n
        invariant
            i <= n,
            n == keys.len(),
            out.len() == i,
            forall|p: int| 0 <= p < out.len() ==> #[trigger] out[p] < i,
            forall|p: int, q: int| 0 <= p < q < out.len() ==> out[p] != out[q],
            forall|k: int| 0 <= k < i ==> #[trigger] lists(out@, k),
            visits_sorted(keys@, out@),
            visits_stably(keys@, out@),
        decreases n - i,
    {
        let ki = &keys[i];
        let mut pos: usize = 0;
        while pos < out.len() && keys[out[pos]].le(ki)
            invariant
                pos <= out.len(),
                i < n,
                n == keys.len(),
                ki == keys@[i as int],
                forall|p: int| 0 <= p < out.len() ==> #[trigger] out[p] < i,
                forall|p: int| 0 <= p < pos ==> (#[trigger] keys@[out[p] as int]).key_le(ki),
            decreases out.len() - pos,
        {
            pos += 1;
        }
        proof {
            assert forall|q: int| pos <= q < out.len() implies
                !(#[trigger] keys@[out[q] as int]).key_le(ki) by {
                if keys@[out[q] as int].key_le(ki) {
                    assert(keys@[out[pos as int] as int].key_le(&keys@[out[q] as int]));
                    K::lemma_key_trans(&keys@[out[pos as int] as int], &keys@[out[q] as int], ki);
                }
            }
            assert forall|q: int| pos <= q < out.len() implies
                ki.key_le(&(#[trigger] keys@[out[q] as int])) by {
                K::lemma_key_total(ki, &keys@[out[q] as int]);
            }
        }
        let ghost old_out = out@;
        out.insert(pos, i);
        proof {
            assert forall|p: int| 0 <= p < out.len() implies #[trigger] out[p] < i + 1 by {
                if p < pos {
                    assert(out[p] == old_out[p]);
                } else if p > pos {
                    assert(out[p] == old_out[p - 1]);
                }
            }
            assert forall|p: int, q: int| 0 <= p < q < out.len() implies out[p] != out[q] by {
                if p < pos && q > pos {
                    assert(out[q] == old_out[q - 1]);
                } else if p > pos {
                    assert(out[p] == old_out[p - 1]);
                    assert(out[q] == old_out[q - 1]);
                } else if q < pos {
                } else if p == pos {
                    assert(out[q] == old_out[q - 1]);
                } else {
                    assert(out[p] == old_out[p]);
                }
            }
            assert forall|k: int| 0 <= k < i + 1 implies #[trigger] lists(out@, k) by {
                if k == i {
                    assert(out[pos as int] == i);
                } else {
                    assert(lists(old_out, k));
                    let p0 = choose|p: int| 0 <= p < old_out.len() && #[trigger] old_out[p] == k;
                    if p0 < pos {
                        assert(out[p0] == k);
                    } else {
                        assert(out[p0 + 1] == k);
                    }
                }
            }
            assert forall|p: int, q: int| #![trigger out@[p], out@[q]] 0 <= p < q < out.len() implies
                keys@[out@[p] as int].key_le(&keys@[out@[q] as int]) by {
                if q < pos {
                } else if p < pos && q == pos {
                } else if p < pos {
                    assert(out[q] == old_out[q - 1]);
                } else if p == pos {
                    assert(out[q] == old_out[q - 1]);
                } else {
                    assert(out[p] == old_out[p - 1]);
                    assert(out[q] == old_out[q - 1]);
                }
            }
            assert forall|p: int, q: int| #![trigger out@[p], out@[q]]
                0 <= p < q < out.len() && keys@[out@[q] as int].key_le(&keys@[out@[p] as int])
                implies out[p] < out[q] by {
                if q < pos {
                } else if p < pos && q == pos {
                    assert(out[p] == old_out[p]);
                } else if p < pos {
                    assert(out[q] == old_out[q - 1]);
                } else if p == pos {
                    assert(out[q] == old_out[q - 1]);
                } else {
                    assert(out[p] == old_out[p - 1]);
                    assert(out[q] == old_out[q - 1]);
                }
            }
        }
        i += 1;
    }
    out
}

/// There is only one stable order of a sequence of keys: sorting is
/// deterministic, whatever the keys.
pub proof fn law_stable_order_unique<K: SortKey>(keys: Seq<K>, p: Seq<usize>, q: Seq<usize>)
    requires
        is_stable_order(keys, p),
        is_stable_order(keys, q),
    ensures
        p == q,
{
    if p != q {
        assert(p.len() == q.len());
        lemma_first_difference(p, q);
        let i = choose|i: int| 0 <= i < p.len() && p[i] != q[i] && forall|m: int| 0 <= m < i ==> #[trigger] p[m] == q[m];
        let a = p[i];
        let b = q[i];
        // `b` stands in `p` after position `i`, and `a` in `q`.
        assert(lists(p, b as int));
        let j = choose|j: int| 0 <= j < p.len() && #[trigger] p[j] == b as int;
        assert(lists(q, a as int));
        let k = choose|k: int| 0 <= k < q.len() && #[trigger] q[k] == a as int;
        if j < i {
            assert(q[j] == b);
        }
        if k < i {
            assert(p[k] == a);
        }
        assert(j > i);
        assert(k > i);
        assert(keys[p[i] as int].key_le(&keys[p[j] as int]));
        assert(keys[q[i] as int].key_le(&keys[q[k] as int]));
        assert(a < b);
        assert(b < a);
    }
}

/// Two different sequences of equal length have a first position where they
/// differ.
proof fn lemma_first_difference(p: Seq<usize>, q: Seq<usize>)
    requires
        p.len() == q.len(),
        p != q,
    ensures
        exists|i: int| 0 <= i < p.len() && p[i] != q[i] && forall|m: int| 0 <= m < i ==> #[trigger] p[m] == q[m],
    decreases p.len(),
{
    if p.len() > 0 && p[0] == q[0] {
        assert(p.drop_first() != q.drop_first()) by {
            if p.drop_first() == q.drop_first() {
                assert forall|k: int| 0 <= k < p.len() implies p[k] == q[k] by {
                    if k > 0 {
                        assert(p[k] == p.drop_first()[k - 1]);
                        assert(q[k] == q.drop_first()[k - 1]);
                    }
                }
                assert(p =~= q);
            }
        }
        lemma_first_difference(p.drop_first(), q.drop_first());
        let i = choose|i: int| 0 <= i < p.len() - 1 && p.drop_first()[i] != q.drop_first()[i] && forall|m: int| 0 <= m < i ==> #[trigger] p.drop_first()[m] == q.drop_first()[m];
        assert forall|m: int| 0 <= m < i + 1 implies #[trigger] p[m] == q[m] by {
            if m > 0 {
                assert(p[m] == p.drop_first()[m - 1]);
                assert(q[m] == q.drop_first()[m - 1]);
            }
        }
        assert(p[i + 1] == p.drop_first()[i]);
    } else if p.len() == 0 {
        assert(p =~= q);
    }
}

// ── Orders ──────────────────────────────────────────────────────────────────

/// Lexicographic order of character sequences by code point, which is the
/// order `String`'s `Ord` gives (UTF-8 byte order agrees with code points).
pub open spec fn chars_le(a: Seq<char>, b: Seq<char>) -> bool
    decreases a.len(),
{
    if a.len() == 0 {
        true
    } else if b.len() == 0 {
        false
    } else if a[0] != b[0] {
        (a[0] as int) < (b[0] as int)
    } else {
        chars_le(a.drop_first(), b.drop_first())
    }
}

pub proof fn lemma_chars_le_total(a: Seq<char>, b: Seq<char>)
    ensures
        chars_le(a, b) || chars_le(b, a),
    decreases a.len(),
{
    if a.len() > 0 && b.len() > 0 && a[0] == b[0] {
        lemma_chars_le_total(a.drop_first(), b.drop_first());
    }
}

pub proof fn lemma_chars_le_trans(a: Seq<char>, b: Seq<char>, c: Seq<char>)
    requires
        chars_le(a, b),
        chars_le(b, c),
    ensures
        chars_le(a, c),
    decreases a.len(),
{
    if a.len() > 0 && b.len() > 0 && c.len() > 0 && a[0] == b[0] && b[0] == c[0] {
        lemma_chars_le_trans(a.drop_first(), b.drop_first(), c.drop_first());
    }
}

pub proof fn lemma_chars_le_antisym(a: Seq<char>, b: Seq<char>)
    requires
        chars_le(a, b),
        chars_le(b, a),
    ensures
        a == b,
    decreases a.len(),
{
    if a.len() > 0 && b.len() > 0 {
        lemma_chars_le_antisym(a.drop_first(), b.drop_first());
        assert(a == seq![a[0]] + a.drop_first());
        assert(b == seq![b[0]] + b.drop_first());
    }
}

/// Compares two character sequences lexicographically.
pub fn chars_le_exec(a: &Vec<char>, b: &Vec<char>) -> (r: bool)
    ensures
        r == chars_le(a@, b@),
{
    let mut i: usize = 0;
    assert(a@.skip(0) == a@ && b@.skip(0) == b@);
    while i < a.len() && i < b.len() && a[i] == b[i]
        invariant
            i <= a.len(),
            i <= b.len(),
            chars_le(a@, b@) == chars_le(a@.skip(i as int), b@.skip(i as int)),
        decreases a.len() - i,
    {
        assert(a@.skip(i as int).drop_first() == a@.skip(i + 1));
        assert(b@.skip(i as int).drop_first() == b@.skip(i + 1));
        i += 1;
    }
    if i == a.len() {
        true
    } else if i == b.len() {
        false
    } else {
        a[i] < b[i]
    }
}

/// Larger numbers first.
pub struct Descending {
    pub value: u64,
}

impl SortKey for Descending {
    open spec fn key_le(&self, other: &Self) -> bool {
        self.value >= other.value
    }

    proof fn lemma_key_total(a: &Self, b: &Self) {
    }

    proof fn lemma_key_trans(a: &Self, b: &Self, c: &Self) {
    }

    fn le(&self, other: &Self) -> (r: bool) {
        self.value >= other.value
    }
}

/// Text in lexicographic order.
pub struct Ascending {
    pub text: Vec<char>,
}

impl SortKey for Ascending {
    open spec fn key_le(&self, other: &Self) -> bool {
        chars_le(self.text@, other.text@)
    }

    proof fn lemma_key_total(a: &Self, b: &Self) {
        lemma_chars_le_total(a.text@, b.text@);
    }

    proof fn lemma_key_trans(a: &Self, b: &Self, c: &Self) {
        lemma_chars_le_trans(a.text@, b.text@, c.text@);
    }

    fn le(&self, other: &Self) -> (r: bool) {
        chars_le_exec(&self.text, &other.text)
    }
}

/// The order of `Option<String>`: nothing first, then texts lexicographically.
pub open spec fn opt_chars_le(a: Option<Seq<char>>, b: Option<Seq<char>>) -> bool {
    match (a, b) {
        (None, _) => true,
        (Some(_), None) => false,
        (Some(x), Some(y)) => chars_le(x, y),
    }
}

/// Optional text, latest (largest) first and missing values last: the order
/// of `b.cmp(&a)` on `Option<String>`.
pub struct NewestFirst {
    pub text: Option<Vec<char>>,
}

/// The characters of an optional character vector.
pub open spec fn opt_vec_chars(o: Option<Vec<char>>) -> Option<Seq<char>> {
    match o {
        Some(v) => Some(v@),
        None => None,
    }
}

impl SortKey for NewestFirst {
    open spec fn key_le(&self, other: &Self) -> bool {
        opt_chars_le(opt_vec_chars(other.text), opt_vec_chars(self.text))
    }

    proof fn lemma_key_total(a: &Self, b: &Self) {
        if let (Some(x), Some(y)) = (a.text, b.text) {
            lemma_chars_le_total(x@, y@);
        }
    }

    proof fn lemma_key_trans(a: &Self, b: &Self, c: &Self) {
        if let (Some(x), Some(y), Some(z)) = (a.text, b.text, c.text) {
            lemma_chars_le_trans(z@, y@, x@);
        }
    }

    fn le(&self, other: &Self) -> (r: bool) {
        match (&other.text, &self.text) {
            (None, _) => true,
            (Some(_), None) => false,
            (Some(x), Some(y)) => chars_le_exec(x, y),
        }
    }
}

/// A rank first (smaller first), then text lexicographically.
pub struct RankThenText {
    pub rank: u8,
    pub text: Vec<char>,
}

impl SortKey for RankThenText {
    open spec fn key_le(&self, other: &Self) -> bool {
        self.rank < other.rank || (self.rank == other.rank && chars_le(self.text@, other.text@))
    }

    proof fn lemma_key_total(a: &Self, b: &Self) {
        lemma_chars_le_total(a.text@, b.text@);
    }

    proof fn lemma_key_trans(a: &Self, b: &Self, c: &Self) {
        if a.rank == b.rank && b.rank == c.rank {
            lemma_chars_le_trans(a.text@, b.text@, c.text@);
        }
    }

    fn le(&self, other: &Self) -> (r: bool) {
        self.rank < other.rank || (self.rank == other.rank && chars_le_exec(&self.text, &other.text))
    }
}


/// The first `n` elements (or all, if fewer) of `items` in the order `perm`.
pub open spec fn permuted_prefix<T>(items: Seq<T>, perm: Seq<usize>, n: nat) -> Seq<T> {
    Seq::new(if perm.len() < n { perm.len() } else { n }, |i: int| items[perm[i] as int])
}

/// The sort key of an optional date text.
pub fn newest_first_key(date: &Option<String>) -> (r: NewestFirst)
    ensures
        opt_vec_chars(r.text) == crate::models::opt_chars(*date),
{
    match date {
        Some(d) => NewestFirst { text: Some(crate::text::chars_of(d.as_str())) },
        None => NewestFirst { text: None },
    }
}

} // verus!

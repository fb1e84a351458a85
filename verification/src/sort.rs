//! A stable merge sort over values that carry an unsigned key.

use vstd::prelude::*;
use vstd::seq_lib::lemma_multiset_commutative;
use vstd::slice::slice_subrange;

verus! {

/// A value that is ordered by an unsigned key.
pub trait Keyed: Sized {
    /// The key that the value is ordered by.
    spec fn key(&self) -> u64;

    /// Returns the key.
    fn sort_key(&self) -> (k: u64)
        ensures
            k == self.key(),
    ;
}

impl Keyed for u64 {
    open spec fn key(&self) -> u64 {
        *self
    }

    fn sort_key(&self) -> (k: u64) {
        *self
    }
}

/// The keys of `s` never decrease.
pub open spec fn sorted_by_key<T: Keyed>(s: Seq<T>) -> bool {
    forall|i: int, j: int| 0 <= i <= j < s.len() ==> s[i].key() <= s[j].key()
}

/// The values of `s` whose key is `k`, in the order in which `s` holds them.
pub open spec fn with_key<T: Keyed>(s: Seq<T>, k: u64) -> Seq<T>
    decreases s.len(),
{
    if s.len() == 0 {
        Seq::empty()
    } else if s.last().key() == k {
        with_key(s.drop_last(), k).push(s.last())
    } else {
        with_key(s.drop_last(), k)
    }
}

/// `b` holds the values of `a`, and values with the same key keep their order.
pub open spec fn stable_rearrangement<T: Keyed>(a: Seq<T>, b: Seq<T>) -> bool {
    &&& a.to_multiset() == b.to_multiset()
    &&& forall|k: u64| with_key(a, k) == with_key(b, k)
}

proof fn lemma_with_key_push<T: Keyed>(s: Seq<T>, x: T, k: u64)
    ensures
        with_key(s.push(x), k) == if x.key() == k {
            with_key(s, k).push(x)
        } else {
            with_key(s, k)
        },
{
    assert(s.push(x).drop_last() =~= s);
}

proof fn lemma_with_key_add<T: Keyed>(a: Seq<T>, b: Seq<T>, k: u64)
    ensures
        with_key(a + b, k) == with_key(a, k) + with_key(b, k),
    decreases b.len(),
{
    if b.len() == 0 {
        assert(a + b =~= a);
        assert(with_key(a, k) + with_key(b, k) =~= with_key(a, k));
    } else {
        assert((a + b).drop_last() =~= a + b.drop_last());
        lemma_with_key_add(a, b.drop_last(), k);
        assert(with_key(a + b, k) =~= with_key(a, k) + with_key(b, k));
    }
}

/// No value of `s` has the key `k` exactly when the selection by `k` is empty.
pub proof fn lemma_with_key_empty<T: Keyed>(s: Seq<T>, k: u64)
    ensures
        with_key(s, k).len() == 0 <==> forall|i: int| 0 <= i < s.len() ==> s[i].key() != k,
    decreases s.len(),
{
    if s.len() > 0 {
        lemma_with_key_empty(s.drop_last(), k);
        if with_key(s, k).len() == 0 {
            assert forall|i: int| 0 <= i < s.len() implies s[i].key() != k by {
                if i < s.len() - 1 {
                    assert(s.drop_last()[i] == s[i]);
                }
            }
        } else {
            if s.last().key() != k {
                let i = choose|i: int| 0 <= i < s.drop_last().len() && s.drop_last()[i].key() == k;
                assert(s[i].key() == k);
            } else {
                assert(s[s.len() - 1].key() == k);
            }
        }
    }
}

/// The last value with the key `k` is the last one selected by `k`.
pub proof fn lemma_with_key_last<T: Keyed>(s: Seq<T>, p: int, k: u64)
    requires
        0 <= p < s.len(),
        s[p].key() == k,
        forall|i: int| p < i < s.len() ==> s[i].key() != k,
    ensures
        with_key(s, k).len() > 0,
        with_key(s, k).last() == s[p],
    decreases s.len(),
{
    if p < s.len() - 1 {
        lemma_with_key_last(s.drop_last(), p, k);
    }
}

/// Merges two sorted sequences; of values with the same key those of `a` come first.
pub fn merge<T: Keyed + Copy>(a: &Vec<T>, b: &Vec<T>) -> (out: Vec<T>)
    requires
        sorted_by_key(a@),
        sorted_by_key(b@),
    ensures
        sorted_by_key(out@),
        stable_rearrangement(a@ + b@, out@),
{
    let mut out: Vec<T> = Vec::new();
    let mut i: usize = 0;
    let mut j: usize = 0;
    proof {
        assert(a@.take(0) =~= Seq::empty());
        assert(b@.take(0) =~= Seq::empty());
        assert(out@ =~= a@.take(0) + b@.take(0));
        lemma_multiset_commutative(a@.take(0), b@.take(0));
    }
    while i < a.len() || j < b.len()
        invariant
            sorted_by_key(a@),
            sorted_by_key(b@),
            i <= a.len(),
            j <= b.len(),
            sorted_by_key(out@),
            forall|x: int, y: int|
                0 <= x < out@.len() && i <= y < a@.len() ==> out@[x].key() <= a@[y].key(),
            forall|x: int, y: int|
                0 <= x < out@.len() && j <= y < b@.len() ==> out@[x].key() <= b@[y].key(),
            forall|x: int, y: int|
                0 <= x < j && i <= y < a@.len() ==> b@[x].key() < a@[y].key(),
            out@.to_multiset() == a@.take(i as int).to_multiset().add(
                b@.take(j as int).to_multiset(),
            ),
            forall|k: u64|
                #[trigger] with_key(out@, k) == with_key(a@.take(i as int), k) + with_key(
                    b@.take(j as int),
                    k,
                ),
        decreases a.len() - i + b.len() - j,
    {
        let ghost before = out@;
        let ghost ta = a@.take(i as int);
        let ghost tb = b@.take(j as int);
        let from_a = if i < a.len() {
            if j < b.len() {
                a[i].sort_key() <= b[j].sort_key()
            } else {
                true
            }
        } else {
            false
        };
        if from_a {
            let x = a[i];
            out.push(x);
            i = i + 1;
            proof {
                assert(a@.take(i as int) =~= ta.push(x));
                broadcast use vstd::seq_lib::group_to_multiset_ensures;
                broadcast use vstd::multiset::group_multiset_axioms;
                assert(out@.to_multiset() =~= a@.take(i as int).to_multiset().add(
                    tb.to_multiset(),
                ));
                assert forall|k: u64| #[trigger] with_key(out@, k) == with_key(
                    a@.take(i as int),
                    k,
                ) + with_key(tb, k) by {
                    lemma_with_key_push(before, x, k);
                    lemma_with_key_push(ta, x, k);
                    if x.key() == k {
                        assert(with_key(tb, k).len() == 0) by {
                            lemma_with_key_empty(tb, k);
                            assert forall|y: int| 0 <= y < tb.len() implies tb[y].key() != k by {
                                assert(tb[y] == b@[y]);
                            }
                        }
                        assert(with_key(out@, k) =~= with_key(a@.take(i as int), k) + with_key(
                            tb,
                            k,
                        ));
                    }
                    assert(with_key(before, k) == with_key(ta, k) + with_key(tb, k));
                }
            }
        } else {
            let x = b[j];
            out.push(x);
            j = j + 1;
            proof {
                assert(b@.take(j as int) =~= tb.push(x));
                broadcast use vstd::seq_lib::group_to_multiset_ensures;
                broadcast use vstd::multiset::group_multiset_axioms;
                assert(out@.to_multiset() =~= ta.to_multiset().add(
                    b@.take(j as int).to_multiset(),
                ));
                assert forall|k: u64| #[trigger] with_key(out@, k) == with_key(ta, k) + with_key(
                    b@.take(j as int),
                    k,
                ) by {
                    lemma_with_key_push(before, x, k);
                    lemma_with_key_push(tb, x, k);
                    assert(with_key(before, k) == with_key(ta, k) + with_key(tb, k));
                    assert(with_key(out@, k) =~= with_key(ta, k) + with_key(b@.take(j as int), k));
                }
            }
        }
    }
    proof {
        assert(a@.take(i as int) =~= a@);
        assert(b@.take(j as int) =~= b@);
        lemma_multiset_commutative(a@, b@);
        assert forall|k: u64| with_key(a@ + b@, k) == #[trigger] with_key(out@, k) by {
            lemma_with_key_add(a@, b@, k);
        }
    }
    out
}

/// Sorts by key; values with the same key keep their order.
pub fn merge_sort<T: Keyed + Copy>(v: &[T]) -> (out: Vec<T>)
    ensures
        sorted_by_key(out@),
        stable_rearrangement(v@, out@),
    decreases v@.len(),
{
    let n: usize = v.len();
    if n <= 1 {
        let out = vstd::slice::slice_to_vec(v);
        return out;
    }
    let mid: usize = n / 2;
    let left = slice_subrange(v, 0, mid);
    let right = slice_subrange(v, mid, n);
    let a = merge_sort(left);
    let b = merge_sort(right);
    let out = merge(&a, &b);
    proof {
        assert(v@ =~= left@ + right@);
        lemma_multiset_commutative(left@, right@);
        lemma_multiset_commutative(a@, b@);
        assert forall|k: u64| with_key(v@, k) == #[trigger] with_key(out@, k) by {
            lemma_with_key_add(left@, right@, k);
            lemma_with_key_add(a@, b@, k);
            assert(with_key(left@, k) == with_key(a@, k));
            assert(with_key(right@, k) == with_key(b@, k));
            assert(with_key(a@ + b@, k) == with_key(out@, k));
        }
    }
    out
}

/// Sorting loses nothing and makes nothing up: every value occurs as often as before, and two
/// values with the same key stay in the order in which they were.
pub proof fn lemma_rearrangement_keeps_everything<T: Keyed>(a: Seq<T>, b: Seq<T>, x: T, k: u64)
    requires
        stable_rearrangement(a, b),
    ensures
        a.len() == b.len(),
        a.to_multiset().count(x) == b.to_multiset().count(x),
        a.filter(|v: T| v.key() == k) == b.filter(|v: T| v.key() == k),
{
    broadcast use vstd::seq_lib::group_to_multiset_ensures;
    assert(a.to_multiset().len() == b.to_multiset().len());
    assert(with_key(a, k) == with_key(b, k));
    lemma_with_key_is_a_filter(a, k);
    lemma_with_key_is_a_filter(b, k);
}

proof fn lemma_with_key_is_a_filter<T: Keyed>(s: Seq<T>, k: u64)
    ensures
        with_key(s, k) == s.filter(|v: T| v.key() == k),
    decreases s.len(),
{
    reveal(Seq::filter);
    if s.len() > 0 {
        lemma_with_key_is_a_filter(s.drop_last(), k);
    }
}

/// Of two values in order, the one in front has the lower key or the same.
pub proof fn lemma_sorted_values_ascend<T: Keyed>(s: Seq<T>, i: int, j: int)
    requires
        sorted_by_key(s),
        0 <= i < j < s.len(),
    ensures
        s[i].key() <= s[j].key(),
{
}

} // verus!

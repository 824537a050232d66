use vstd::prelude::*;
use vstd::relations::sorted_by;

verus! {

broadcast use vstd::seq_lib::group_to_multiset_ensures;

/// Values that are ordered by a total preorder on a key.
pub trait KeyOrder: Sized + Copy {
    /// Whether `self` comes no later than `other`.
    spec fn key_le(self, other: Self) -> bool;

    proof fn lemma_key_le_reflexive(a: Self)
        ensures
            a.key_le(a),
    ;

    proof fn lemma_key_le_transitive(a: Self, b: Self, c: Self)
        requires
            a.key_le(b),
            b.key_le(c),
        ensures
            a.key_le(c),
    ;

    proof fn lemma_key_le_total(a: Self, b: Self)
        ensures
            a.key_le(b) || b.key_le(a),
    ;

    fn comes_no_later(&self, other: &Self) -> (r: bool)
        ensures
            r == self.key_le(*other),
    ;
}

/// Whether a sequence is ordered by the key.
pub open spec fn key_sorted<T: KeyOrder>(s: Seq<T>) -> bool {
    forall|i: int, j: int| 0 <= i < j < s.len() ==> #[trigger] s[i].key_le(#[trigger] s[j])
}

/// The elements of a slice, in order, in a new vector.
pub fn copy_to_vec<T: Copy>(s: &[T]) -> (r: Vec<T>)
    ensures
        r@ == s@,
{
    let mut out: Vec<T> = Vec::new();
    let mut i: usize = 0;
    while i < s.len()
        invariant
            0 <= i <= s@.len(),
            out@ == s@.subrange(0, i as int),
        decreases s@.len() - i,
    {
        out.push(s[i]);
        proof {
            assert(s@.subrange(0, i + 1) == s@.subrange(0, i as int).push(s@[i as int]));
        }
        i = i + 1;
    }
    proof {
        assert(s@.subrange(0, s@.len() as int) == s@);
    }
    out
}

/// Sorts by key: the result holds the same values, ordered by key.
pub fn sort_by_key_order<T: KeyOrder>(v: &Vec<T>) -> (r: Vec<T>)
    ensures
        r@.to_multiset() == v@.to_multiset(),
        key_sorted(r@),
        r@.len() == v@.len(),
{
    merge_sort(v.as_slice())
}

/// Merge sort of a slice by key.
fn merge_sort<T: KeyOrder>(s: &[T]) -> (r: Vec<T>)
    ensures
        r@.to_multiset() == s@.to_multiset(),
        key_sorted(r@),
        r@.len() == s@.len(),
    decreases s@.len(),
{
    if s.len() <= 1 {
        return copy_to_vec(s);
    }
    let mid = s.len() / 2;
    let lo = vstd::slice::slice_subrange(s, 0, mid);
    let hi = vstd::slice::slice_subrange(s, mid, s.len());
    let a = merge_sort(lo);
    let b = merge_sort(hi);
    let r = merge(&a, &b);
    proof {
        assert(s@ =~= lo@ + hi@);
        vstd::seq_lib::lemma_multiset_commutative(lo@, hi@);
    }
    r
}

/// Merges two key-sorted sequences into one.
fn merge<T: KeyOrder>(a: &Vec<T>, b: &Vec<T>) -> (r: Vec<T>)
    requires
        key_sorted(a@),
        key_sorted(b@),
    ensures
        r@.to_multiset() == a@.to_multiset().add(b@.to_multiset()),
        key_sorted(r@),
        r@.len() == a@.len() + b@.len(),
{
    let mut out: Vec<T> = Vec::new();
    let mut i: usize = 0;
    let mut j: usize = 0;
    while i < a.len() || j < b.len()
        invariant
            0 <= i <= a@.len(),
            0 <= j <= b@.len(),
            key_sorted(a@),
            key_sorted(b@),
            out@.len() == i + j,
            out@.to_multiset() == a@.subrange(0, i as int).to_multiset().add(b@.subrange(0, j as int).to_multiset()),
            key_sorted(out@),
            out@.len() > 0 && i < a@.len() ==> out@.last().key_le(a@[i as int]),
            out@.len() > 0 && j < b@.len() ==> out@.last().key_le(b@[j as int]),
        decreases a@.len() + b@.len() - i - j,
    {
        let take_a = if j >= b.len() {
            true
        } else if i >= a.len() {
            false
        } else {
            a[i].comes_no_later(&b[j])
        };
        let x = if take_a { a[i] } else { b[j] };
        let ghost before = out@;
        proof {
            if !take_a && i < a@.len() {
                T::lemma_key_le_total(a@[i as int], b@[j as int]);
            }
            assert forall|k: int| 0 <= k < before.len() implies #[trigger] before[k].key_le(x) by {
                if k < before.len() - 1 {
                    assert(before[k].key_le(before[before.len() - 1]));
                    T::lemma_key_le_transitive(before[k], before.last(), x);
                }
            }
        }
        out.push(x);
        proof {
            assert(out@ == before.push(x));
            assert forall|p: int, q: int| 0 <= p < q < out@.len() implies #[trigger] out@[p].key_le(#[trigger] out@[q]) by {
                if q == before.len() {
                    assert(out@[p] == before[p]);
                } else {
                    assert(out@[p] == before[p]);
                    assert(out@[q] == before[q]);
                }
            }
        }
        if take_a {
            proof {
                assert(a@.subrange(0, i as int + 1) == a@.subrange(0, i as int).push(a@[i as int]));
                if i + 1 < a@.len() {
                    assert(a@[i as int].key_le(a@[i as int + 1]));
                }
            }
            i = i + 1;
        } else {
            proof {
                assert(b@.subrange(0, j as int + 1) == b@.subrange(0, j as int).push(b@[j as int]));
                if j + 1 < b@.len() {
                    assert(b@[j as int].key_le(b@[j as int + 1]));
                }
            }
            j = j + 1;
        }
    }
    proof {
        assert(a@.subrange(0, a@.len() as int) == a@);
        assert(b@.subrange(0, b@.len() as int) == b@);
    }
    out
}

} // verus!

//! A stable insertion sort over a three-way order that each sorted type
//! supplies.
use vstd::multiset::Multiset;
use vstd::set::Set;
use vstd::prelude::*;

verus! {

broadcast use vstd::seq_lib::group_to_multiset_ensures;

/// A type with a three-way order that the sort follows.
pub trait SortKey: Sized {
    /// -1, 0 or 1 as `a` comes before, ties with or comes after `b`.
    spec fn key_order(a: Self, b: Self) -> int;

    /// Computes `key_order`; the order is antisymmetric on the pair it
    /// compares.
    fn order(&self, other: &Self) -> (r: i8)
        ensures
            r == Self::key_order(*self, *other),
            r == -Self::key_order(*other, *self),
    ;
}

/// Each element is ordered no later than the next one.
pub open spec fn adjacent_sorted<T: SortKey>(s: Seq<T>) -> bool {
    forall|i: int| 0 <= i < s.len() - 1 ==> T::key_order(#[trigger] s[i], s[i + 1]) <= 0
}

/// `perm` picks, for each element of `r`, a distinct position of `v` that
/// holds it.
pub open spec fn is_permutation_of<T>(perm: Seq<int>, r: Seq<T>, v: Seq<T>) -> bool {
    &&& perm.len() == r.len()
    &&& r.len() == v.len()
    &&& forall|i: int| 0 <= i < r.len() ==> 0 <= #[trigger] perm[i] < v.len() && r[i] == v[perm[i]]
    &&& forall|i: int, j: int| 0 <= i < r.len() && 0 <= j < r.len() && i != j ==> #[trigger] perm[i] != #[trigger] perm[j]
}

/// Some of the first `n` entries of `perm` is `k`.
pub open spec fn picked(perm: Seq<int>, n: int, k: int) -> bool {
    exists|i: int| 0 <= i < n && #[trigger] perm[i] == k
}

/// Every position of `v` is picked by `perm`.
pub proof fn lemma_permutation_onto<T>(perm: Seq<int>, r: Seq<T>, v: Seq<T>)
    requires
        is_permutation_of(perm, r, v),
    ensures
        forall|k: int| 0 <= k < v.len() ==> #[trigger] picked(perm, r.len() as int, k),
{
    assert forall|k: int| 0 <= k < v.len() implies #[trigger] picked(perm, r.len() as int, k) by {
        if !picked(perm, r.len() as int, k) {
            assert(perm.no_duplicates()) by {
                assert forall|a: int, b: int| 0 <= a < perm.len() && 0 <= b < perm.len() && a != b implies perm[a] != perm[b] by {}
            }
            perm.unique_seq_to_set();
            let full = Set::new(|m: int| 0 <= m < v.len());
            vstd::set_lib::lemma_int_range(0, v.len() as int);
            assert(full =~= vstd::set_lib::set_int_range(0, v.len() as int));
            assert(perm.to_set().subset_of(full.remove(k)));
            vstd::set_lib::lemma_len_subset(perm.to_set(), full.remove(k));
        }
    }
}

/// `perm` places `r` as a rearrangement of `v` that keeps elements of equal
/// key in their order in `v`.
pub open spec fn stable_permutation<T: SortKey>(perm: Seq<int>, r: Seq<T>, v: Seq<T>) -> bool {
    &&& is_permutation_of(perm, r, v)
    &&& forall|a: int, b: int| 0 <= a < b < r.len() && T::key_order(#[trigger] r[a], #[trigger] r[b]) == 0 ==> perm[a] < perm[b]
}

/// Sorts by `SortKey::order`, keeping equal elements in their input order.
pub fn sort_by_key<T: SortKey>(v: Vec<T>) -> (r: Vec<T>)
    ensures
        r@.to_multiset() == v@.to_multiset(),
        r@.len() == v@.len(),
        adjacent_sorted(r@),
        exists|perm: Seq<int>| #[trigger] is_permutation_of(perm, r@, v@),
        exists|perm: Seq<int>| #[trigger] stable_permutation(perm, r@, v@),
{
    let ghost given = v@;
    let mut input = v;
    let mut r: Vec<T> = Vec::new();
    let ghost mut origin: Seq<int> = Seq::empty();
    while input.len() > 0
        invariant
            r@.to_multiset().add(input@.to_multiset()) == given.to_multiset(),
            r@.len() + input@.len() == given.len(),
            adjacent_sorted(r@),
            input@ == given.take(input@.len() as int),
            origin.len() == r@.len(),
            forall|i: int| 0 <= i < r@.len() ==> input@.len() <= #[trigger] origin[i] < given.len() && r@[i] == given[origin[i]],
            forall|i: int, j: int| 0 <= i < r@.len() && 0 <= j < r@.len() && i != j ==> #[trigger] origin[i] != #[trigger] origin[j],
            forall|i: int, j: int| 0 <= i < j < r@.len() && T::key_order(#[trigger] r@[i], #[trigger] r@[j]) == 0 ==> origin[i] < origin[j],
        decreases input@.len(),
    {
        let ghost before = input@;
        let x = input.pop().unwrap();
        proof {
            assert(before =~= input@.push(x));
            vstd::seq_lib::to_multiset_build(input@, x);
            assert(input@ =~= given.take(input@.len() as int));
            assert(x == given[input@.len() as int]);
        }
        let mut p: usize = 0;
        while p < r.len() && r[p].order(&x) < 0
            invariant
                p <= r@.len(),
                forall|j: int| 0 <= j < p ==> T::key_order(#[trigger] r@[j], x) < 0,
            decreases r@.len() - p,
        {
            p = p + 1;
        }
        let ghost old_r = r@;
        if p < r.len() {
            let _ = r[p].order(&x);
        }
        proof {
            if p < old_r.len() {
                assert(T::key_order(x, old_r[p as int]) <= 0);
            }
            vstd::seq_lib::to_multiset_insert(old_r, p as int, x);
        }
        r.insert(p, x);
        proof {
            let old_origin = origin;
            origin = old_origin.insert(p as int, input@.len() as int);
            assert forall|i: int| 0 <= i < r@.len() implies input@.len() <= #[trigger] origin[i] < given.len() && r@[i] == given[origin[i]] by {
                if i < p {
                    assert(origin[i] == old_origin[i] && r@[i] == old_r[i]);
                } else if i > p {
                    assert(origin[i] == old_origin[i - 1] && r@[i] == old_r[i - 1]);
                }
            }
            assert forall|i: int, j: int| 0 <= i < j < r@.len() && T::key_order(#[trigger] r@[i], #[trigger] r@[j]) == 0 implies origin[i] < origin[j] by {
                if i < p && j < p {
                    assert(r@[i] == old_r[i] && r@[j] == old_r[j]);
                    assert(origin[i] == old_origin[i] && origin[j] == old_origin[j]);
                } else if i < p && j == p {
                    assert(r@[i] == old_r[i] && r@[j] == x);
                    assert(T::key_order(old_r[i], x) < 0);
                } else if i < p {
                    assert(r@[i] == old_r[i] && r@[j] == old_r[j - 1]);
                    assert(origin[i] == old_origin[i] && origin[j] == old_origin[j - 1]);
                } else if i == p {
                    assert(origin[j] == old_origin[j - 1]);
                } else {
                    assert(r@[i] == old_r[i - 1] && r@[j] == old_r[j - 1]);
                    assert(origin[i] == old_origin[i - 1] && origin[j] == old_origin[j - 1]);
                }
            }
            assert forall|i: int, j: int| 0 <= i < r@.len() && 0 <= j < r@.len() && i != j implies #[trigger] origin[i] != #[trigger] origin[j] by {
                let i0 = if i < p { i } else { i - 1 };
                let j0 = if j < p { j } else { j - 1 };
                if i != p && j != p {
                    assert(origin[i] == old_origin[i0] && origin[j] == old_origin[j0]);
                } else if i == p {
                    assert(origin[j] == old_origin[j0]);
                } else {
                    assert(origin[i] == old_origin[i0]);
                }
            }
        }
        assert forall|i: int| 0 <= i < r@.len() - 1 implies T::key_order(#[trigger] r@[i], r@[i + 1]) <= 0 by {
            if i < p - 1 {
                assert(r@[i] == old_r[i] && r@[i + 1] == old_r[i + 1]);
            } else if i == p - 1 {
                assert(r@[i] == old_r[i] && r@[i + 1] == x);
            } else if i == p {
                assert(r@[i] == x && r@[i + 1] == old_r[i]);
            } else {
                assert(r@[i] == old_r[i - 1] && r@[i + 1] == old_r[i]);
            }
        }
        proof {
            assert(r@.to_multiset() == old_r.to_multiset().insert(x));
            assert(r@.to_multiset().add(input@.to_multiset()) =~= old_r.to_multiset().add(before.to_multiset()));
        }
    }
    proof {
        assert(input@.to_multiset() =~= Multiset::empty());
        assert(r@.to_multiset().add(input@.to_multiset()) =~= r@.to_multiset());
        assert(is_permutation_of(origin, r@, given));
        assert(stable_permutation(origin, r@, given));
    }
    r
}

/// Sorts texts into text order; the same texts, repeats kept as repeats.
pub fn sort_texts(v: Vec<String>) -> (r: Vec<String>)
    ensures
        r@.len() == v@.len(),
        forall|x: Seq<char>| #[trigger] r.deep_view().contains(x) <==> v.deep_view().contains(x),
        v.deep_view().no_duplicates() ==> r.deep_view().no_duplicates(),
        forall|t: int| 0 <= t < r@.len() - 1 ==> crate::text::text_order(#[trigger] r.deep_view()[t], r.deep_view()[t + 1]) <= 0,
        exists|perm: Seq<int>| #[trigger] is_permutation_of(perm, r.deep_view(), v.deep_view()),
{
    let ghost unsorted = v@;
    let ghost uv = v.deep_view();
    let sorted = sort_by_key(v);
    proof {
        let perm = choose|perm: Seq<int>| #[trigger] is_permutation_of(perm, sorted@, unsorted);
        lemma_permutation_onto(perm, sorted@, unsorted);
        let dv = sorted.deep_view();
        assert forall|a: int| 0 <= a < dv.len() implies #[trigger] dv[a] == uv[perm[a]] by {
            assert(sorted@[a] == unsorted[perm[a]]);
        }
        assert(is_permutation_of(perm, dv, uv));
        if uv.no_duplicates() {
            assert forall|a: int, b: int| 0 <= a < dv.len() && 0 <= b < dv.len() && a != b implies dv[a] != dv[b] by {
                assert(dv[a] == uv[perm[a]] && dv[b] == uv[perm[b]]);
            }
        }
        assert forall|t: int| 0 <= t < dv.len() - 1 implies crate::text::text_order(#[trigger] dv[t], dv[t + 1]) <= 0 by {
            assert(String::key_order(sorted@[t], sorted@[t + 1]) <= 0);
        }
        assert forall|x: Seq<char>| #[trigger] dv.contains(x) <==> uv.contains(x) by {
            if dv.contains(x) {
                let a = choose|a: int| 0 <= a < dv.len() && dv[a] == x;
                assert(uv[perm[a]] == x);
            }
            if uv.contains(x) {
                let u = choose|u: int| 0 <= u < uv.len() && uv[u] == x;
                assert(picked(perm, dv.len() as int, u));
                let a = choose|a: int| 0 <= a < dv.len() && #[trigger] perm[a] == u;
                assert(dv[a] == x);
            }
        }
    }
    sorted
}

} // verus!

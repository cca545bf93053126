//! Sorting by name and version.

use vstd::prelude::*;
use crate::text::{
    chars_eq, chars_le, lemma_lex_antisymmetric, lemma_lex_reflexive, lemma_lex_total,
    lemma_lex_transitive, lex_le,
};
use crate::version::{version_le, Version};

verus! {

/// What items are sorted by: a name, and a version for equal names.
pub struct SortKey {
    pub name: Vec<char>,
    pub version: Version,
}

/// The mathematical value of a `SortKey`.
pub struct KeyView {
    pub name: Seq<char>,
    pub version: Version,
}

/// `a` comes no later than `b`: by name in the dictionary, and by version
/// where the names are the same.
pub open spec fn key_le(a: KeyView, b: KeyView) -> bool {
    if a.name == b.name {
        version_le(a.version, b.version)
    } else {
        lex_le(a.name, b.name)
    }
}

/// Of two keys one comes no later than the other.
pub proof fn lemma_key_total(a: KeyView, b: KeyView)
    ensures
        key_le(a, b) || key_le(b, a),
{
    lemma_lex_total(a.name, b.name);
}

/// The order of keys is transitive.
pub proof fn lemma_key_transitive(a: KeyView, b: KeyView, c: KeyView)
    requires
        key_le(a, b),
        key_le(b, c),
    ensures
        key_le(a, c),
{
    lemma_lex_reflexive(a.name);
    lemma_lex_reflexive(b.name);
    if a.name == b.name {
    } else if b.name == c.name {
    } else {
        lemma_lex_transitive(a.name, b.name, c.name);
        if a.name == c.name {
            lemma_lex_antisymmetric(a.name, b.name);
        }
    }
}

/// Two keys that come no later than each other are the same.
pub proof fn lemma_key_antisymmetric(a: KeyView, b: KeyView)
    requires
        key_le(a, b),
        key_le(b, a),
    ensures
        a == b,
{
    if a.name != b.name {
        lemma_lex_antisymmetric(a.name, b.name);
    }
}

impl SortKey {
    /// The mathematical value.
    pub open spec fn view(&self) -> KeyView {
        KeyView { name: self.name@, version: self.version }
    }

    /// Whether `self` comes no later than `other`.
    pub fn le(&self, other: &SortKey) -> (r: bool)
        ensures
            r == key_le(self@, other@),
    {
        if chars_eq(&self.name, &other.name) {
            self.version.le(&other.version)
        } else {
            chars_le(&self.name, &other.name)
        }
    }
}

/// The values of `keys`.
pub open spec fn keys_view(keys: Seq<SortKey>) -> Seq<KeyView> {
    Seq::new(keys.len(), |i: int| keys[i]@)
}

/// `p` names each place of `keys` once.
pub open spec fn is_permutation(p: Seq<int>, n: int) -> bool {
    &&& p.len() == n
    &&& forall|i: int| 0 <= i < p.len() ==> 0 <= #[trigger] p[i] < n
    &&& forall|i: int, j: int| 0 <= i < p.len() && 0 <= j < p.len() && i != j ==> p[i] != p[j]
}

/// Read in the order of `p`, the keys never go down, and keys that are the
/// same stay in the order in which `keys` holds them.
pub open spec fn is_ascending(keys: Seq<KeyView>, p: Seq<int>) -> bool {
    forall|i: int, j: int|
        0 <= i < j < p.len() ==> key_le(keys[#[trigger] p[i]], keys[#[trigger] p[j]]) && (key_le(
            keys[p[j]],
            keys[p[i]],
        ) ==> p[i] < p[j])
}

/// `p` is the stable sort of `keys`: the places of `keys` in ascending order
/// of their keys.
pub open spec fn is_stable_sort(keys: Seq<KeyView>, p: Seq<int>) -> bool {
    is_permutation(p, keys.len() as int) && is_ascending(keys, p)
}

/// The places of `keys` in ascending order of their keys; keys that are the
/// same keep their order.
pub fn stable_sort(keys: &Vec<SortKey>) -> (p: Vec<usize>)
    ensures
        is_stable_sort(keys_view(keys@), crate::graph::ints(p@)),
{
    let ghost ks = keys_view(keys@);
    let mut p: Vec<usize> = Vec::new();
    let mut n: usize = 0;
    while n < keys.len()
        invariant
            n <= keys.len(),
            ks == keys_view(keys@),
            p.len() == n,
            forall|i: int| 0 <= i < n ==> #[trigger] p[i] < n,
            forall|i: int, j: int| 0 <= i < n && 0 <= j < n && i != j ==> p[i] != p[j],
            forall|i: int, j: int|
                0 <= i < j < n ==> key_le(ks[#[trigger] p[i] as int], ks[#[trigger] p[j] as int])
                    && (key_le(ks[p[j] as int], ks[p[i] as int]) ==> p[i] < p[j]),
        decreases keys.len() - n,
    {
        let mut at: usize = n;
        while at > 0 && !keys[p[at - 1]].le(&keys[n])
            invariant
                n < keys.len(),
                at <= n,
                p.len() == n,
                ks == keys_view(keys@),
                forall|i: int| 0 <= i < n ==> #[trigger] p[i] < n,
                forall|i: int| at <= i < n ==> !key_le(ks[#[trigger] p[i] as int], ks[n as int]),
            decreases at,
        {
            at -= 1;
        }
        let ghost before = p@;
        p.insert(at, n);
        proof {
            assert forall|i: int| 0 <= i < n + 1 implies #[trigger] p[i] < n + 1 by {
                if i < at {
                    assert(p[i] == before[i]);
                } else if i > at {
                    assert(p[i] == before[i - 1]);
                }
            }
            assert forall|i: int, j: int| 0 <= i < n + 1 && 0 <= j < n + 1 && i != j implies p[i]
                != p[j] by {
                let a = if i < at { i } else { i - 1 };
                let b = if j < at { j } else { j - 1 };
                if i != at {
                    assert(p[i] == before[a]);
                }
                if j != at {
                    assert(p[j] == before[b]);
                }
            }
            assert forall|i: int, j: int| 0 <= i < j < n + 1 implies key_le(
                ks[#[trigger] p[i] as int],
                ks[#[trigger] p[j] as int],
            ) && (key_le(ks[p[j] as int], ks[p[i] as int]) ==> p[i] < p[j]) by {
                let a = if i < at { i } else { i - 1 };
                let b = if j < at { j } else { j - 1 };
                if i != at {
                    assert(p[i] == before[a]);
                }
                if j != at {
                    assert(p[j] == before[b]);
                }
                if j == at {
                    assert(key_le(ks[before[at - 1] as int], ks[n as int]));
                    if i < at - 1 {
                        assert(key_le(ks[before[i] as int], ks[before[at - 1] as int]));
                        lemma_key_transitive(
                            ks[before[i] as int],
                            ks[before[at - 1] as int],
                            ks[n as int],
                        );
                    }
                } else if i == at {
                    assert(!key_le(ks[before[b] as int], ks[n as int]));
                    lemma_key_total(ks[before[b] as int], ks[n as int]);
                } else {
                    assert(a < b);
                }
            }
        }
        n += 1;
    }
    proof {
        let q = crate::graph::ints(p@);
        assert forall|i: int, j: int| 0 <= i < j < q.len() implies key_le(
            ks[#[trigger] q[i]],
            ks[#[trigger] q[j]],
        ) && (key_le(ks[q[j]], ks[q[i]]) ==> q[i] < q[j]) by {
            assert(q[i] == p[i] as int && q[j] == p[j] as int);
        }
    }
    p
}

/// The stable sort of `keys` is one arrangement only: two that both are it
/// are the same.
pub proof fn lemma_stable_sort_unique(keys: Seq<KeyView>, p: Seq<int>, q: Seq<int>)
    requires
        is_stable_sort(keys, p),
        is_stable_sort(keys, q),
    ensures
        p == q,
{
    lemma_prefix_same(keys, p, q, p.len() as int);
    assert(p =~= q);
}

proof fn lemma_prefix_same(keys: Seq<KeyView>, p: Seq<int>, q: Seq<int>, k: int)
    requires
        is_stable_sort(keys, p),
        is_stable_sort(keys, q),
        0 <= k <= p.len(),
    ensures
        forall|i: int| 0 <= i < k ==> p[i] == q[i],
    decreases k,
{
    if k > 0 {
        lemma_prefix_same(keys, p, q, k - 1);
        lemma_same_place_given(keys, p, q, k - 1);
    }
}

proof fn lemma_same_place_given(keys: Seq<KeyView>, p: Seq<int>, q: Seq<int>, i: int)
    requires
        is_stable_sort(keys, p),
        is_stable_sort(keys, q),
        0 <= i < p.len(),
        forall|j: int| 0 <= j < i ==> p[j] == q[j],
    ensures
        p[i] == q[i],
{
    let x = p[i];
    let y = q[i];
    if x != y {
        lemma_permutation_onto(q, keys.len() as int, x);
        lemma_permutation_onto(p, keys.len() as int, y);
        let jx = choose|j: int| 0 <= j < q.len() && q[j] == x;
        let jy = choose|j: int| 0 <= j < p.len() && p[j] == y;
        if jx < i {
            assert(p[jx] == q[jx]);
            assert(p[jx] != p[i]);
        }
        if jy < i {
            assert(q[jy] == p[jy]);
            assert(q[jy] != q[i]);
        }
        assert(jx > i && jy > i);
        assert(key_le(keys[q[i]], keys[q[jx]]));
        assert(key_le(keys[p[i]], keys[p[jy]]));
        assert(q[i] < q[jx]);
        assert(p[i] < p[jy]);
    }
}

/// A permutation of the places below `n` holds each of them.
pub proof fn lemma_permutation_onto(p: Seq<int>, n: int, x: int)
    requires
        is_permutation(p, n),
        0 <= x < n,
    ensures
        exists|j: int| 0 <= j < p.len() && p[j] == x,
{
    if !p.contains(x) {
        // p would hold n distinct values out of the n - 1 below n other
        // than x
        let s = p.to_set();
        p.unique_seq_to_set();
        let all = Set::new(|v: int| 0 <= v < n);
        vstd::set_lib::lemma_int_range(0, n);
        assert(all =~= vstd::set_lib::set_int_range(0, n));
        let rest = all.remove(x);
        assert(s.subset_of(rest)) by {
            assert forall|v: int| s.contains(v) implies rest.contains(v) by {
                let j = choose|j: int| 0 <= j < p.len() && p[j] == v;
                assert(0 <= p[j] < n);
            }
        }
        vstd::set_lib::lemma_len_subset(s, rest);
    }
}

} // verus!

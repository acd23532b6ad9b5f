//! The pairs of bodies that act on each other, enumerated by the itertools
//! crate.

use itertools::Itertools;
use vstd::prelude::*;

verus! {

/// Whether the list of all pairs of `n` indices fits in one allocation: a
/// pair takes up to 16 bytes, and an allocation at most half of the address
/// space.
pub open spec fn pairs_fit(n: nat) -> bool {
    n * n <= usize::MAX / 32
}

/// Whether `n` indices can be paired.
pub fn can_pair(n: usize) -> (fits: bool)
    ensures
        fits == pairs_fit(n as nat),
{
    match n.checked_mul(n) {
        Some(square) => square <= usize::MAX / 32,
        None => false,
    }
}

/// `p` comes before `q` in dictionary order.
pub open spec fn pair_before(p: (usize, usize), q: (usize, usize)) -> bool {
    p.0 < q.0 || (p.0 == q.0 && p.1 < q.1)
}

/// `p` is an ordered pair of two different indices below `n`.
pub open spec fn is_ordered_pair(p: (usize, usize), n: nat) -> bool {
    p.0 < n && p.1 < n && p.0 != p.1
}

/// `p` is a pair of indices below `n`, the smaller first.
pub open spec fn is_unordered_pair(p: (usize, usize), n: nat) -> bool {
    p.0 < p.1 < n
}

/// `pairs` lists every ordered pair of different indices below `n` exactly
/// once, in dictionary order.
pub open spec fn lists_ordered_pairs(pairs: Seq<(usize, usize)>, n: nat) -> bool {
    &&& forall|k: int| 0 <= k < pairs.len() ==> is_ordered_pair(#[trigger] pairs[k], n)
    &&& ascending(pairs)
    &&& forall|p: (usize, usize)| is_ordered_pair(p, n) ==> pairs.contains(p)
}

/// `pairs` lists every pair of indices below `n`, the smaller first, exactly
/// once, in dictionary order.
pub open spec fn lists_unordered_pairs(pairs: Seq<(usize, usize)>, n: nat) -> bool {
    &&& forall|k: int| 0 <= k < pairs.len() ==> is_unordered_pair(#[trigger] pairs[k], n)
    &&& ascending(pairs)
    &&& forall|p: (usize, usize)| is_unordered_pair(p, n) ==> pairs.contains(p)
}

/// The pairs stand in dictionary order, each before the next.
pub open spec fn ascending(pairs: Seq<(usize, usize)>) -> bool {
    forall|k: int, l: int| 0 <= k < l < pairs.len() ==> pair_before(pairs[k], pairs[l])
}

/// Two ascending lists that hold the same pairs are one list.
proof fn lemma_same_listing(a: Seq<(usize, usize)>, b: Seq<(usize, usize)>)
    requires
        ascending(a),
        ascending(b),
        forall|p: (usize, usize)| a.contains(p) <==> b.contains(p),
    ensures
        a == b,
    decreases a.len(),
{
    if a.len() == 0 {
        if b.len() > 0 {
            assert(b.contains(b[0]));
        }
        assert(a =~= b);
    } else {
        let top = a.last();
        assert(a.contains(top));
        let l = choose|l: int| 0 <= l < b.len() && b[l] == top;
        let other = b.last();
        assert(b.contains(other));
        let k = choose|k: int| 0 <= k < a.len() && a[k] == other;
        if l < b.len() - 1 {
            assert(pair_before(b[l], b[b.len() - 1]));
        }
        if k < a.len() - 1 {
            assert(pair_before(a[k], a[a.len() - 1]));
        }
        assert(top.0 == other.0 && top.1 == other.1);
        let a0 = a.drop_last();
        let b0 = b.drop_last();
        assert forall|p: (usize, usize)| a0.contains(p) <==> b0.contains(p) by {
            if a0.contains(p) {
                let i = choose|i: int| 0 <= i < a0.len() && a0[i] == p;
                assert(a[i] == p);
                assert(pair_before(p, top));
                assert(a.contains(p));
                let j = choose|j: int| 0 <= j < b.len() && b[j] == p;
                assert(b0[j] == p);
            }
            if b0.contains(p) {
                let i = choose|i: int| 0 <= i < b0.len() && b0[i] == p;
                assert(b[i] == p);
                assert(pair_before(p, other));
                assert(b.contains(p));
                let j = choose|j: int| 0 <= j < a.len() && a[j] == p;
                assert(a0[j] == p);
            }
        }
        lemma_same_listing(a0, b0);
        assert(a =~= a0.push(top));
        assert(b =~= b0.push(other));
    }
}

/// There is one list of all ordered pairs of different indices below `n`.
pub proof fn lemma_ordered_pairs_unique(n: nat, a: Seq<(usize, usize)>, b: Seq<(usize, usize)>)
    requires
        lists_ordered_pairs(a, n),
        lists_ordered_pairs(b, n),
    ensures
        a == b,
{
    assert forall|p: (usize, usize)| a.contains(p) <==> b.contains(p) by {
        if a.contains(p) {
            let i = choose|i: int| 0 <= i < a.len() && a[i] == p;
            assert(is_ordered_pair(a[i], n));
        }
        if b.contains(p) {
            let i = choose|i: int| 0 <= i < b.len() && b[i] == p;
            assert(is_ordered_pair(b[i], n));
        }
    }
    lemma_same_listing(a, b);
}

/// There is one list of all pairs of indices below `n`, the smaller first.
pub proof fn lemma_unordered_pairs_unique(n: nat, a: Seq<(usize, usize)>, b: Seq<(usize, usize)>)
    requires
        lists_unordered_pairs(a, n),
        lists_unordered_pairs(b, n),
    ensures
        a == b,
{
    assert forall|p: (usize, usize)| a.contains(p) <==> b.contains(p) by {
        if a.contains(p) {
            let i = choose|i: int| 0 <= i < a.len() && a[i] == p;
            assert(is_unordered_pair(a[i], n));
        }
        if b.contains(p) {
            let i = choose|i: int| 0 <= i < b.len() && b[i] == p;
            assert(is_unordered_pair(b[i], n));
        }
    }
    lemma_same_listing(a, b);
}

/// `Itertools::permutations(2)` of the itertools crate over the indices
/// `0..n`, each permutation handed out as a pair. The crate yields the
/// 2-permutations of the positions in dictionary order, each once; this is
/// taken on trust.
#[verifier::external_body]
pub(crate) fn index_permutations(n: usize) -> (pairs: Vec<(usize, usize)>)
    requires
        pairs_fit(n as nat),
    ensures
        lists_ordered_pairs(pairs@, n as nat),
{
    (0..n).permutations(2).map(|p| (p[0], p[1])).collect()
}

/// `Itertools::combinations(2)` of the itertools crate over the indices
/// `0..n`, each combination handed out as a pair. The crate yields the
/// 2-combinations of the positions in dictionary order, each once, the
/// earlier position first; this is taken on trust.
#[verifier::external_body]
pub(crate) fn index_combinations(n: usize) -> (pairs: Vec<(usize, usize)>)
    requires
        pairs_fit(n as nat),
    ensures
        lists_unordered_pairs(pairs@, n as nat),
{
    (0..n).combinations(2).map(|p| (p[0], p[1])).collect()
}

} // verus!

//! The sorted value set of the uniqueness and coverage validator.
//!
//! Assigned integer values are kept strictly sorted; a binary search finds
//! the insertion point of each new value and an exact match there is a
//! duplicate.  The counting lemmas below turn the set's cardinality into the
//! coverage facts the default policy needs.

use vstd::prelude::*;

verus! {

/// Strictly increasing: sorted and free of duplicates.
pub open spec fn strictly_sorted(s: Seq<u128>) -> bool {
    forall|i: int, j: int| 0 <= i < j < s.len() ==> s[i] < s[j]
}

/// Inserts a value into a strictly sorted vector via binary search, or
/// reports that it is already present and leaves the vector unchanged.
pub fn sorted_insert(v: &mut Vec<u128>, x: u128) -> (dup: bool)
    requires
        strictly_sorted(old(v)@),
        old(v).len() < usize::MAX,
    ensures
        dup == old(v)@.contains(x),
        strictly_sorted(final(v)@),
        dup ==> final(v)@ == old(v)@,
        !dup ==> final(v)@.len() == old(v)@.len() + 1,
        forall|y: u128| final(v)@.contains(y) <==> (old(v)@.contains(y) || y == x),
{
    let mut lo: usize = 0;
    let mut hi: usize = v.len();
    while lo < hi
        invariant
            lo <= hi <= v.len(),
            strictly_sorted(v@),
            v@ == old(v)@,
            forall|k: int| 0 <= k < lo ==> v@[k] < x,
            forall|k: int| hi <= k < v@.len() ==> v@[k] > x,
        decreases hi - lo,
    {
        let mid = lo + (hi - lo) / 2;
        if v[mid] == x {
            proof {
                assert(old(v)@.contains(x));
            }
            return true;
        } else if v[mid] < x {
            lo = mid + 1;
        } else {
            hi = mid;
        }
    }
    proof {
        assert(!old(v)@.contains(x)) by {
            assert forall|k: int| 0 <= k < v@.len() implies v@[k] != x by {
                if k < lo {
                } else {
                }
            }
        }
    }
    let ghost pre = v@;
    v.insert(lo, x);
    proof {
        assert forall|i: int, j: int| 0 <= i < j < v@.len() implies v@[i] < v@[j] by {
            assert(v@ == pre.insert(lo as int, x));
        }
        assert forall|y: u128| v@.contains(y) <==> (pre.contains(y) || y == x) by {
            if v@.contains(y) {
                let i = choose|i: int| 0 <= i < v@.len() && v@[i] == y;
                if i < lo {
                    assert(pre[i] == y);
                } else if i == lo {
                } else {
                    assert(pre[i - 1] == y);
                }
            }
            if pre.contains(y) {
                let i = choose|i: int| 0 <= i < pre.len() && pre[i] == y;
                if i < lo {
                    assert(v@[i] == y);
                } else {
                    assert(v@[i + 1] == y);
                }
            }
            if y == x {
                assert(v@[lo as int] == y);
            }
        }
    }
    false
}

/// The smallest value absent from a strictly sorted vector, found by
/// walking the leading run `0, 1, 2, ...`.
pub fn first_absent(v: &Vec<u128>) -> (r: u128)
    requires
        strictly_sorted(v@),
    ensures
        !v@.contains(r),
        forall|k: u128| k < r ==> v@.contains(k),
{
    let mut i: usize = 0;
    while i < v.len()
        invariant
            i <= v.len(),
            strictly_sorted(v@),
            forall|j: int| 0 <= j < i ==> v@[j] == j as u128,
        decreases v.len() - i,
    {
        if v[i] != i as u128 {
            proof {
                lemma_sorted_lower_bound(v@, i as int);
                assert forall|j: int| 0 <= j < v@.len() implies v@[j] != i as u128 by {
                    if j > i {
                        assert(v@[i as int] < v@[j]);
                    }
                }
                assert forall|k: u128| k < i as u128 implies v@.contains(k) by {
                    assert(v@[k as int] == k);
                }
            }
            return i as u128;
        }
        i = i + 1;
    }
    proof {
        assert forall|j: int| 0 <= j < v@.len() implies v@[j] != i as u128 by {
            assert(v@[j] == j as u128);
        }
        assert forall|k: u128| k < i as u128 implies v@.contains(k) by {
            assert(v@[k as int] == k);
        }
    }
    i as u128
}

/// In a strictly sorted sequence each value is at least its index.
pub proof fn lemma_sorted_lower_bound(s: Seq<u128>, i: int)
    requires
        strictly_sorted(s),
        0 <= i < s.len(),
    ensures
        s[i] >= i,
    decreases i,
{
    if i > 0 {
        lemma_sorted_lower_bound(s, i - 1);
    }
}

/// A strictly sorted sequence of `n` values below `n` is exactly
/// `0, 1, ..., n-1`: it contains every value of that range.
pub proof fn lemma_sorted_full_covers(s: Seq<u128>, n: nat)
    requires
        strictly_sorted(s),
        s.len() == n,
        forall|i: int| 0 <= i < s.len() ==> (#[trigger] s[i] as nat) < n,
    ensures
        forall|k: nat| k < n ==> s.contains(#[trigger] (k as u128)),
{
    assert forall|k: nat| k < n implies s.contains(#[trigger] (k as u128)) by {
        lemma_sorted_exact(s, n, k as int);
        assert(s[k as int] == k as u128);
    }
}

/// Helper: under the premises of `lemma_sorted_full_covers`, `s[i] == i`.
proof fn lemma_sorted_exact(s: Seq<u128>, n: nat, i: int)
    requires
        strictly_sorted(s),
        s.len() == n,
        forall|i: int| 0 <= i < s.len() ==> (#[trigger] s[i] as nat) < n,
        0 <= i < n,
    ensures
        s[i] == i as u128,
    decreases n - i,
{
    lemma_sorted_lower_bound(s, i);
    if i < n - 1 {
        lemma_sorted_exact(s, n, i + 1);
    }
}

/// A strictly sorted sequence that contains every value below `n` has at
/// least `n` elements.
pub proof fn lemma_covering_length(s: Seq<u128>, n: nat)
    requires
        strictly_sorted(s),
        n <= u128::MAX as nat + 1,
        forall|k: nat| k < n ==> s.contains(#[trigger] (k as u128)),
    ensures
        s.len() >= n,
{
    if n > 0 {
        lemma_covering_position(s, n, (n - 1) as nat);
    }
}

/// Helper: the value `k` sits at position at most `k`, so positions up to
/// `k` all exist.
proof fn lemma_covering_position(s: Seq<u128>, n: nat, k: nat)
    requires
        strictly_sorted(s),
        n <= u128::MAX as nat + 1,
        forall|k: nat| k < n ==> s.contains(#[trigger] (k as u128)),
        k < n,
    ensures
        k < s.len(),
        s[k as int] <= k as u128,
    decreases k,
{
    assert(s.contains(k as u128));
    let i = choose|i: int| 0 <= i < s.len() && s[i] == k as u128;
    if k == 0 {
        assert(s[0] <= s[i]);
    } else {
        lemma_covering_position(s, n, (k - 1) as nat);
        // The position of k-1 lies strictly before i, so i is at least k.
        assert(s[(k - 1) as int] < s[i]);
        assert(i >= k);
        assert(s[k as int] <= s[i]);
    }
}

} // verus!

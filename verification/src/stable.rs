use vstd::prelude::*;
use vstd::set_lib::{lemma_int_range, lemma_subset_equality, set_int_range};

verus! {

/// `s` is in ascending order of `key`.
pub open spec fn sorted_by<T>(s: Seq<T>, key: spec_fn(T) -> int) -> bool {
    forall|i: int, j: int| 0 <= i < j < s.len() ==> key(#[trigger] s[i]) <= key(#[trigger] s[j])
}

/// `perm` maps each position of `after` to the position in `before` that its
/// item came from, one to one, keeping items of equal key in their order.
pub open spec fn stable_witness_by<T>(
    before: Seq<T>,
    after: Seq<T>,
    perm: Seq<int>,
    key: spec_fn(T) -> int,
) -> bool {
    &&& perm.len() == after.len()
    &&& forall|i: int|
        0 <= i < perm.len() ==> 0 <= #[trigger] perm[i] < before.len() && after[i] == before[perm[i]]
    &&& forall|i: int, j: int| 0 <= i < j < perm.len() ==> #[trigger] perm[i] != #[trigger] perm[j]
    &&& forall|i: int, j: int|
        0 <= i < j < after.len() && key(#[trigger] after[i]) == key(#[trigger] after[j]) ==> perm[i]
            < perm[j]
}

/// `after` is a stable sort of `before` by ascending `key`.
pub open spec fn is_stable_sort_by<T>(before: Seq<T>, after: Seq<T>, key: spec_fn(T) -> int) -> bool {
    &&& after.len() == before.len()
    &&& sorted_by(after, key)
    &&& exists|perm: Seq<int>| stable_witness_by(before, after, perm, key)
}

/// Inserts `x` into `s` after every item whose key is not above `x`'s.
pub open spec fn insert_by<T>(s: Seq<T>, x: T, key: spec_fn(T) -> int) -> Seq<T>
    decreases s.len(),
{
    if s.len() == 0 {
        seq![x]
    } else if key(s.last()) <= key(x) {
        s.push(x)
    } else {
        insert_by(s.drop_last(), x, key).push(s.last())
    }
}

/// The stable sort of `s` by ascending `key` (insertion sort).
pub open spec fn stable_sort_by<T>(s: Seq<T>, key: spec_fn(T) -> int) -> Seq<T>
    decreases s.len(),
{
    if s.len() == 0 {
        s
    } else {
        insert_by(stable_sort_by(s.drop_last(), key), s.last(), key)
    }
}

/// Where the items before `p` do not have a key above `x`'s and those from
/// `p` on have one above it, `x` is inserted at `p`.
proof fn lemma_insert_at<T>(s: Seq<T>, x: T, key: spec_fn(T) -> int, p: int)
    requires
        0 <= p <= s.len(),
        forall|i: int| 0 <= i < p ==> key(#[trigger] s[i]) <= key(x),
        forall|i: int| p <= i < s.len() ==> key(#[trigger] s[i]) > key(x),
    ensures
        insert_by(s, x, key) == s.take(p).push(x) + s.skip(p),
    decreases s.len(),
{
    if s.len() == 0 {
        assert(s.take(p).push(x) + s.skip(p) =~= seq![x]);
    } else if p == s.len() {
        assert(key(s[s.len() - 1]) <= key(x));
        assert(s.take(p).push(x) + s.skip(p) =~= s.push(x));
    } else {
        let init = s.drop_last();
        assert(key(s[s.len() - 1]) > key(x));
        assert forall|i: int| 0 <= i < p implies key(#[trigger] init[i]) <= key(x) by {
            assert(init[i] == s[i]);
        }
        assert forall|i: int| p <= i < init.len() implies key(#[trigger] init[i]) > key(x) by {
            assert(init[i] == s[i]);
        }
        lemma_insert_at(init, x, key, p);
        assert((init.take(p).push(x) + init.skip(p)).push(s.last()) =~= s.take(p).push(x) + s.skip(
            p,
        ));
    }
}

/// A one-to-one map from `n` positions into `0..n` reaches every position.
proof fn lemma_injective_covers(perm: Seq<int>, n: int)
    requires
        perm.len() == n,
        forall|i: int| 0 <= i < n ==> 0 <= #[trigger] perm[i] < n,
        forall|i: int, j: int| 0 <= i < j < n ==> #[trigger] perm[i] != #[trigger] perm[j],
    ensures
        forall|v: int| 0 <= v < n ==> #[trigger] perm.contains(v),
{
    assert(perm.no_duplicates()) by {
        assert forall|i: int, j: int| 0 <= i < n && 0 <= j < n && i != j implies perm[i]
            != perm[j] by {
            if i < j {
                assert(perm[i] != perm[j]);
            } else {
                assert(perm[j] != perm[i]);
            }
        }
    }
    perm.unique_seq_to_set();
    lemma_int_range(0, n);
    vstd::seq_lib::seq_to_set_is_finite(perm);
    assert(perm.to_set().subset_of(set_int_range(0, n)));
    lemma_subset_equality(perm.to_set(), set_int_range(0, n));
    assert forall|v: int| 0 <= v < n implies #[trigger] perm.contains(v) by {
        assert(set_int_range(0, n).contains(v));
        assert(perm.to_set().contains(v));
    }
}

/// A stable sort has exactly one result: any stable sort of `before` by
/// `key` is `stable_sort_by(before, key)`.
pub proof fn lemma_stable_sort_unique<T>(before: Seq<T>, after: Seq<T>, key: spec_fn(T) -> int)
    requires
        is_stable_sort_by(before, after, key),
    ensures
        after == stable_sort_by(before, key),
    decreases before.len(),
{
    let n = before.len() as int;
    if n == 0 {
        assert(after =~= before);
        return;
    }
    let perm = choose|perm: Seq<int>| stable_witness_by(before, after, perm, key);
    lemma_injective_covers(perm, n);
    assert(perm.contains(n - 1));
    let p = choose|i: int| 0 <= i < n && perm[i] == n - 1;
    let x = before.last();
    let rest_before = before.drop_last();
    let rest_after = after.remove(p);
    let rest_perm = perm.remove(p);
    assert(after[p] == x);
    // Position `i` of the shortened sequences is position `up(i)` of the full ones.
    assert forall|i: int| 0 <= i < n - 1 implies #[trigger] rest_after[i] == after[if i < p {
        i
    } else {
        i + 1
    }] && rest_perm[i] == perm[if i < p {
        i
    } else {
        i + 1
    }] by {}
    assert(stable_witness_by(rest_before, rest_after, rest_perm, key)) by {
        assert forall|i: int| 0 <= i < n - 1 implies 0 <= #[trigger] rest_perm[i] < n - 1
            && rest_after[i] == rest_before[rest_perm[i]] by {
            let k = if i < p {
                i
            } else {
                i + 1
            };
            if k < p {
                assert(perm[k] != perm[p]);
            } else {
                assert(perm[p] != perm[k]);
            }
        }
        assert forall|i: int, j: int| 0 <= i < j < n - 1 implies #[trigger] rest_perm[i]
            != #[trigger] rest_perm[j] by {
            let ki = if i < p {
                i
            } else {
                i + 1
            };
            let kj = if j < p {
                j
            } else {
                j + 1
            };
            assert(perm[ki] != perm[kj]);
        }
        assert forall|i: int, j: int|
            0 <= i < j < n - 1 && key(#[trigger] rest_after[i]) == key(
                #[trigger] rest_after[j],
            ) implies rest_perm[i] < rest_perm[j] by {
            let ki = if i < p {
                i
            } else {
                i + 1
            };
            let kj = if j < p {
                j
            } else {
                j + 1
            };
            assert(key(after[ki]) == key(after[kj]));
        }
    }
    assert(sorted_by(rest_after, key)) by {
        assert forall|i: int, j: int| 0 <= i < j < n - 1 implies key(#[trigger] rest_after[i])
            <= key(#[trigger] rest_after[j]) by {
            let ki = if i < p {
                i
            } else {
                i + 1
            };
            let kj = if j < p {
                j
            } else {
                j + 1
            };
            assert(key(after[ki]) <= key(after[kj]));
        }
    }
    lemma_stable_sort_unique(rest_before, rest_after, key);
    assert forall|i: int| 0 <= i < p implies key(#[trigger] rest_after[i]) <= key(x) by {
        assert(key(after[i]) <= key(after[p]));
    }
    assert forall|i: int| p <= i < n - 1 implies key(#[trigger] rest_after[i]) > key(x) by {
        assert(key(after[p]) <= key(after[i + 1]));
        if key(after[p]) == key(after[i + 1]) {
            assert(perm[p] < perm[i + 1]);
        }
    }
    lemma_insert_at(rest_after, x, key, p);
    assert(rest_after.take(p).push(x) + rest_after.skip(p) =~= after);
}

} // verus!

use vstd::prelude::*;

verus! {

/// `idx` lists, in increasing order, exactly the positions `i < n` where
/// `pick(i)` holds, and `out` is `f` of each of them.
pub open spec fn selects<B>(
    n: int,
    pick: spec_fn(int) -> bool,
    f: spec_fn(int) -> B,
    out: Seq<B>,
    idx: Seq<int>,
) -> bool {
    &&& idx.len() == out.len()
    &&& forall|j: int|
        0 <= j < idx.len() ==> 0 <= #[trigger] idx[j] < n && pick(idx[j]) && out[j] == f(idx[j])
    &&& forall|a: int, b: int| 0 <= a < b < idx.len() ==> #[trigger] idx[a] < #[trigger] idx[b]
    &&& forall|i: int| 0 <= i < n && #[trigger] pick(i) ==> exists|j: int| 0 <= j < idx.len() && idx[j] == i
}

/// `out` is, in order, `f` of every position below `n` where `pick` holds,
/// and of nothing else.
pub open spec fn is_selection<B>(
    n: int,
    pick: spec_fn(int) -> bool,
    f: spec_fn(int) -> B,
    out: Seq<B>,
) -> bool {
    exists|idx: Seq<int>| selects(n, pick, f, out, idx)
}

/// Nothing is selected below position 0.
pub proof fn lemma_selection_empty<B>(pick: spec_fn(int) -> bool, f: spec_fn(int) -> B)
    ensures
        is_selection(0, pick, f, Seq::<B>::empty()),
{
    assert(selects(0, pick, f, Seq::<B>::empty(), Seq::<int>::empty()));
}

/// A selection below `n` grows into one below `n + 1` by taking position `n`
/// exactly when `pick(n)` holds.
pub proof fn lemma_selection_step<B>(
    n: int,
    pick: spec_fn(int) -> bool,
    f: spec_fn(int) -> B,
    out: Seq<B>,
)
    requires
        0 <= n,
        is_selection(n, pick, f, out),
    ensures
        is_selection(n + 1, pick, f, if pick(n) { out.push(f(n)) } else { out }),
{
    let idx = choose|idx: Seq<int>| selects(n, pick, f, out, idx);
    if pick(n) {
        let idx2 = idx.push(n);
        let out2 = out.push(f(n));
        assert forall|j: int| 0 <= j < idx2.len() implies 0 <= #[trigger] idx2[j] < n + 1 && pick(
            idx2[j],
        ) && out2[j] == f(idx2[j]) by {
            if j < idx.len() {
                assert(idx2[j] == idx[j]);
            }
        }
        assert forall|a: int, b: int| 0 <= a < b < idx2.len() implies #[trigger] idx2[a]
            < #[trigger] idx2[b] by {
            assert(idx2[a] == idx[a]);
            if b < idx.len() {
                assert(idx2[b] == idx[b]);
            }
        }
        assert forall|i: int| 0 <= i < n + 1 && #[trigger] pick(i) implies exists|j: int|
            0 <= j < idx2.len() && idx2[j] == i by {
            if i == n {
                assert(idx2[idx.len() as int] == i);
            } else {
                let j = choose|j: int| 0 <= j < idx.len() && idx[j] == i;
                assert(idx2[j] == i);
            }
        }
        assert(selects(n + 1, pick, f, out2, idx2));
    } else {
        assert forall|i: int| 0 <= i < n + 1 && #[trigger] pick(i) implies exists|j: int|
            0 <= j < idx.len() && idx[j] == i by {}
        assert(selects(n + 1, pick, f, out, idx));
    }
}

} // verus!

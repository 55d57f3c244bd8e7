use vstd::prelude::*;

use crate::select::{is_selection, lemma_selection_empty, lemma_selection_step};

verus! {

/// Why a material could not be prepared this frame.
pub enum PrepareError {
    /// A resource that the material needs is not ready yet; retry next frame.
    RetryNextUpdate,
}

/// A material of the frame together with the outcome of preparing it.
pub type Prepared<K, M, P> = (K, M, Result<P, PrepareError>);

/// The keys and prepared data of the materials that were prepared, in order.
pub open spec fn ready_of<K, M, P>(results: Seq<Prepared<K, M, P>>) -> Seq<(K, P)>
    decreases results.len(),
{
    if results.len() == 0 {
        Seq::empty()
    } else {
        let (key, _material, outcome) = results.last();
        match outcome {
            Ok(prepared) => ready_of(results.drop_last()).push((key, prepared)),
            Err(_) => ready_of(results.drop_last()),
        }
    }
}

/// The materials that must be retried, in order.
pub open spec fn retries_of<K, M, P>(results: Seq<Prepared<K, M, P>>) -> Seq<(K, M)>
    decreases results.len(),
{
    if results.len() == 0 {
        Seq::empty()
    } else {
        let (key, material, outcome) = results.last();
        match outcome {
            Ok(_) => retries_of(results.drop_last()),
            Err(_) => retries_of(results.drop_last()).push((key, material)),
        }
    }
}

/// The entries of `queue` whose flag in `live` is set, in order.
pub open spec fn kept_entries<K, M>(queue: Seq<(K, M)>, live: Seq<bool>) -> Seq<(K, M)>
    decreases queue.len(),
{
    if queue.len() == 0 {
        Seq::empty()
    } else if live[queue.len() - 1] {
        kept_entries(queue.drop_last(), live).push(queue.last())
    } else {
        kept_entries(queue.drop_last(), live)
    }
}

/// The materials that are waiting to be prepared in a later frame.
pub struct MaterialQueue<K, M> {
    assets: Vec<(K, M)>,
}

impl<K, M> View for MaterialQueue<K, M> {
    type V = Seq<(K, M)>;

    open spec fn view(&self) -> Seq<(K, M)> {
        self.queued()
    }
}

impl<K, M> MaterialQueue<K, M> {
    /// The waiting materials, oldest first.
    pub closed spec fn queued(&self) -> Seq<(K, M)> {
        self.assets@
    }

    /// An empty queue.
    pub fn new() -> (queue: Self)
        ensures
            queue@ == Seq::<(K, M)>::empty(),
    {
        MaterialQueue { assets: Vec::new() }
    }

    /// The waiting materials, oldest first.
    pub fn waiting(&self) -> (waiting: &Vec<(K, M)>)
        ensures
            waiting@ == self@,
    {
        &self.assets
    }

    /// Hands over every waiting material, oldest first, and leaves the queue
    /// empty.
    pub fn take_queued(&mut self) -> (taken: Vec<(K, M)>)
        ensures
            taken@ == old(self)@,
            final(self)@ == Seq::<(K, M)>::empty(),
    {
        let mut taken = Vec::new();
        std::mem::swap(&mut taken, &mut self.assets);
        taken
    }

    /// Drops the waiting materials whose asset no longer exists: the entry at
    /// each position stays exactly when `live` is set at that position, and
    /// the entries that stay keep their order.
    pub fn retain_live(&mut self, live: &Vec<bool>)
        requires
            live@.len() == old(self)@.len(),
        ensures
            final(self)@ == kept_entries(old(self)@, live@),
            is_selection(old(self)@.len() as int, flagged_at(live@), entry_at(old(self)@), final(self)@),
    {
        let mut waiting = Vec::new();
        std::mem::swap(&mut waiting, &mut self.assets);
        let ghost all = waiting@;
        let n = live.len();
        let mut i: usize = 0;
        for entry in it: waiting.into_iter()
            invariant
                n == live@.len(),
                it.seq() == all,
                i == it.index(),
                i <= all.len(),
                all.len() == live@.len(),
                self@ == kept_entries(all.take(i as int), live@),
        {
            proof {
                let taken = all.take(i + 1);
                assert(taken.drop_last() =~= all.take(i as int));
            }
            if live[i] {
                self.assets.push(entry);
            }
            i = i + 1;
        }
        proof {
            assert(all.take(all.len() as int) =~= all);
            lemma_retain_selects_flagged(all, live@);
        }
    }

    /// Settles the outcomes of preparing a batch of materials: those that were
    /// prepared come back, in order, to be stored; those that must be retried
    /// join the end of the queue, in order.
    pub fn settle_batch<P>(&mut self, results: Vec<Prepared<K, M, P>>) -> (ready: Vec<(K, P)>)
        ensures
            ready@ == ready_of(results@),
            final(self)@ == old(self)@ + retries_of(results@),
            is_selection(results@.len() as int, prepared_at(results@), ready_pair_at(results@), ready@),
            is_selection(
                results@.len() as int,
                retried_at(results@),
                retry_pair_at(results@),
                final(self)@.skip(old(self)@.len() as int),
            ),
    {
        let ghost all = results@;
        let mut ready: Vec<(K, P)> = Vec::new();
        for item in it: results.into_iter()
            invariant
                it.seq() == all,
                ready@ == ready_of(all.take(it.index() as int)),
                self@ == old(self)@ + retries_of(all.take(it.index() as int)),
        {
            let ghost idx = it.index() as int;
            proof {
                assert(all.take(idx + 1).drop_last() =~= all.take(idx));
            }
            let (key, material, outcome) = item;
            match outcome {
                Ok(prepared) => {
                    ready.push((key, prepared));
                },
                Err(_) => {
                    self.assets.push((key, material));
                },
            }
        }
        proof {
            assert(all.take(all.len() as int) =~= all);
            lemma_settle_selects_by_outcome(all);
            assert(self@.skip(old(self)@.len() as int) =~= retries_of(all));
        }
        ready
    }
}

/// Settling a batch accounts for every material exactly once: each is either
/// ready or queued for a retry.
pub proof fn lemma_settle_accounts_for_every_material<K, M, P>(results: Seq<Prepared<K, M, P>>)
    ensures
        ready_of(results).len() + retries_of(results).len() == results.len(),
    decreases results.len(),
{
    if results.len() > 0 {
        lemma_settle_accounts_for_every_material(results.drop_last());
    }
}

/// Every key that the retained entries carry is one whose flag is set.
proof fn lemma_kept_entries_are_live<K, M>(queue: Seq<(K, M)>, live: Seq<bool>, j: int)
    requires
        live.len() == queue.len(),
        0 <= j < kept_entries(queue, live).len(),
    ensures
        exists|i: int| 0 <= i < queue.len() && live[i] && #[trigger] queue[i] == kept_entries(queue, live)[j],
    decreases queue.len(),
{
    let init = queue.drop_last();
    let rest = kept_entries(init, live.drop_last());
    assert(kept_entries(init, live) == kept_entries(init, live.drop_last())) by {
        lemma_kept_entries_ignore_tail(init, live);
    }
    if j < rest.len() {
        lemma_kept_entries_are_live(init, live.drop_last(), j);
        let i = choose|i: int| 0 <= i < init.len() && live.drop_last()[i] && #[trigger] init[i] == rest[j];
        assert(queue[i] == init[i]);
    } else {
        assert(queue[queue.len() - 1] == queue.last());
    }
}

/// Flags beyond the queue's length do not change what is retained.
proof fn lemma_kept_entries_ignore_tail<K, M>(queue: Seq<(K, M)>, live: Seq<bool>)
    requires
        queue.len() < live.len(),
    ensures
        kept_entries(queue, live) == kept_entries(queue, live.drop_last()),
    decreases queue.len(),
{
    if queue.len() > 0 {
        lemma_kept_entries_ignore_tail(queue.drop_last(), live);
    }
}

/// The key of every ready pair comes from the batch.
proof fn lemma_ready_keys_from_batch<K, M, P>(results: Seq<Prepared<K, M, P>>, j: int)
    requires
        0 <= j < ready_of(results).len(),
    ensures
        exists|i: int| 0 <= i < results.len() && #[trigger] results[i].0 == ready_of(results)[j].0,
    decreases results.len(),
{
    let init = results.drop_last();
    if j < ready_of(init).len() {
        lemma_ready_keys_from_batch(init, j);
        let i = choose|i: int| 0 <= i < init.len() && #[trigger] init[i].0 == ready_of(init)[j].0;
        assert(results[i] == init[i]);
    } else {
        assert(results[results.len() - 1] == results.last());
    }
}

/// The key of every retried material comes from the batch.
proof fn lemma_retry_keys_from_batch<K, M, P>(results: Seq<Prepared<K, M, P>>, j: int)
    requires
        0 <= j < retries_of(results).len(),
    ensures
        exists|i: int| 0 <= i < results.len() && #[trigger] results[i].0 == retries_of(results)[j].0,
    decreases results.len(),
{
    let init = results.drop_last();
    if j < retries_of(init).len() {
        lemma_retry_keys_from_batch(init, j);
        let i = choose|i: int| 0 <= i < init.len() && #[trigger] init[i].0 == retries_of(init)[j].0;
        assert(results[i] == init[i]);
    } else {
        assert(results[results.len() - 1] == results.last());
    }
}

/// A frame keeps nothing of a removed asset. The waiting materials are
/// flagged live exactly when their asset is not removed and only those are
/// prepared again, and no extracted material belongs to a removed asset;
/// then no material that comes out ready, and none that waits for the next
/// frame, belongs to a removed asset.
pub proof fn lemma_frame_keeps_no_removed_asset<K, M, P>(
    waiting: Seq<(K, M)>,
    live: Seq<bool>,
    requeued: Seq<Prepared<K, M, P>>,
    extracted: Seq<Prepared<K, M, P>>,
    removed: spec_fn(K) -> bool,
)
    requires
        live.len() == waiting.len(),
        forall|i: int| 0 <= i < waiting.len() ==> live[i] == !removed(#[trigger] waiting[i].0),
        requeued.len() == kept_entries(waiting, live).len(),
        forall|i: int|
            0 <= i < requeued.len() ==> #[trigger] requeued[i].0 == kept_entries(waiting, live)[i].0,
        forall|i: int| 0 <= i < extracted.len() ==> !removed(#[trigger] extracted[i].0),
    ensures
        forall|j: int|
            0 <= j < (ready_of(requeued) + ready_of(extracted)).len() ==> !removed(
                #[trigger] (ready_of(requeued) + ready_of(extracted))[j].0,
            ),
        forall|j: int|
            0 <= j < (retries_of(requeued) + retries_of(extracted)).len() ==> !removed(
                #[trigger] (retries_of(requeued) + retries_of(extracted))[j].0,
            ),
{
    assert forall|i: int| 0 <= i < requeued.len() implies !removed(#[trigger] requeued[i].0) by {
        lemma_kept_entries_are_live(waiting, live, i);
    }
    let ready = ready_of(requeued) + ready_of(extracted);
    assert forall|j: int| 0 <= j < ready.len() implies !removed(#[trigger] ready[j].0) by {
        let n = ready_of(requeued).len() as int;
        if j < n {
            lemma_ready_keys_from_batch(requeued, j);
        } else {
            lemma_ready_keys_from_batch(extracted, j - n);
        }
    }
    let retries = retries_of(requeued) + retries_of(extracted);
    assert forall|j: int| 0 <= j < retries.len() implies !removed(#[trigger] retries[j].0) by {
        let n = retries_of(requeued).len() as int;
        if j < n {
            lemma_retry_keys_from_batch(requeued, j);
        } else {
            lemma_retry_keys_from_batch(extracted, j - n);
        }
    }
}

/// The positions of a batch whose material was prepared.
pub open spec fn prepared_at<K, M, P>(results: Seq<Prepared<K, M, P>>) -> spec_fn(int) -> bool {
    |i: int| results[i].2 is Ok
}

/// The key and prepared data of the batch entry at a position.
pub open spec fn ready_pair_at<K, M, P>(results: Seq<Prepared<K, M, P>>) -> spec_fn(int) -> (K, P) {
    |i: int| (results[i].0, results[i].2->Ok_0)
}

/// The positions of a batch whose material must be retried.
pub open spec fn retried_at<K, M, P>(results: Seq<Prepared<K, M, P>>) -> spec_fn(int) -> bool {
    |i: int| results[i].2 is Err
}

/// The key and material of the batch entry at a position.
pub open spec fn retry_pair_at<K, M, P>(results: Seq<Prepared<K, M, P>>) -> spec_fn(int) -> (K, M) {
    |i: int| (results[i].0, results[i].1)
}

/// The positions of a queue whose flag is set.
pub open spec fn flagged_at(live: Seq<bool>) -> spec_fn(int) -> bool {
    |i: int| live[i]
}

/// The queue entry at a position.
pub open spec fn entry_at<K, M>(queue: Seq<(K, M)>) -> spec_fn(int) -> (K, M) {
    |i: int| queue[i]
}

proof fn lemma_ready_prefix<K, M, P>(results: Seq<Prepared<K, M, P>>, m: int)
    requires
        0 <= m <= results.len(),
    ensures
        is_selection(m, prepared_at(results), ready_pair_at(results), ready_of(results.take(m))),
        is_selection(m, retried_at(results), retry_pair_at(results), retries_of(results.take(m))),
    decreases m,
{
    if m == 0 {
        assert(results.take(0) =~= Seq::<Prepared<K, M, P>>::empty());
        lemma_selection_empty(prepared_at(results), ready_pair_at(results));
        lemma_selection_empty(retried_at(results), retry_pair_at(results));
    } else {
        lemma_ready_prefix(results, m - 1);
        let t = results.take(m);
        assert(t.drop_last() =~= results.take(m - 1));
        assert(t.last() == results[m - 1]);
        lemma_selection_step(
            m - 1,
            prepared_at(results),
            ready_pair_at(results),
            ready_of(results.take(m - 1)),
        );
        lemma_selection_step(
            m - 1,
            retried_at(results),
            retry_pair_at(results),
            retries_of(results.take(m - 1)),
        );
    }
}

/// What settling hands back, directly over the batch: the ready pairs are, in
/// batch order, the key and prepared data of exactly the entries that were
/// prepared; the retried materials are, in batch order, the key and material
/// of exactly the entries that must be retried.
pub proof fn lemma_settle_selects_by_outcome<K, M, P>(results: Seq<Prepared<K, M, P>>)
    ensures
        is_selection(results.len() as int, prepared_at(results), ready_pair_at(results), ready_of(results)),
        is_selection(results.len() as int, retried_at(results), retry_pair_at(results), retries_of(results)),
{
    lemma_ready_prefix(results, results.len() as int);
    assert(results.take(results.len() as int) =~= results);
}

proof fn lemma_kept_prefix<K, M>(queue: Seq<(K, M)>, live: Seq<bool>, m: int)
    requires
        0 <= m <= queue.len(),
    ensures
        is_selection(m, flagged_at(live), entry_at(queue), kept_entries(queue.take(m), live)),
    decreases m,
{
    if m == 0 {
        assert(queue.take(0) =~= Seq::<(K, M)>::empty());
        lemma_selection_empty(flagged_at(live), entry_at(queue));
    } else {
        lemma_kept_prefix(queue, live, m - 1);
        let t = queue.take(m);
        assert(t.drop_last() =~= queue.take(m - 1));
        assert(t.last() == queue[m - 1]);
        lemma_selection_step(m - 1, flagged_at(live), entry_at(queue), kept_entries(queue.take(m - 1), live));
    }
}

/// What retaining keeps, directly over the queue: in queue order, exactly the
/// entries whose flag is set.
pub proof fn lemma_retain_selects_flagged<K, M>(queue: Seq<(K, M)>, live: Seq<bool>)
    ensures
        is_selection(queue.len() as int, flagged_at(live), entry_at(queue), kept_entries(queue, live)),
{
    lemma_kept_prefix(queue, live, queue.len() as int);
    assert(queue.take(queue.len() as int) =~= queue);
}

} // verus!

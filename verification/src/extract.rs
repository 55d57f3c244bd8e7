use vstd::prelude::*;

verus! {

/// An event of an asset store, for the asset with the given key.
pub enum AssetChange {
    Created(u64),
    Modified(u64),
    Removed(u64),
}

/// The key of the asset that an event is about.
pub open spec fn change_key(change: AssetChange) -> u64 {
    match change {
        AssetChange::Created(k) => k,
        AssetChange::Modified(k) => k,
        AssetChange::Removed(k) => k,
    }
}

/// The last event about `k` is a creation or a modification.
pub open spec fn last_change_keeps(events: Seq<AssetChange>, k: u64) -> bool
    decreases events.len(),
{
    if events.len() == 0 {
        false
    } else if change_key(events.last()) == k {
        !(events.last() is Removed)
    } else {
        last_change_keeps(events.drop_last(), k)
    }
}

/// The last event about `k` is a removal.
pub open spec fn last_change_removes(events: Seq<AssetChange>, k: u64) -> bool
    decreases events.len(),
{
    if events.len() == 0 {
        false
    } else if change_key(events.last()) == k {
        events.last() is Removed
    } else {
        last_change_removes(events.drop_last(), k)
    }
}

/// Position `i` holds the last event about `k`: no later event is about `k`.
pub open spec fn is_last_about(events: Seq<AssetChange>, k: u64, i: int) -> bool {
    &&& 0 <= i < events.len()
    &&& change_key(events[i]) == k
    &&& forall|j: int| i < j < events.len() ==> change_key(#[trigger] events[j]) != k
}

/// The outcome for an asset rests on the last event about it alone: the asset
/// is changed exactly when that event is a creation or a modification, and
/// removed exactly when it is a removal; the events about other assets, and
/// the earlier events about it, do not matter.
pub proof fn lemma_last_event_decides(events: Seq<AssetChange>, k: u64)
    ensures
        last_change_keeps(events, k) <==> exists|i: int|
            #[trigger] is_last_about(events, k, i) && !(events[i] is Removed),
        last_change_removes(events, k) <==> exists|i: int|
            #[trigger] is_last_about(events, k, i) && events[i] is Removed,
    decreases events.len(),
{
    if events.len() > 0 {
        let n = events.len() as int;
        let init = events.drop_last();
        lemma_last_event_decides(init, k);
        if change_key(events.last()) == k {
            assert(is_last_about(events, k, n - 1));
            assert forall|i: int| #[trigger] is_last_about(events, k, i) implies i == n - 1 by {
                if i < n - 1 {
                    assert(change_key(events[n - 1]) != k);
                }
            }
        } else {
            assert forall|i: int| #[trigger] is_last_about(events, k, i) implies is_last_about(
                init,
                k,
                i,
            ) && init[i] == events[i] by {
                assert(i != n - 1);
                assert forall|j: int| i < j < init.len() implies change_key(#[trigger] init[j])
                    != k by {
                    assert(init[j] == events[j]);
                }
            }
            assert forall|i: int| #[trigger] is_last_about(init, k, i) implies is_last_about(
                events,
                k,
                i,
            ) && init[i] == events[i] by {
                assert forall|j: int| i < j < events.len() implies change_key(#[trigger] events[j])
                    != k by {
                    if j < n - 1 {
                        assert(init[j] == events[j]);
                    }
                }
            }
        }
    }
}

/// Every asset that the events mention is either changed or removed, never
/// both, and an asset they do not mention is neither.
pub proof fn lemma_changed_or_removed(events: Seq<AssetChange>, k: u64)
    ensures
        !(last_change_keeps(events, k) && last_change_removes(events, k)),
        (last_change_keeps(events, k) || last_change_removes(events, k)) <==> exists|i: int|
            0 <= i < events.len() && change_key(#[trigger] events[i]) == k,
    decreases events.len(),
{
    if events.len() > 0 {
        let init = events.drop_last();
        lemma_changed_or_removed(init, k);
        if change_key(events.last()) != k {
            assert forall|i: int| 0 <= i < events.len() && change_key(#[trigger] events[i]) == k
                implies 0 <= i < init.len() && change_key(init[i]) == k by {
                assert(i != events.len() - 1);
                assert(init[i] == events[i]);
            }
            assert forall|i: int| 0 <= i < init.len() && change_key(#[trigger] init[i]) == k
                implies 0 <= i < events.len() && change_key(events[i]) == k by {
                assert(init[i] == events[i]);
            }
        } else {
            assert(change_key(events[events.len() - 1]) == k);
        }
    }
}

/// A set of asset keys held in bevy's `HashSet` (hashbrown with aHash).
#[verifier::external_body]
pub struct KeySet {
    keys: bevy::utils::HashSet<u64>,
}

/// The keys that a `KeySet` holds.
pub uninterp spec fn key_set_contents(set: KeySet) -> Set<u64>;

impl KeySet {
    /// Calls `bevy::utils::HashSet::default`; the set it returns is empty.
    #[verifier::external_body]
    fn new() -> (set: KeySet)
        ensures
            key_set_contents(set) == Set::<u64>::empty(),
    {
        KeySet { keys: bevy::utils::HashSet::default() }
    }

    /// Calls hashbrown's `HashSet::insert`: the key is in the set afterwards,
    /// the other keys are unchanged, and the result says whether it was new.
    #[verifier::external_body]
    fn insert(&mut self, key: u64) -> (added: bool)
        ensures
            key_set_contents(*final(self)) == key_set_contents(*old(self)).insert(key),
            added == !key_set_contents(*old(self)).contains(key),
    {
        self.keys.insert(key)
    }

    /// Calls hashbrown's `HashSet::remove`: the key is not in the set
    /// afterwards, the other keys are unchanged, and the result says whether
    /// it was there.
    #[verifier::external_body]
    fn remove(&mut self, key: u64) -> (removed: bool)
        ensures
            key_set_contents(*final(self)) == key_set_contents(*old(self)).remove(key),
            removed == key_set_contents(*old(self)).contains(key),
    {
        self.keys.remove(&key)
    }

    /// Calls hashbrown's `HashSet::drain` and collects what it yields: every
    /// key of the set once, in an order that the hash table decides, and the
    /// set is empty afterwards. The order is left unsaid: it depends on the
    /// per-process random hasher.
    #[verifier::external_body]
    fn drain(&mut self) -> (keys: Vec<u64>)
        ensures
            keys@.no_duplicates(),
            keys@.to_set() == key_set_contents(*old(self)),
            key_set_contents(*final(self)) == Set::<u64>::empty(),
    {
        self.keys.drain().collect()
    }
}

/// The keys of the assets that a frame's events leave changed: each key whose
/// last event is a creation or a modification, once, in no promised order.
pub fn changed_assets(events: &Vec<AssetChange>) -> (changed: Vec<u64>)
    ensures
        changed@.no_duplicates(),
        forall|k: u64| changed@.contains(k) <==> last_change_keeps(events@, k),
        forall|k: u64|
            #[trigger] changed@.contains(k) <==> exists|i: int|
                #[trigger] is_last_about(events@, k, i) && !(events@[i] is Removed),
{
    let mut set = KeySet::new();
    let n = events.len();
    let mut i: usize = 0;
    while i < n
        invariant
            n == events@.len(),
            i <= n,
            forall|k: u64|
                #[trigger] key_set_contents(set).contains(k) <==> last_change_keeps(
                    events@.take(i as int),
                    k,
                ),
        decreases n - i,
    {
        match events[i] {
            AssetChange::Created(k) => {
                set.insert(k);
            },
            AssetChange::Modified(k) => {
                set.insert(k);
            },
            AssetChange::Removed(k) => {
                set.remove(k);
            },
        }
        proof {
            let taken = events@.take(i + 1);
            assert(taken.drop_last() =~= events@.take(i as int));
            assert(taken.last() == events@[i as int]);
        }
        i = i + 1;
    }
    assert(events@.take(n as int) =~= events@);
    let changed = set.drain();
    assert forall|k: u64| changed@.contains(k) <==> last_change_keeps(events@, k) by {
        assert(changed@.contains(k) <==> changed@.to_set().contains(k));
    }
    assert forall|k: u64|
        #[trigger] changed@.contains(k) <==> exists|i: int|
            #[trigger] is_last_about(events@, k, i) && !(events@[i] is Removed) by {
        lemma_last_event_decides(events@, k);
    }
    changed
}

/// The keys of the assets that a frame's events leave removed: each key whose
/// last event is a removal, once, in no promised order.
pub fn removed_assets(events: &Vec<AssetChange>) -> (removed: Vec<u64>)
    ensures
        removed@.no_duplicates(),
        forall|k: u64| removed@.contains(k) <==> last_change_removes(events@, k),
        forall|k: u64|
            #[trigger] removed@.contains(k) <==> exists|i: int|
                #[trigger] is_last_about(events@, k, i) && events@[i] is Removed,
{
    let mut set = KeySet::new();
    let n = events.len();
    let mut i: usize = 0;
    while i < n
        invariant
            n == events@.len(),
            i <= n,
            forall|k: u64|
                #[trigger] key_set_contents(set).contains(k) <==> last_change_removes(
                    events@.take(i as int),
                    k,
                ),
        decreases n - i,
    {
        match events[i] {
            AssetChange::Created(k) => {
                set.remove(k);
            },
            AssetChange::Modified(k) => {
                set.remove(k);
            },
            AssetChange::Removed(k) => {
                set.insert(k);
            },
        }
        proof {
            let taken = events@.take(i + 1);
            assert(taken.drop_last() =~= events@.take(i as int));
            assert(taken.last() == events@[i as int]);
        }
        i = i + 1;
    }
    assert(events@.take(n as int) =~= events@);
    let removed = set.drain();
    assert forall|k: u64| removed@.contains(k) <==> last_change_removes(events@, k) by {
        assert(removed@.contains(k) <==> removed@.to_set().contains(k));
    }
    assert forall|k: u64|
        #[trigger] removed@.contains(k) <==> exists|i: int|
            #[trigger] is_last_about(events@, k, i) && events@[i] is Removed by {
        lemma_last_event_decides(events@, k);
    }
    removed
}

} // verus!

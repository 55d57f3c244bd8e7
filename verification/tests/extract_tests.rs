use dithered_scene::extract::{changed_assets, removed_assets, AssetChange};

fn sorted(mut keys: Vec<u64>) -> Vec<u64> {
    keys.sort();
    keys
}

#[test]
fn no_events_change_nothing() {
    assert!(changed_assets(&Vec::new()).is_empty());
}

#[test]
fn last_event_decides() {
    let events = vec![
        AssetChange::Created(1),
        AssetChange::Modified(2),
        AssetChange::Removed(1),
        AssetChange::Created(3),
        AssetChange::Removed(4),
        AssetChange::Modified(3),
    ];
    assert_eq!(sorted(changed_assets(&events)), vec![2, 3]);
}

#[test]
fn recreated_asset_counts_once() {
    let events = vec![
        AssetChange::Created(7),
        AssetChange::Removed(7),
        AssetChange::Created(7),
        AssetChange::Modified(7),
    ];
    assert_eq!(changed_assets(&events), vec![7]);
}

#[test]
fn removal_after_modification_drops_the_asset() {
    let events = vec![AssetChange::Modified(5), AssetChange::Created(6), AssetChange::Removed(5)];
    assert_eq!(changed_assets(&events), vec![6]);
}

#[test]
fn removed_assets_follow_the_last_event() {
    let events = vec![
        AssetChange::Created(1),
        AssetChange::Removed(2),
        AssetChange::Removed(1),
        AssetChange::Removed(3),
        AssetChange::Created(3),
        AssetChange::Removed(2),
    ];
    assert_eq!(sorted(removed_assets(&events)), vec![1, 2]);
}

#[test]
fn every_mentioned_asset_is_changed_or_removed() {
    let events = vec![
        AssetChange::Modified(4),
        AssetChange::Removed(5),
        AssetChange::Created(6),
        AssetChange::Removed(4),
        AssetChange::Modified(5),
    ];
    let changed = sorted(changed_assets(&events));
    let removed = sorted(removed_assets(&events));
    assert_eq!(changed, vec![5, 6]);
    assert_eq!(removed, vec![4]);
    assert!(changed.iter().all(|k| !removed.contains(k)));
}

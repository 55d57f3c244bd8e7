use dithered_scene::prepare::{MaterialQueue, PrepareError};

#[test]
fn new_queue_is_empty() {
    let mut queue: MaterialQueue<u32, &str> = MaterialQueue::new();
    assert!(queue.take_queued().is_empty());
}

#[test]
fn settle_splits_ready_and_retried_in_order() {
    let mut queue: MaterialQueue<u32, &str> = MaterialQueue::new();
    let ready = queue.settle_batch(vec![
        (1, "a", Ok(10u64)),
        (2, "b", Err(PrepareError::RetryNextUpdate)),
        (3, "c", Ok(30u64)),
        (4, "d", Err(PrepareError::RetryNextUpdate)),
    ]);
    assert_eq!(ready, vec![(1, 10), (3, 30)]);
    assert_eq!(queue.take_queued(), vec![(2, "b"), (4, "d")]);
    assert!(queue.take_queued().is_empty());
}

#[test]
fn retried_materials_join_the_end_of_the_queue() {
    let mut queue: MaterialQueue<u32, &str> = MaterialQueue::new();
    let first = queue.settle_batch(vec![(1, "a", Err::<u64, _>(PrepareError::RetryNextUpdate))]);
    assert!(first.is_empty());
    let second = queue.settle_batch(vec![
        (2, "b", Err(PrepareError::RetryNextUpdate)),
        (3, "c", Ok(3u64)),
    ]);
    assert_eq!(second, vec![(3, 3)]);
    assert_eq!(queue.take_queued(), vec![(1, "a"), (2, "b")]);
}

#[test]
fn a_frame_accounts_for_every_material() {
    let mut queue: MaterialQueue<u32, u32> = MaterialQueue::new();
    let batch: Vec<(u32, u32, Result<u32, PrepareError>)> = (0..10)
        .map(|k| (k, k * 2, if k % 3 == 0 { Err(PrepareError::RetryNextUpdate) } else { Ok(k) }))
        .collect();
    let ready = queue.settle_batch(batch);
    let retried = queue.take_queued();
    assert_eq!(ready.len() + retried.len(), 10);
    assert_eq!(retried, vec![(0, 0), (3, 6), (6, 12), (9, 18)]);
}

#[test]
fn retain_live_keeps_flagged_entries_in_order() {
    let mut queue: MaterialQueue<u32, &str> = MaterialQueue::new();
    let _ = queue.settle_batch(vec![
        (1, "a", Err::<u64, _>(PrepareError::RetryNextUpdate)),
        (2, "b", Err(PrepareError::RetryNextUpdate)),
        (3, "c", Err(PrepareError::RetryNextUpdate)),
    ]);
    assert_eq!(queue.waiting(), &vec![(1, "a"), (2, "b"), (3, "c")]);
    queue.retain_live(&vec![true, false, true]);
    assert_eq!(queue.take_queued(), vec![(1, "a"), (3, "c")]);
}

#[test]
fn material_removed_while_waiting_is_never_stored() {
    let mut queue: MaterialQueue<u32, &str> = MaterialQueue::new();
    // Frame 1: material 7 cannot be prepared yet and waits.
    let ready = queue.settle_batch(vec![(7, "m", Err::<u64, _>(PrepareError::RetryNextUpdate))]);
    assert!(ready.is_empty());
    // Frame 2: its asset was removed, so it is dropped before anything is retried.
    let removed = vec![7u32];
    let live: Vec<bool> = queue.waiting().iter().map(|(k, _)| !removed.contains(k)).collect();
    queue.retain_live(&live);
    let retried: Vec<(u32, &str, Result<u64, PrepareError>)> =
        queue.take_queued().into_iter().map(|(k, m)| (k, m, Ok(70))).collect();
    assert!(queue.settle_batch(retried).is_empty());
    assert!(queue.take_queued().is_empty());
}

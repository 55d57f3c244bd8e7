use dithered_scene::order::Flat3d;
use dithered_scene::queue::{queue_flat_items, QueueCandidate};

#[test]
fn queue_keeps_only_drawable_candidates_in_order() {
    let mut phase: Vec<Flat3d<u16, u32, u8>> = vec![Flat3d {
        distance_bits: 1,
        pipeline: 9,
        entity: 100,
        draw_function: 2,
    }];
    let candidates = vec![
        QueueCandidate::Drawable { entity: 1, pipeline: 10, distance_bits: 40, wireframe: true },
        QueueCandidate::NotDrawable,
        QueueCandidate::PipelineFailed,
        QueueCandidate::Drawable { entity: 4, pipeline: 11, distance_bits: 30, wireframe: true },
    ];
    queue_flat_items(&mut phase, &candidates, 7u8);
    assert_eq!(phase.len(), 3);
    assert_eq!((phase[0].entity, phase[0].draw_function), (100, 2));
    assert_eq!(
        (phase[1].entity, phase[1].pipeline, phase[1].distance_bits, phase[1].draw_function),
        (1, 10, 40, 7)
    );
    assert_eq!(
        (phase[2].entity, phase[2].pipeline, phase[2].distance_bits, phase[2].draw_function),
        (4, 11, 30, 7)
    );
}

#[test]
fn queue_with_no_drawable_candidate_adds_nothing() {
    let mut phase: Vec<Flat3d<u16, u32, u8>> = Vec::new();
    let candidates: Vec<QueueCandidate<u16, u32>> =
        vec![QueueCandidate::NotDrawable, QueueCandidate::PipelineFailed];
    queue_flat_items(&mut phase, &candidates, 0u8);
    assert!(phase.is_empty());
}

#[test]
fn queue_skips_entities_without_wireframe() {
    let mut phase: Vec<Flat3d<u16, u32, u8>> = Vec::new();
    let candidates = vec![
        QueueCandidate::Drawable { entity: 1, pipeline: 10, distance_bits: 40, wireframe: false },
        QueueCandidate::Drawable { entity: 2, pipeline: 12, distance_bits: 50, wireframe: true },
        QueueCandidate::Drawable { entity: 3, pipeline: 13, distance_bits: 60, wireframe: false },
    ];
    queue_flat_items(&mut phase, &candidates, 3u8);
    assert_eq!(phase.len(), 1);
    assert_eq!((phase[0].entity, phase[0].pipeline, phase[0].distance_bits), (2, 12, 50));
}

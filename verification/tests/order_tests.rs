use dithered_scene::order::{depth_key, Flat3d};

fn item(distance: f32, entity: u32) -> Flat3d<u8, u32, u8> {
    Flat3d { distance_bits: distance.to_bits(), pipeline: 0, entity, draw_function: 0 }
}

fn distances(items: &[Flat3d<u8, u32, u8>]) -> Vec<f32> {
    items.iter().map(|i| f32::from_bits(i.distance_bits)).collect()
}

#[test]
fn depth_key_of_positive_distance() {
    assert_eq!(depth_key(1.0f32.to_bits()), 0x407F_FFFF);
    assert_eq!(depth_key(0.0f32.to_bits()), 0x7FFF_FFFF);
}

#[test]
fn depth_key_of_negative_distance() {
    assert_eq!(depth_key((-1.0f32).to_bits()), 0xBF80_0000);
    assert_eq!(depth_key((-0.0f32).to_bits()), 0x8000_0000);
}

#[test]
fn depth_key_orders_far_before_near() {
    assert!(depth_key(5.0f32.to_bits()) < depth_key(2.0f32.to_bits()));
    assert!(depth_key(2.0f32.to_bits()) < depth_key((-3.0f32).to_bits()));
    assert!(depth_key(f32::INFINITY.to_bits()) < depth_key(f32::MAX.to_bits()));
}

#[test]
fn sort_is_descending_by_distance() {
    let mut items = vec![item(1.0, 0), item(3.5, 1), item(-2.0, 2), item(0.25, 3), item(10.0, 4)];
    Flat3d::sort(&mut items);
    assert_eq!(distances(&items), vec![10.0, 3.5, 1.0, 0.25, -2.0]);
    let entities: Vec<u32> = items.iter().map(|i| i.entity).collect();
    assert_eq!(entities, vec![4, 1, 0, 3, 2]);
}

#[test]
fn sort_keeps_equal_distances_in_order() {
    let mut items = vec![item(2.0, 0), item(5.0, 1), item(2.0, 2), item(5.0, 3), item(2.0, 4)];
    Flat3d::sort(&mut items);
    let entities: Vec<u32> = items.iter().map(|i| i.entity).collect();
    assert_eq!(entities, vec![1, 3, 0, 2, 4]);
}

#[test]
fn sort_puts_positive_zero_before_negative_zero() {
    let mut items = vec![item(-0.0, 0), item(0.0, 1)];
    Flat3d::sort(&mut items);
    let entities: Vec<u32> = items.iter().map(|i| i.entity).collect();
    assert_eq!(entities, vec![1, 0]);
}

#[test]
fn sort_of_empty_and_single_phase() {
    let mut empty: Vec<Flat3d<u8, u32, u8>> = Vec::new();
    Flat3d::sort(&mut empty);
    assert!(empty.is_empty());
    let mut one = vec![item(7.0, 9)];
    Flat3d::sort(&mut one);
    assert_eq!(one[0].entity, 9);
}

#[test]
fn sort_matches_stable_sort_by_reversed_distance() {
    let phase = || {
        vec![
            item(0.5, 0),
            item(-4.0, 1),
            item(9.0, 2),
            item(0.5, 3),
            item(f32::INFINITY, 4),
            item(-4.0, 5),
        ]
    };
    let mut items = phase();
    let mut expected = phase();
    expected.sort_by(|a, b| {
        f32::from_bits(b.distance_bits).partial_cmp(&f32::from_bits(a.distance_bits)).unwrap()
    });
    Flat3d::sort(&mut items);
    let got: Vec<u32> = items.iter().map(|i| i.entity).collect();
    let want: Vec<u32> = expected.iter().map(|i| i.entity).collect();
    assert_eq!(got, want);
    assert_eq!(got, vec![4, 2, 0, 3, 1, 5]);
}

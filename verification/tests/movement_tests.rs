use dithered_scene::movement::{jump_requested, movement_headings, Heading, MoveKeys};

fn keys(forward: bool, back: bool, left: bool, right: bool, jump: bool) -> MoveKeys {
    MoveKeys { forward, back, left, right, jump }
}

#[test]
fn no_key_gives_no_heading() {
    assert!(movement_headings(&keys(false, false, false, false, true)).is_empty());
}

#[test]
fn headings_follow_w_s_a_d_order() {
    assert_eq!(
        movement_headings(&keys(true, true, true, true, false)),
        vec![Heading::Forward, Heading::Back, Heading::Left, Heading::Right]
    );
    assert_eq!(movement_headings(&keys(false, false, true, false, false)), vec![Heading::Left]);
    assert_eq!(
        movement_headings(&keys(true, false, false, true, false)),
        vec![Heading::Forward, Heading::Right]
    );
}

#[test]
fn jump_needs_ground_and_key() {
    assert!(jump_requested(&keys(false, false, false, false, true), true));
    assert!(!jump_requested(&keys(false, false, false, false, true), false));
    assert!(!jump_requested(&keys(true, false, false, false, false), true));
}

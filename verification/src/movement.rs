use vstd::prelude::*;

verus! {

/// The player's movement keys that are held this frame.
pub struct MoveKeys {
    /// W: walk forward.
    pub forward: bool,
    /// S: walk back.
    pub back: bool,
    /// A: strafe left.
    pub left: bool,
    /// D: strafe right.
    pub right: bool,
    /// Space: jump.
    pub jump: bool,
}

/// A direction of the player body's own frame.
#[derive(PartialEq, Eq, Structural, Clone, Copy, Debug)]
pub enum Heading {
    Forward,
    Back,
    Left,
    Right,
}

/// The headings whose keys are held, in the order W, S, A, D: the walking
/// direction is the sum of the body's vectors for these headings.
pub open spec fn held_headings(keys: MoveKeys) -> Seq<Heading> {
    (if keys.forward { seq![Heading::Forward] } else { Seq::empty() })
        + (if keys.back { seq![Heading::Back] } else { Seq::empty() })
        + (if keys.left { seq![Heading::Left] } else { Seq::empty() })
        + (if keys.right { seq![Heading::Right] } else { Seq::empty() })
}

/// Whether the key of a heading is held: W, S, A or D.
pub open spec fn key_held(keys: MoveKeys, heading: Heading) -> bool {
    match heading {
        Heading::Forward => keys.forward,
        Heading::Back => keys.back,
        Heading::Left => keys.left,
        Heading::Right => keys.right,
    }
}

/// The place of a heading in the order W, S, A, D.
pub open spec fn heading_rank(heading: Heading) -> int {
    match heading {
        Heading::Forward => 0,
        Heading::Back => 1,
        Heading::Left => 2,
        Heading::Right => 3,
    }
}

/// Each heading is walked exactly when its own key is held, whatever the
/// other keys, and the headings come once each, in the order W, S, A, D.
pub proof fn lemma_each_heading_follows_its_key(keys: MoveKeys)
    ensures
        forall|h: Heading| #[trigger] held_headings(keys).contains(h) <==> key_held(keys, h),
        forall|i: int, j: int|
            0 <= i < j < held_headings(keys).len() ==> heading_rank(#[trigger] held_headings(keys)[i])
                < heading_rank(#[trigger] held_headings(keys)[j]),
{
    let s = held_headings(keys);
    assert forall|h: Heading| #[trigger] s.contains(h) <==> key_held(keys, h) by {
        if key_held(keys, h) {
            let i = if h == Heading::Forward {
                0int
            } else if h == Heading::Back {
                (if keys.forward { 1int } else { 0int })
            } else if h == Heading::Left {
                (if keys.forward { 1int } else { 0int }) + (if keys.back { 1int } else { 0int })
            } else {
                (if keys.forward { 1int } else { 0int }) + (if keys.back { 1int } else { 0int }) + (
                if keys.left { 1int } else { 0int })
            };
            assert(s[i] == h);
        }
    }
}

/// The headings to add up into the walking direction, in the order in which
/// they are added.
pub fn movement_headings(keys: &MoveKeys) -> (headings: Vec<Heading>)
    ensures
        headings@ == held_headings(*keys),
        forall|h: Heading| #[trigger] headings@.contains(h) <==> key_held(*keys, h),
        forall|i: int, j: int|
            0 <= i < j < headings@.len() ==> heading_rank(#[trigger] headings@[i]) < heading_rank(
                #[trigger] headings@[j],
            ),
{
    let mut headings: Vec<Heading> = Vec::new();
    if keys.forward {
        headings.push(Heading::Forward);
    }
    if keys.back {
        headings.push(Heading::Back);
    }
    if keys.left {
        headings.push(Heading::Left);
    }
    if keys.right {
        headings.push(Heading::Right);
    }
    assert(headings@ =~= held_headings(*keys));
    proof {
        lemma_each_heading_follows_its_key(*keys);
    }
    headings
}

/// Whether the body jumps this frame: it stands on something (a ray cast
/// down from it hit a collider within reach) and the jump key is held.
pub fn jump_requested(keys: &MoveKeys, grounded: bool) -> (jump: bool)
    ensures
        jump == (grounded && keys.jump),
{
    grounded && keys.jump
}

} // verus!

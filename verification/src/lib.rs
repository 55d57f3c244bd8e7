//! The decisions of a small first-person scene with a dithered material and
//! a custom flat render pass: which keys move and lift the player, how the
//! flat phase is ordered front to back and which visible entities enter it,
//! how the main pass treats its colour target, which assets a frame's events
//! leave changed, and which materials are prepared now or retried in a later
//! frame.

pub mod extract;
pub mod movement;
pub mod order;
pub mod pass;
pub mod prepare;
pub mod queue;
pub mod select;
pub mod stable;

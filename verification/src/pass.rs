use vstd::prelude::*;

verus! {

/// How the camera of a view asks for its colour target to be cleared.
pub enum ClearColorChoice<C> {
    /// Clear with the world's clear colour.
    Default,
    /// Clear with the given colour.
    Custom(C),
    /// Keep what the target holds.
    NoClear,
}

/// What the main flat pass does with its colour target when it begins.
pub enum PassLoad<C> {
    /// Clear with the world's clear colour, which the caller reads.
    ClearWithWorldColor,
    /// Clear with the given colour.
    Clear(C),
    /// Load the target's contents.
    Load,
}

/// The load operation of the main flat pass for a camera's clear choice.
pub fn main_pass_load<C>(choice: ClearColorChoice<C>) -> (load: PassLoad<C>)
    ensures
        match choice {
            ClearColorChoice::Default => load is ClearWithWorldColor,
            ClearColorChoice::Custom(c) => load == PassLoad::Clear(c),
            ClearColorChoice::NoClear => load is Load,
        },
{
    match choice {
        ClearColorChoice::Default => PassLoad::ClearWithWorldColor,
        ClearColorChoice::Custom(c) => PassLoad::Clear(c),
        ClearColorChoice::NoClear => PassLoad::Load,
    }
}

} // verus!

use vstd::prelude::*;
use crate::vectors::Vector2I;
use crate::world::Entity;

verus! {

/// Semantic event emitted after a successful execution, consumed by
/// rendering and audio; fire-and-forget.
#[derive(Clone, Copy, PartialEq, Eq, Structural, Debug)]
pub enum ActionEvent {
    Travel(Entity, Vector2I),
    Melee(Entity, Vector2I, u32),
    Other,
}

} // verus!

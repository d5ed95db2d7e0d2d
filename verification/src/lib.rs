//! Turn-based action resolution engine for a roguelike.
//!
//! Every gameplay effect (movement, combat, status application, item pickup)
//! is a discrete [`actions::Action`] that is validated, executed against the
//! entity store, may cascade into follow-up actions, and can be scored for
//! automated decision making.

pub mod actions;
pub mod components;
pub mod events;
pub mod player;
pub mod scoring;
pub mod turns;
pub mod vectors;
pub mod world;

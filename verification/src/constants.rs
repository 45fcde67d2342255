//! Fixed names used across the engine.

use vstd::prelude::*;

verus! {

/// Identifier of the player entity; fixed, not configurable.
pub const PLAYER_ID: &'static str = "player";

/// Default scene path of the player model.
pub const PLAYER_MODEL_SCENE: &'static str = "models/fox-eared_game_endfield/scene.gltf#Scene0";

} // verus!

//! Engine library of the Ming-dynasty cultivation RPG: asset tracking and
//! manifest checks, the in-game log and debug console, the game calendar,
//! hot-reload decisions and the entity registry.

pub mod asset_manager;
pub mod constants;
pub mod font_center;
pub mod game_core;
pub mod lua_api;
pub mod numfmt;
pub mod plugins;
pub mod resources;
pub mod str_map;
pub mod utils;
pub mod text;

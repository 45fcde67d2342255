//! Engine subsystems: logging, the debug console, hot reloading and the scene.

pub mod debug_console_plugin;
pub mod entity_viewer;
pub mod hot_reload_plugin;
pub mod log_plugin;
pub mod scene_plugin;

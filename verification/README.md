# ming_rpg engine library

The verified core of a Ming-dynasty cultivation RPG engine, written in Verus.

`src/` is the library. Its functions are verified against their contracts, except
the small wrappers marked `#[verifier::external_body]` that make the calls into `lru`,
`bevy_asset`, `uuid` and `std` (paths, the clock, the disk): Verus believes their
contracts without proof, and each one's doc comment says what it claims of the call.

- `asset_manager`: tracking asset loads by path, an LRU cache of loaded assets
  (`lru::LruCache`, 64 entries), and validation of mod asset manifests;
  `asset_manager::laws` states what holds across operations.
- `plugins::debug_console_plugin`: the debug console's log, level filter, command
  history, tab completion and commands; `plugins::entity_viewer`: the rows of the
  entity viewer.
- `plugins::log_plugin`: the in-game log buffer and log-file rotation (keeping the
  configured number of files).
- `plugins::hot_reload_plugin`: which file changes are taken in, the cooldown
  between batches, and what each change reloads.
- `plugins::scene_plugin`: what each configured scene object becomes.
- `resources`: the registry of script-managed entities and their component data.
- `game_core`: the game calendar (twelve months of thirty days) and its text.
- `font_center`, `lua_api`, `numfmt`, `text`, `str_map`, `utils`: the font registry,
  script entity identifiers and returned-value text, decimal formatting, string
  helpers, a string-keyed map, and locating the asset directory.

`app/` is the Bevy program around the library: rendering, physics, input, egui
windows, the Lua interpreter thread, file I/O and logging setup.

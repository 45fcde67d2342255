use ming_rpg::plugins::hot_reload_plugin::{
    classify_change, plan_reload, reload_actions, switch_is_on, HotReloadEvent, HotReloadState,
    ReloadAction,
};

fn is_reload_asset(a: &ReloadAction, path: &str) -> bool {
    matches!(a, ReloadAction::ReloadAsset(p) if p == path)
}

#[test]
fn hot_reload_state_defaults() {
    let s = HotReloadState::default();
    assert!(s.enabled);
    assert_eq!(s.last_reload, 0);
    assert_eq!(s.cooldown_ms, 500);
}

#[test]
fn hot_reload_classifies_by_extension() {
    assert!(matches!(classify_change("game/main.lua"), Some(HotReloadEvent::LuaScriptChanged(p)) if p == "game/main.lua"));
    assert!(matches!(classify_change("game/config.toml"), Some(HotReloadEvent::ConfigChanged(_))));
    assert!(matches!(classify_change("assets/a.png"), Some(HotReloadEvent::AssetChanged(_))));
    assert!(matches!(classify_change("assets/a.jpg"), Some(HotReloadEvent::AssetChanged(_))));
    assert!(matches!(classify_change("assets/m.gltf"), Some(HotReloadEvent::AssetChanged(_))));
    assert!(matches!(classify_change("assets/m.glb"), Some(HotReloadEvent::AssetChanged(_))));
    assert!(classify_change("assets/readme.md").is_none());
    assert!(classify_change("lua").is_none());
}

#[test]
fn hot_reload_cooldown_gates_changes() {
    let mut s = HotReloadState::new();
    assert!(s.accepts_changes(500_000_000));
    assert!(!s.accepts_changes(499_999_999));
    let paths = vec!["a.lua".to_string(), "b.txt".to_string(), "c.toml".to_string()];
    let events = s.record_changes(2_000_000_000, &paths);
    assert_eq!(events.len(), 2);
    assert!(matches!(&events[0], HotReloadEvent::LuaScriptChanged(p) if p == "a.lua"));
    assert!(matches!(&events[1], HotReloadEvent::ConfigChanged(p) if p == "c.toml"));
    assert_eq!(s.last_reload, 2_000_000_000);
    assert!(!s.accepts_changes(2_400_000_000));
    assert!(s.accepts_changes(2_500_000_000));
    assert!(!s.accepts_changes(1_000_000_000));
}

#[test]
fn hot_reload_ignored_files_keep_last_time() {
    let mut s = HotReloadState::new();
    let events = s.record_changes(9_000_000_000, &vec!["notes.txt".to_string()]);
    assert!(events.is_empty());
    assert_eq!(s.last_reload, 0);
}

#[test]
fn hot_reload_disabled_takes_nothing() {
    let mut s = HotReloadState::new();
    s.enabled = false;
    assert!(!s.accepts_changes(10_000_000_000));
}

#[test]
fn hot_reload_plans() {
    let main = plan_reload(&HotReloadEvent::LuaScriptChanged("game/main.lua".to_string()), None);
    assert_eq!(main.len(), 1);
    assert!(matches!(main[0], ReloadAction::LoadMainScript));
    let cfg = plan_reload(&HotReloadEvent::LuaScriptChanged("game/config/player.lua".to_string()), None);
    assert_eq!(cfg.len(), 1);
    assert!(matches!(cfg[0], ReloadAction::ReloadConfigs));
    let other = plan_reload(&HotReloadEvent::LuaScriptChanged("game/npc.lua".to_string()), None);
    assert!(other.is_empty());
    let manual = plan_reload(&HotReloadEvent::ManualReload, None);
    assert_eq!(manual.len(), 2);
    assert!(matches!(manual[0], ReloadAction::LoadMainScript));
    assert!(matches!(manual[1], ReloadAction::ReloadConfigs));
    let toml = plan_reload(&HotReloadEvent::ConfigChanged("x.toml".to_string()), None);
    assert!(matches!(toml[0], ReloadAction::ReloadConfigs));
    let asset = plan_reload(&HotReloadEvent::AssetChanged("/w/assets/a.png".to_string()), Some("a.png".to_string()));
    assert!(is_reload_asset(&asset[0], "a.png"));
    let outside = plan_reload(&HotReloadEvent::AssetChanged("/x/a.png".to_string()), None);
    assert!(is_reload_asset(&outside[0], "/x/a.png"));
}

#[test]
fn hot_reload_asset_paths_made_relative() {
    let inside = reload_actions(&HotReloadEvent::AssetChanged("/w/assets/tex/a.png".to_string()), "/w/assets");
    assert_eq!(inside.len(), 1);
    assert!(is_reload_asset(&inside[0], "tex/a.png"));
    let outside = reload_actions(&HotReloadEvent::AssetChanged("/w/other/a.png".to_string()), "/w/assets");
    assert!(is_reload_asset(&outside[0], "/w/other/a.png"));
    let similar = reload_actions(&HotReloadEvent::AssetChanged("/w/assets2/a.png".to_string()), "/w/assets");
    assert!(is_reload_asset(&similar[0], "/w/assets2/a.png"));
}

#[test]
fn hot_reload_switch_values() {
    assert!(switch_is_on(Some("1".to_string())));
    assert!(switch_is_on(Some("true".to_string())));
    assert!(!switch_is_on(Some("TRUE".to_string())));
    assert!(!switch_is_on(Some("0".to_string())));
    assert!(!switch_is_on(None));
}

use ming_rpg::asset_manager::{AssetLoadOutcome, AssetLoadState, AssetManager};

#[test]
fn asset_manager_cache_hit_returns_same_id() {
    let mut m = AssetManager::new();
    let id = m.load("models/a.glb");
    assert_eq!(m.pending_count(), 1);
    assert!(matches!(m.get_state("models/a.glb"), Some(AssetLoadState::Loading { handle_id, .. }) if *handle_id == id));
    m.resolve_load("models/a.glb", AssetLoadOutcome::Loaded, 1000);
    assert!(m.is_ready("models/a.glb"));
    assert_eq!(m.pending_count(), 0);
    assert_eq!(m.progress(), (1, 1));
    let cached = m.get_cached("models/a.glb").unwrap();
    assert_eq!(cached.access_count, 1);
    assert_eq!(cached.last_used, 1000);
    let again = m.load_at("models/a.glb", 1500);
    assert_eq!(again, id);
    assert_eq!(m.cache_stats(), (1, 1));
    let cached = m.get_cached("models/a.glb").unwrap();
    assert_eq!(cached.handle_id, id);
    assert_eq!(cached.loaded_at, 1000);
    assert_eq!(cached.last_used, 1500);
    assert_eq!(cached.access_count, 2);
    let again = m.load("models/a.glb");
    assert_eq!(again, id);
    assert_eq!(m.cache_stats(), (2, 1));
}

#[test]
fn asset_manager_failed_load_is_not_cached() {
    let mut m = AssetManager::new();
    m.load("bad.png");
    m.resolve_load("bad.png", AssetLoadOutcome::Failed, 5);
    assert!(!m.is_ready("bad.png"));
    assert!(matches!(m.get_state("bad.png"), Some(AssetLoadState::Failed { error, .. }) if error == "Asset load failed"));
    assert!(m.get_cached("bad.png").is_none());
    assert_eq!(m.pending_count(), 0);
    assert_eq!(m.progress(), (1, 1));
}

#[test]
fn asset_manager_pending_outcome_changes_nothing() {
    let mut m = AssetManager::new();
    m.load("x.png");
    m.resolve_load("x.png", AssetLoadOutcome::Pending, 5);
    m.resolve_load("unknown.png", AssetLoadOutcome::Loaded, 5);
    assert_eq!(m.pending_count(), 1);
    assert_eq!(m.progress(), (0, 1));
    assert!(m.get_state("unknown.png").is_none());
}

#[test]
fn asset_manager_ids_are_fresh_per_miss() {
    let mut m = AssetManager::new();
    let a = m.load("a.png");
    let b = m.load("b.png");
    let a2 = m.load("a.png");
    assert_ne!(a, b);
    assert_ne!(a, a2);
    assert_eq!(m.pending_count(), 2);
    assert_eq!(m.progress(), (0, 2));
    assert_eq!(m.cache_stats(), (0, 3));
    assert!(matches!(m.get_state("a.png"), Some(AssetLoadState::Loading { handle_id, .. }) if *handle_id == a2));
}

#[test]
fn asset_manager_pending_counts_loading_paths() {
    let mut m = AssetManager::new();
    m.load("a.png");
    m.load("a.png");
    assert_eq!(m.pending_count(), 1);
    m.invalidate("a.png");
    assert_eq!(m.pending_count(), 0);
    assert_eq!(m.progress(), (0, 0));
    m.load("b.png");
    m.reload("b.png");
    assert_eq!(m.pending_count(), 1);
    assert_eq!(m.progress(), (0, 1));
}

#[test]
fn asset_manager_progress_never_exceeds_total() {
    let mut m = AssetManager::new();
    m.load("a.png");
    m.resolve_load("a.png", AssetLoadOutcome::Loaded, 1);
    assert_eq!(m.progress(), (1, 1));
    m.invalidate("a.png");
    assert_eq!(m.progress(), (0, 0));
    m.load("b.png");
    m.resolve_load("b.png", AssetLoadOutcome::Failed, 2);
    m.load("b.png");
    assert_eq!(m.progress(), (0, 1));
    assert_eq!(m.pending_count(), 1);
}

#[test]
fn asset_manager_poll_targets_are_loading_paths_in_order() {
    let mut m = AssetManager::new();
    m.load("a.png");
    m.load("b.png");
    m.load("c.png");
    m.resolve_load("b.png", AssetLoadOutcome::Loaded, 1);
    assert_eq!(m.poll_targets(), vec!["a.png".to_string(), "c.png".to_string()]);
    m.resolve_load("a.png", AssetLoadOutcome::Failed, 2);
    assert_eq!(m.poll_targets(), vec!["c.png".to_string()]);
}

#[test]
fn asset_manager_hit_refreshes_last_use() {
    let mut m = AssetManager::new();
    m.load_at("a.png", 0);
    m.resolve_load("a.png", AssetLoadOutcome::Loaded, 100);
    m.load_at("b.png", 0);
    m.resolve_load("b.png", AssetLoadOutcome::Loaded, 100);
    m.load_at("a.png", 900);
    m.clear_unused_older_than_at(1000, 500);
    assert!(m.get_cached("a.png").is_some());
    assert!(m.get_cached("b.png").is_none());
    assert!(m.is_ready("b.png"));
}

#[test]
fn asset_manager_invalidate_and_reload() {
    let mut m = AssetManager::new();
    let id = m.load("a.png");
    m.resolve_load("a.png", AssetLoadOutcome::Loaded, 0);
    m.invalidate("a.png");
    assert!(m.get_state("a.png").is_none());
    assert!(m.get_cached("a.png").is_none());
    let fresh = m.reload("a.png");
    assert_ne!(fresh, id);
    assert!(matches!(m.get_state("a.png"), Some(AssetLoadState::Loading { .. })));
    assert_eq!(m.cache_stats(), (0, 2));
}

#[test]
fn asset_manager_cache_keeps_at_most_64_entries() {
    let mut m = AssetManager::new();
    for i in 0..65 {
        let p = format!("p{}.png", i);
        m.load(&p);
        m.resolve_load(&p, AssetLoadOutcome::Loaded, i);
    }
    assert!(m.get_cached("p0.png").is_none());
    assert!(m.get_cached("p1.png").is_some());
    assert!(m.get_cached("p64.png").is_some());
    assert!(m.is_ready("p0.png"));
}

#[test]
fn asset_manager_clear_unused_older_than() {
    let mut m = AssetManager::new();
    for (p, t) in [("old.png", 100u64), ("new.png", 900u64), ("edge.png", 500u64)] {
        m.load(p);
        m.resolve_load(p, AssetLoadOutcome::Loaded, t);
    }
    m.clear_unused_older_than_at(1000, 500);
    assert!(m.get_cached("old.png").is_none());
    assert!(m.get_cached("new.png").is_some());
    assert!(m.get_cached("edge.png").is_some());
    m.clear_unused_older_than(std::time::Duration::from_secs(3600));
    assert!(m.get_cached("new.png").is_none());
}

#[test]
fn asset_manager_default_is_empty() {
    let m = AssetManager::default();
    assert_eq!(m.progress(), (0, 0));
    assert_eq!(m.pending_count(), 0);
    assert_eq!(m.cache_stats(), (0, 0));
}

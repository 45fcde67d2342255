use ming_rpg::resources::{entity_style, EntityRegistry, EntityStyle, ScriptHotReload};
use ming_rpg::str_map::StrMap;

fn hp(n: i64) -> serde_json::Value {
    let mut obj = serde_json::Map::new();
    obj.insert("hp".to_string(), serde_json::Value::from(n));
    serde_json::Value::Object(obj)
}

#[test]
fn test_entity_registry_insert_and_query() {
    let mut registry = EntityRegistry::default();
    let entity: u64 = 42;
    registry.by_id.insert("test_id".to_string(), entity);

    assert_eq!(registry.by_id.get("test_id"), Some(&entity), "应能查询到插入的实体");
}

#[test]
fn test_entity_registry_overwrite() {
    let mut registry = EntityRegistry::default();
    let entity1: u64 = 1;
    let entity2: u64 = 2;

    registry.by_id.insert("same_id".to_string(), entity1);
    registry.by_id.insert("same_id".to_string(), entity2);

    assert_eq!(registry.by_id.get("same_id"), Some(&entity2), "覆盖后应返回新实体");
}

#[test]
fn test_entity_registry_components_store() {
    let mut registry = EntityRegistry::default();
    let value = hp(100);
    let mut comps = StrMap::new();
    comps.insert("Health".to_string(), value.clone());
    registry.components.insert("entity_1".to_string(), comps);

    assert_eq!(
        registry.components.get("entity_1").unwrap().get("Health"),
        Some(&value),
        "应能查询到存储的组件数据"
    );
}

#[test]
fn test_entity_registry_default_empty() {
    let registry = EntityRegistry::default();
    assert!(registry.by_id.is_empty(), "默认实体映射应为空");
    assert!(registry.components.is_empty(), "默认组件映射应为空");
}

#[test]
fn test_script_hot_reload_new() {
    let hot_reload = ScriptHotReload::new("game/main.lua", None);
    assert_eq!(hot_reload.script_path, "game/main.lua");
}

#[test]
fn script_hot_reload_tracks_modification_time() {
    let mut h = ScriptHotReload::new("game/main.lua", Some(100));
    assert_eq!(h.last_modified, 100);
    assert!(!h.is_newer(100));
    assert!(h.is_newer(101));
    h.mark_loaded(101);
    assert!(!h.is_newer(101));
    assert_eq!(ScriptHotReload::new("x.lua", None).last_modified, 0);
}

#[test]
fn registry_register_destroy_and_components() {
    let mut r = EntityRegistry::new();
    r.register("npc_1".to_string(), 7);
    assert_eq!(r.entity_of("npc_1"), Some(7));
    r.add_component("npc_1".to_string(), "Health".to_string(), hp(5));
    r.add_component("npc_1".to_string(), "Mana".to_string(), serde_json::Value::from(3));
    assert_eq!(r.components.get("npc_1").unwrap().len(), 2);
    r.remove_component("npc_1", "Mana");
    assert_eq!(r.components.get("npc_1").unwrap().len(), 1);
    r.remove_component("ghost", "Mana");
    assert_eq!(r.destroy("npc_1"), Some(7));
    assert_eq!(r.entity_of("npc_1"), None);
    assert!(r.components.get("npc_1").is_none());
    assert_eq!(r.destroy("npc_1"), None);
}

#[test]
fn registry_components_for_unknown_entity_are_kept() {
    let mut r = EntityRegistry::new();
    r.add_component("loose".to_string(), "Tag".to_string(), serde_json::Value::from("x"));
    assert_eq!(r.destroy("loose"), None);
    assert!(r.components.contains_key("loose"));
}

#[test]
fn registry_script_entities_removed_player_kept() {
    let mut r = EntityRegistry::new();
    r.register("player".to_string(), 1);
    r.register("a".to_string(), 2);
    r.register("b".to_string(), 3);
    r.add_component("a".to_string(), "Health".to_string(), hp(1));
    r.add_component("player".to_string(), "Health".to_string(), hp(9));
    let mut removed = r.remove_script_entities();
    removed.sort();
    assert_eq!(removed, vec![("a".to_string(), 2), ("b".to_string(), 3)]);
    assert_eq!(r.entity_of("player"), Some(1));
    assert_eq!(r.entity_of("a"), None);
    assert!(r.components.get("a").is_none());
    assert!(r.components.get("player").is_some());
}

#[test]
fn registry_entity_styles() {
    assert_eq!(entity_style("npc"), EntityStyle::Npc);
    assert_eq!(entity_style("effect"), EntityStyle::Effect);
    assert_eq!(entity_style("player"), EntityStyle::Plain);
}

use ming_rpg::lua_api::{
    entity_id_from, new_entity_id, render_script_value, script_search_path, ScriptValue,
};

#[test]
fn lua_entity_ids() {
    assert_eq!(entity_id_from("abc"), "entity_abc");
    let a = new_entity_id();
    let b = new_entity_id();
    assert!(a.starts_with("entity_"));
    assert_eq!(a.len(), 43);
    assert_eq!(&a[15..16], "-");
    assert_ne!(a, b);
}

#[test]
fn lua_return_values_rendered() {
    assert_eq!(render_script_value(ScriptValue::Nil), "nil");
    assert_eq!(render_script_value(ScriptValue::Boolean(true)), "true");
    assert_eq!(render_script_value(ScriptValue::Boolean(false)), "false");
    assert_eq!(render_script_value(ScriptValue::Integer(42)), "42");
    assert_eq!(render_script_value(ScriptValue::Integer(-7)), "-7");
    assert_eq!(render_script_value(ScriptValue::Number(3.14f64.to_string())), "3.14");
    assert_eq!(render_script_value(ScriptValue::Text("hello".to_string())), "hello");
    assert_eq!(render_script_value(ScriptValue::Table("{\"a\":1}".to_string())), "{\"a\":1}");
}

#[test]
fn lua_script_search_path() {
    assert_eq!(script_search_path("game/main.lua", "/cwd".to_string()), "game/?.lua;game/?/init.lua");
    assert_eq!(script_search_path("main.lua", "/cwd".to_string()), "/?.lua;/?/init.lua");
    assert_eq!(script_search_path("/", "/cwd".to_string()), "/cwd/?.lua;/cwd/?/init.lua");
}

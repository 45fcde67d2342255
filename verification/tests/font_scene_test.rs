use ming_rpg::font_center::{FontMeta, FontRegistry, FontSource, FONT_NOTO_SANS_SC};
use ming_rpg::plugins::scene_plugin::{scene_object_kind, uses_default_blocks, SceneObjectKind};

#[test]
fn font_registry_register_and_query() {
    let mut r = FontRegistry::default();
    assert!(!r.has(FONT_NOTO_SANS_SC));
    assert!(r.get(FONT_NOTO_SANS_SC).is_none());
    assert!(r.list().is_empty());
    r.register(
        FONT_NOTO_SANS_SC.to_string(),
        FontMeta { name: "Noto Sans SC".to_string(), source: FontSource::Embedded },
    );
    assert!(r.has("noto_sans_sc"));
    assert_eq!(r.get("noto_sans_sc").unwrap().name, "Noto Sans SC");
    assert!(matches!(r.get("noto_sans_sc").unwrap().source, FontSource::Embedded));
    r.register(
        "mono".to_string(),
        FontMeta { name: "Mono".to_string(), source: FontSource::FileSystem("fonts/mono.ttf".to_string()) },
    );
    let mut names = r.list();
    names.sort();
    assert_eq!(names, vec!["mono", "noto_sans_sc"]);
    r.register(
        "mono".to_string(),
        FontMeta { name: "Mono 2".to_string(), source: FontSource::Embedded },
    );
    assert_eq!(r.list().len(), 2);
    assert_eq!(r.get("mono").unwrap().name, "Mono 2");
}

#[test]
fn scene_object_kinds() {
    assert_eq!(scene_object_kind("building", Some("roof")), SceneObjectKind::Building { roof: true });
    assert_eq!(scene_object_kind("building", Some("wall")), SceneObjectKind::Building { roof: false });
    assert_eq!(scene_object_kind("building", Some("gold")), SceneObjectKind::Building { roof: false });
    assert_eq!(scene_object_kind("building", None), SceneObjectKind::Building { roof: false });
    assert_eq!(scene_object_kind("tree", Some("roof")), SceneObjectKind::Tree);
    assert_eq!(scene_object_kind("rock", None), SceneObjectKind::Unknown);
    assert!(uses_default_blocks(0));
    assert!(!uses_default_blocks(3));
}

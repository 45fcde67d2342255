use ming_rpg::plugins::entity_viewer::{entity_rows, EntityInfo};

fn info(bits: u64, index: u32, name: Option<&str>) -> EntityInfo {
    EntityInfo {
        bits,
        index,
        name: name.map(|n| n.to_string()),
        is_player: false,
        is_camera: false,
        has_motion: false,
        has_walk_animation: false,
        has_transform: false,
    }
}

#[test]
fn viewer_rows_sorted_and_labelled() {
    let mut player = info(30, 3, Some("Player"));
    player.is_player = true;
    player.has_motion = true;
    player.has_transform = true;
    let cam = EntityInfo { is_camera: true, has_transform: true, ..info(10, 1, None) };
    let rows = entity_rows(vec![player, cam, info(20, 2, Some("Tree"))], "");
    let labels: Vec<&str> = rows.iter().map(|r| r.label.as_str()).collect();
    assert_eq!(labels, vec!["1: <未命名>", "2: Tree", "3: Player"]);
    assert_eq!(rows[0].text, "1: <未命名> (2 个组件)");
    assert_eq!(rows[0].components, vec!["ThirdPersonCamera", "Transform"]);
    assert_eq!(rows[2].components, vec!["Player", "CharacterMotion", "Transform"]);
    assert_eq!(rows[1].text, "2: Tree (0 个组件)");
    assert_eq!(rows[2].bits, 30);
}

#[test]
fn viewer_filter_is_case_insensitive() {
    let rows = entity_rows(vec![info(1, 5, Some("Oak Tree")), info(2, 6, Some("Rock"))], "TREE");
    assert_eq!(rows.len(), 1);
    assert_eq!(rows[0].label, "5: Oak Tree");
    let by_index = entity_rows(vec![info(1, 15, None), info(2, 6, None)], "15");
    assert_eq!(by_index.len(), 1);
    assert_eq!(by_index[0].bits, 1);
    let none = entity_rows(vec![info(1, 5, None)], "zzz");
    assert!(none.is_empty());
}

#[test]
fn viewer_equal_indices_keep_order() {
    let rows = entity_rows(vec![info(7, 2, Some("b")), info(8, 1, None), info(9, 2, Some("a"))], "");
    let bits: Vec<u64> = rows.iter().map(|r| r.bits).collect();
    assert_eq!(bits, vec![8, 7, 9]);
}

use ming_rpg::constants::{PLAYER_ID, PLAYER_MODEL_SCENE};

#[test]
fn test_constants_exist_and_are_positive() {
    assert!(!PLAYER_ID.is_empty(), "PLAYER_ID 不应为空");
    assert!(!PLAYER_MODEL_SCENE.is_empty(), "模型场景路径不应为空");
}

use ming_rpg::utils::{
    asset_root_candidates, asset_root_choice, first_existing, resolve_asset_root, resolve_asset_root_from,
};

#[test]
fn test_resolve_asset_root_contains_assets() {
    let root = resolve_asset_root();
    assert!(
        root.contains("assets") || root.ends_with("assets"),
        "资源根目录应包含 'assets': {}",
        root
    );
}

#[test]
fn asset_root_choice_takes_first_existing() {
    let cands = vec!["a".to_string(), "b".to_string(), "c".to_string()];
    assert_eq!(asset_root_choice(&cands, &[false, true, true], Some("/abs/b".to_string())), "/abs/b");
    assert_eq!(asset_root_choice(&cands, &[false, true, true], None), "b");
    assert_eq!(asset_root_choice(&cands, &[true, true, false], None), "a");
    assert_eq!(asset_root_choice(&cands, &[false, false, false], None), "assets");
}

#[test]
fn asset_root_candidates_in_order() {
    let rel = asset_root_candidates(None);
    assert_eq!(rel, vec!["assets", "../assets", "../../assets", "../../../assets"]);
    let all = asset_root_candidates(Some("/x/engine"));
    assert_eq!(all.len(), 5);
    let expected = std::path::Path::new("/x/engine").join("..").join("assets");
    assert_eq!(all[4], expected.to_string_lossy());
}

#[test]
fn asset_root_from_manifest_dir_names_assets() {
    let root = resolve_asset_root_from("/no/such/manifest/dir");
    assert!(root.contains("assets"), "{}", root);
}

#[test]
fn first_existing_finds_first_true() {
    assert_eq!(first_existing(&[false, true, true]), Some(1));
    assert_eq!(first_existing(&[]), None);
    assert_eq!(first_existing(&[false, false]), None);
}

use ming_rpg::asset_manager::manifest::check_entry;
use ming_rpg::asset_manager::{AssetEntry, AssetManifest, ValidationError};

fn entry(path: &str, kind: &str) -> AssetEntry {
    AssetEntry { path: path.to_string(), asset_type: kind.to_string() }
}

#[test]
fn test_valid_manifest() {
    let manifest = AssetManifest {
        name: "test-mod".to_string(),
        version: "1.0.0".to_string(),
        assets: vec![entry("textures/test.png", "texture")],
    };
    assert_eq!(manifest.name, "test-mod");
    assert_eq!(manifest.version, "1.0.0");
    assert_eq!(manifest.assets.len(), 1);
}

#[test]
fn test_manifest_validation_missing_name() {
    let manifest = AssetManifest {
        name: "".to_string(),
        version: "1.0.0".to_string(),
        assets: vec![entry("assets/test.png", "texture")],
    };
    let result = manifest.validate();
    assert!(matches!(result, Err(ValidationError::MissingField(_))));
}

#[test]
fn test_manifest_validation_invalid_path() {
    let manifest = AssetManifest {
        name: "test".to_string(),
        version: "1.0.0".to_string(),
        assets: vec![entry("../secret.png", "texture")],
    };
    let result = manifest.validate();
    assert!(matches!(result, Err(ValidationError::InvalidPath(_))));
}

#[test]
fn test_manifest_validation_unsupported_format() {
    let manifest = AssetManifest {
        name: "test".to_string(),
        version: "1.0.0".to_string(),
        assets: vec![entry("assets/script.exe", "binary")],
    };
    let result = manifest.validate();
    assert!(matches!(result, Err(ValidationError::UnsupportedFormat(_))));
}

#[test]
fn test_manifest_validation_duplicate_path() {
    let file = tempfile::Builder::new().suffix(".png").tempfile().unwrap();
    let file_path = file.path().to_path_buf();

    let manifest = AssetManifest {
        name: "test".to_string(),
        version: "1.0.0".to_string(),
        assets: vec![
            entry(&file_path.to_string_lossy(), "texture"),
            entry(&file_path.to_string_lossy(), "texture"),
        ],
    };
    let result = manifest.validate();
    assert!(matches!(result, Err(ValidationError::DuplicatePath(_))));
}

#[test]
fn test_version_compatibility() {
    let manifest = AssetManifest {
        name: "test".to_string(),
        version: "1.2.3".to_string(),
        assets: vec![],
    };
    assert!(manifest.is_compatible_with("1.0.0"));
    assert!(!manifest.is_compatible_with("2.0.0"));
}

fn manifest_with(name: &str, version: &str, paths: &[&str]) -> AssetManifest {
    AssetManifest {
        name: name.to_string(),
        version: version.to_string(),
        assets: paths.iter().map(|p| entry(p, "texture")).collect(),
    }
}

#[test]
fn validate_with_reports_missing_version_and_assets() {
    let m = manifest_with("m", "", &["a.png"]);
    assert!(matches!(m.validate_with(&[true]), Err(ValidationError::MissingField(ref f)) if f == "version"));
    let m = manifest_with("m", "1.0", &[]);
    assert!(matches!(m.validate_with(&[]), Err(ValidationError::MissingField(ref f)) if f == "assets"));
    let m = manifest_with("", "1.0", &["a.png"]);
    assert!(matches!(m.validate_with(&[true]), Err(ValidationError::MissingField(ref f)) if f == "name"));
}

#[test]
fn validate_with_reports_version_without_dot() {
    let m = manifest_with("m", "10", &["a.png"]);
    assert!(matches!(m.validate_with(&[true]), Err(ValidationError::InvalidVersion(ref v)) if v == "10"));
}

#[test]
fn validate_with_reports_extension_found_by_std() {
    let m = manifest_with("m", "1.0", &["assets/script.exe"]);
    assert!(matches!(m.validate_with(&[true]), Err(ValidationError::UnsupportedFormat(ref e)) if e == "exe"));
    let m = manifest_with("m", "1.0", &["assets/noext"]);
    assert!(matches!(m.validate_with(&[true]), Err(ValidationError::UnsupportedFormat(ref e)) if e.is_empty()));
}

#[test]
fn validate_with_checks_entries_in_order() {
    let m = manifest_with("m", "1.0", &["a.png", "b.glb", "a.png", "c/../d.png"]);
    assert!(matches!(m.validate_with(&[true, true, true, true]), Err(ValidationError::DuplicatePath(ref p)) if p == "a.png"));
    assert!(matches!(m.validate_with(&[true, false, true, true]), Err(ValidationError::FileNotFound(ref p)) if p == "b.glb"));
    let m = manifest_with("m", "1.0", &["x.webp", "y.gltf", "z.jpg"]);
    assert!(m.validate_with(&[true, true, true]).is_ok());
}

#[test]
fn validate_accepts_existing_files() {
    let file = tempfile::Builder::new().suffix(".png").tempfile().unwrap();
    let a = file.path().to_path_buf();
    let m = manifest_with("m", "2.0.0", &[&a.to_string_lossy()]);
    assert!(m.validate().is_ok());
    let temp_dir = tempfile::tempdir().unwrap();
    let missing = temp_dir.path().join("missing.png");
    let m = manifest_with("m", "2.0.0", &[&missing.to_string_lossy()]);
    assert!(matches!(m.validate(), Err(ValidationError::FileNotFound(_))));
}

#[test]
fn compatibility_compares_text_before_first_dot() {
    let m = manifest_with("m", "10", &[]);
    assert!(m.is_compatible_with("10.4"));
    assert!(!m.is_compatible_with("1.0"));
    let m = manifest_with("m", "", &[]);
    assert!(m.is_compatible_with(".5"));
    assert!(m.is_compatible_with(""));
}

#[test]
fn validation_error_messages() {
    assert_eq!(ValidationError::MissingField("name".to_string()).message(), "缺少必填字段: name");
    assert_eq!(ValidationError::InvalidVersion("1".to_string()).message(), "版本格式错误: 1");
    assert_eq!(ValidationError::DuplicatePath("a".to_string()).message(), "重复路径: a");
}

#[test]
fn check_entry_uses_the_given_extension() {
    let assets = vec![entry("a.png", "texture"), entry("b.png", "texture"), entry("a.png", "texture")];
    let exists = [true, false, true];
    assert!(check_entry(&assets, &exists, 0, "png").is_none());
    assert!(matches!(check_entry(&assets, &exists, 0, "txt"), Some(ValidationError::UnsupportedFormat(e)) if e == "txt"));
    assert!(matches!(check_entry(&assets, &exists, 1, "png"), Some(ValidationError::FileNotFound(p)) if p == "b.png"));
    assert!(matches!(check_entry(&assets, &exists, 2, "png"), Some(ValidationError::DuplicatePath(p)) if p == "a.png"));
    let bad = vec![entry("../x.png", "texture")];
    assert!(matches!(check_entry(&bad, &[true], 0, "png"), Some(ValidationError::InvalidPath(p)) if p == "../x.png"));
}

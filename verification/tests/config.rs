use sorta::config::mounted_drives;
use sorta::config::{default_language, to_dto, UserConfig};

#[test]
fn missing_config_returns_defaults() {
    let cfg = UserConfig::when_missing();
    assert_eq!(cfg.ui_language, "en-US");
    assert!(cfg.hd_roots.is_empty());
    assert!(cfg.hd_root.is_none());
    assert!(cfg.tmdb_api_key.is_none());
}

#[test]
fn legacy_hd_root_promotes_to_hd_roots_on_load() {
    let mut loaded = UserConfig {
        hd_roots: vec![],
        hd_root: Some("D:/Movies".to_string()),
        tmdb_api_key: Some("abc".to_string()),
        ui_language: "en-US".to_string(),
        compression_codec: None,
    };
    loaded.normalize();
    assert_eq!(loaded.hd_roots, vec!["D:/Movies".to_string()]);
    assert_eq!(loaded.hd_root, Some("D:/Movies".to_string()));
}

#[test]
fn add_and_remove_hd_root_are_idempotent() {
    let mut cfg = UserConfig::default();
    assert!(cfg.add_hd_root("D:/Movies".to_string()));
    assert!(!cfg.add_hd_root("D:/Movies".to_string()), "duplicate add must no-op");
    assert!(cfg.add_hd_root("E:/Backup".to_string()));
    assert_eq!(cfg.hd_roots.len(), 2);
    assert_eq!(cfg.hd_root, Some("D:/Movies".to_string()));

    assert!(cfg.remove_hd_root("D:/Movies"));
    assert!(!cfg.remove_hd_root("D:/Movies"), "second remove must no-op");
    assert_eq!(cfg.hd_roots, vec!["E:/Backup".to_string()]);
    assert_eq!(cfg.hd_root, Some("E:/Backup".to_string()));
}

#[test]
fn empty_list_clears_primary() {
    let mut cfg = UserConfig::default();
    cfg.add_hd_root("D:/Movies".to_string());
    assert!(cfg.remove_hd_root("D:/Movies"));
    assert!(cfg.hd_roots.is_empty());
    assert!(cfg.hd_root.is_none());
}

#[test]
fn drives_compare_as_paths() {
    let mut cfg = UserConfig::default();
    assert!(cfg.add_hd_root("/mnt/a".to_string()));
    assert!(!cfg.add_hd_root("/mnt/a/".to_string()));
    assert!(cfg.remove_hd_root("/mnt//a"));
    assert!(cfg.hd_roots.is_empty());
}

#[test]
fn dto_mirrors_config() {
    let mut cfg = UserConfig::default();
    cfg.add_hd_root("D:/Movies".to_string());
    cfg.ui_language = default_language();
    let dto = to_dto(&cfg, true);
    assert_eq!(dto.hd_roots, vec!["D:/Movies".to_string()]);
    assert_eq!(dto.hd_root.as_deref(), Some("D:/Movies"));
    assert_eq!(dto.ui_language, "en-US");
    assert!(dto.initialized);
}

#[test]
fn only_mounted_drives_open() {
    let roots = vec!["/a".to_string(), "/b".to_string(), "/c".to_string()];
    assert_eq!(mounted_drives(&roots, &vec![false, true, true]), vec!["/b".to_string(), "/c".to_string()]);
    assert!(mounted_drives(&roots, &vec![false, false, false]).is_empty());
}

#[test]
fn removing_from_an_empty_list_changes_nothing() {
    let mut cfg = UserConfig::when_missing();
    assert!(!cfg.remove_hd_root("D:/Movies"));
    assert!(cfg.hd_roots.is_empty());
    assert!(cfg.hd_root.is_none());
    cfg.add_hd_root("D:/Movies".to_string());
    assert!(cfg.remove_hd_root("D:/Movies"));
    assert!(!cfg.remove_hd_root("D:/Movies"));
    assert!(cfg.hd_roots.is_empty());
    assert!(cfg.hd_root.is_none());
}

use wezzte_core::config::{join_path, BackupManager, ConfigManager, ConfigUpdater};
use wezzte_core::parser::parse_annotations;
use wezzte_core::WezzteError;

#[test]
fn test_config_updater() {
    let original = r#"local config = {}

-- <<TUNER-START>>
-- @ui: slider(min=10, max=42) type=int
config.font_size = 18
-- <<TUNER-END>>

return config"#;

    let updater = ConfigUpdater::new(original.to_string());
    let new_tuner = r#"-- @ui: slider(min=8, max=72) type=int
config.font_size = 24"#;

    let updated = updater.update_tuner_block(new_tuner).unwrap();

    assert!(updated.contains("config.font_size = 24"));
    assert!(updated.contains("min=8, max=72"));
    assert!(updated.contains("local config = {}"));
    assert!(updated.contains("return config"));
}

#[test]
fn test_config_updater_exact_result() {
    let original = "a\n-- <<TUNER-START>>\nold\n-- <<TUNER-END>>\nb";
    let updater = ConfigUpdater::new(original.to_string());
    let updated = updater.update_tuner_block("  new = 1  \n").unwrap();
    assert_eq!(updated, "a\n-- <<TUNER-START>>\nnew = 1\n-- <<TUNER-END>>\nb");
    assert_eq!(updater.original_content(), original);

    // Writing the same block again changes nothing, and the block reads back.
    let again = ConfigUpdater::new(updated.clone()).update_tuner_block("new = 1").unwrap();
    assert_eq!(again, updated);
    let entries = parse_annotations(&updated).unwrap();
    assert!(entries.is_empty());
}

#[test]
fn test_config_updater_errors() {
    let no_start = ConfigUpdater::new("x".to_string());
    assert_eq!(
        no_start.update_tuner_block("y"),
        Err(WezzteError::Config { message: "No tuner start marker found in configuration".to_string() })
    );
    let no_end = ConfigUpdater::new("-- <<TUNER-START>>".to_string());
    assert_eq!(
        no_end.update_tuner_block("y"),
        Err(WezzteError::Config { message: "No tuner end marker found in configuration".to_string() })
    );
    let reversed = ConfigUpdater::new("-- <<TUNER-END>>\n-- <<TUNER-START>>".to_string());
    assert_eq!(
        reversed.update_tuner_block("y"),
        Err(WezzteError::Config { message: "Invalid tuner marker positions".to_string() })
    );
}

#[test]
fn test_default_config_paths() {
    let m = ConfigManager::with_default_path(Some("/home/u"), None).unwrap();
    assert_eq!(m.config_path(), "/home/u/.config/wezterm/wezterm.lua");
    let x = ConfigManager::get_default_config_path(Some("/home/u"), Some("/xdg")).unwrap();
    assert_eq!(x, "/xdg/wezterm/wezterm.lua");
    assert_eq!(
        ConfigManager::get_default_config_path(None, None),
        Err(WezzteError::Config { message: "Could not determine home directory".to_string() })
    );
    assert_eq!(ConfigManager::new("w.lua".to_string()).config_path(), "w.lua");
}

#[test]
fn test_join_path() {
    assert_eq!(join_path("a", "b"), "a/b");
    assert_eq!(join_path("a/", "b"), "a/b");
    assert_eq!(join_path("", "b"), "b");
}

#[test]
fn test_backup_manager_paths() {
    let m = BackupManager::new("/c/wezterm.lua".to_string(), None, 5, Some("/home/u")).unwrap();
    assert_eq!(m.backup_dir(), "/home/u/.local/share/wezzte/backups");
    assert_eq!(m.config_path(), "/c/wezterm.lua");
    assert_eq!(m.max_backups(), 5);
    assert_eq!(BackupManager::get_default_backup_dir(None), "./.local/share/wezzte/backups");
    assert_eq!(BackupManager::backup_file_name(1700000000, "temp"), "wezterm-1700000000-temp.lua");
    assert_eq!(
        m.backup_path(12, "persistent"),
        "/home/u/.local/share/wezzte/backups/wezterm-12-persistent.lua"
    );
    assert!(BackupManager::is_backup_file_name("wezterm-1-temp.lua"));
    assert!(!BackupManager::is_backup_file_name("wezterm-1-temp.txt"));
    assert!(!BackupManager::is_backup_file_name("other.lua"));
    let d = BackupManager::new("c".to_string(), Some("/b".to_string()), 1, None).unwrap();
    assert_eq!(d.backup_dir(), "/b");
    assert_eq!(
        d.missing_config_error(),
        WezzteError::FileNotFound { path: "c".to_string() }
    );
}

#[test]
fn test_backup_ordering_and_cleanup() {
    let entries = vec![
        ("a".to_string(), 10i128),
        ("b".to_string(), 30i128),
        ("c".to_string(), 20i128),
        ("d".to_string(), 30i128),
    ];
    let sorted = BackupManager::sort_newest_first(&entries);
    let names: Vec<&str> = sorted.iter().map(|e| e.0.as_str()).collect();
    assert_eq!(names, vec!["b", "d", "c", "a"]);

    let m = BackupManager::new("c".to_string(), Some("/b".to_string()), 2, None).unwrap();
    let ordered: Vec<String> = names.iter().map(|s| s.to_string()).collect();
    assert_eq!(m.excess_backups(&ordered), vec!["c".to_string(), "a".to_string()]);
    assert_eq!(BackupManager::latest_backup(&ordered).unwrap(), "b");
    assert_eq!(
        BackupManager::latest_backup(&Vec::new()),
        Err(WezzteError::Config { message: "No backups found to restore from".to_string() })
    );
    let few = vec!["x".to_string()];
    assert!(m.excess_backups(&few).is_empty());
}

#[test]
fn test_error_texts() {
    assert_eq!(WezzteError::parse("bad".to_string(), 3).to_text(), "Parse error at position 3: bad");
    assert_eq!(
        WezzteError::invalid_parameter("value".to_string(), "x".to_string()).to_text(),
        "Invalid parameter value for 'value': x"
    );
    assert_eq!(WezzteError::missing_parameter("min".to_string()).to_text(), "Missing required parameter: min");
    assert_eq!(WezzteError::io("disk".to_string()).to_text(), "IO error: disk");
    assert_eq!(WezzteError::config("c".to_string()).to_text(), "Config error: c");
    assert_eq!(WezzteError::invalid_decoration("d".to_string()).to_text(), "Invalid decoration: d");
}

#[test]
fn test_later_tuner_update_replaces_earlier() {
    let original = "head\n-- <<TUNER-START>>\nold\n-- <<TUNER-END>>\ntail";
    let first = ConfigUpdater::new(original.to_string()).update_tuner_block("x = 1").unwrap();
    let later = ConfigUpdater::new(first).update_tuner_block("y = 2\nz = 3").unwrap();
    let direct = ConfigUpdater::new(original.to_string()).update_tuner_block("y = 2\nz = 3").unwrap();
    assert_eq!(later, direct);
    assert_eq!(later, "head\n-- <<TUNER-START>>\ny = 2\nz = 3\n-- <<TUNER-END>>\ntail");
}

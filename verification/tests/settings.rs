use wezzte_core::hex::parse_hex_color;
use wezzte_core::settings::{ConfigManager, GuiBackend, WezztershierConfig};

#[test]
fn test_gui_backend_parsing() {
    assert_eq!(GuiBackend::from_str("native").unwrap(), GuiBackend::Native);
    assert_eq!(GuiBackend::from_str("web").unwrap(), GuiBackend::Web);
    assert_eq!(GuiBackend::from_str("NATIVE").unwrap(), GuiBackend::Native);
    assert!(GuiBackend::from_str("invalid").is_err());
}

#[test]
fn test_gui_backend_error_message() {
    assert_eq!(
        GuiBackend::from_str("Gtk"),
        Err("Invalid GUI backend: Gtk. Valid options: native, web".to_string())
    );
    assert_eq!(GuiBackend::from_str("WeB"), Ok(GuiBackend::Web));
}

#[test]
fn test_gui_backend_as_str() {
    assert_eq!(GuiBackend::Native.as_str(), "native");
    assert_eq!(GuiBackend::Web.as_str(), "web");
}

#[test]
fn test_gui_backend_name_round_trip() {
    for b in [GuiBackend::Native, GuiBackend::Web] {
        assert_eq!(GuiBackend::from_str(b.as_str()), Ok(b));
    }
}

#[test]
fn test_default_config() {
    let config = WezztershierConfig::default();
    assert_eq!(config.default_gui_backend, GuiBackend::Native);
}

#[test]
fn test_settings_manager() {
    let mut m = ConfigManager::new(
        "/home/u/.config/wezztershier/config.toml".to_string(),
        WezztershierConfig { default_gui_backend: GuiBackend::Web },
    );
    assert_eq!(m.path(), "/home/u/.config/wezztershier/config.toml");
    assert_eq!(m.config().default_gui_backend, GuiBackend::Web);
    m.config_mut().default_gui_backend = GuiBackend::Native;
    assert_eq!(m.config().default_gui_backend, GuiBackend::Native);
    m.config_mut().default_gui_backend = GuiBackend::Web;
    m.reset();
    assert_eq!(m.config().default_gui_backend, GuiBackend::Native);
    assert_eq!(m.path(), "/home/u/.config/wezztershier/config.toml");
    assert_eq!(
        ConfigManager::config_file_path(Some("/home/u/.config")).unwrap(),
        "/home/u/.config/wezztershier/config.toml"
    );
    assert_eq!(
        ConfigManager::config_file_path(None),
        Err("Could not determine config directory".to_string())
    );
}

#[test]
fn state_test_hex_color_parsing() {
    assert_eq!(parse_hex_color("#ff0000"), Some([255, 0, 0]));
    assert_eq!(parse_hex_color("00ff00"), Some([0, 255, 0]));
    assert_eq!(parse_hex_color("#0000ff"), Some([0, 0, 255]));
    assert_eq!(parse_hex_color("#invalid"), None);
    assert_eq!(parse_hex_color("#12345"), None);
}

#[test]
fn widgets_test_hex_color_parsing() {
    assert_eq!(parse_hex_color("#ff0000"), Some([255, 0, 0]));
    assert_eq!(parse_hex_color("00ff00"), Some([0, 255, 0]));
    assert_eq!(parse_hex_color("#0000ff"), Some([0, 0, 255]));
    assert_eq!(parse_hex_color("#invalid"), None);
    assert_eq!(parse_hex_color("#12345"), None);
}

#[test]
fn test_hex_color_edge_cases() {
    assert_eq!(parse_hex_color("##AbCdEf"), Some([0xab, 0xcd, 0xef]));
    assert_eq!(parse_hex_color("+f+f+f"), Some([15, 15, 15]));
    assert_eq!(parse_hex_color("#1234567"), None);
    assert_eq!(parse_hex_color(""), None);
}

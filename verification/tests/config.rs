use potyi::config::{EditorConfig, KeybindingMode, LineNumberMode};

#[test]
fn font_size_validation_has_safe_bounds() {
    let mut config = EditorConfig::default();
    config.font_size = 8;
    assert!(config.validate("editor.toml").is_ok());
    config.font_size = 72;
    assert!(config.validate("editor.toml").is_ok());
    config.font_size = 73;
    assert!(config.validate("editor.toml").is_err());
}

#[test]
fn font_size_errors_name_the_file_and_the_bounds() {
    let mut config = EditorConfig::default();
    config.font_size = 7;
    assert_eq!(
        config.validate("config/editor.toml"),
        Err("Invalid font_size in config/editor.toml: expected 8 through 72, got 7".to_string())
    );
}

#[test]
fn defaults_match_the_shipped_settings() {
    let config = EditorConfig::default();
    assert_eq!(config.tab_width, 2);
    assert!(!config.insert_spaces);
    assert_eq!(config.font_size, 18);
    assert_eq!(config.line_numbers, LineNumberMode::Dynamic);
    assert_eq!(config.keybinding_mode, KeybindingMode::Conventional);
    assert!(config.validate("editor.toml").is_ok());
}

use xt_core::config::AppConfig;

#[test]
fn default_config_has_nothing_set() {
    let config = AppConfig::default();
    assert!(config.openai_api_key.is_none());
    assert!(config.theme.is_none());
    assert!(config.proxy_port.is_none());
    assert!(config.esp_mode.is_none());
}

#[test]
fn apply_takes_only_set_values() {
    let mut config = AppConfig {
        openai_api_key: Some("sk-test".to_string()),
        theme: Some("dark".to_string()),
        proxy_port: Some(8080),
        ..Default::default()
    };
    let other = AppConfig {
        theme: Some("light".to_string()),
        language: Some("zh-CN".to_string()),
        esp_mode: Some(true),
        ..Default::default()
    };
    config.apply(&other);
    assert_eq!(config.openai_api_key.as_deref(), Some("sk-test"));
    assert_eq!(config.theme.as_deref(), Some("light"));
    assert_eq!(config.language.as_deref(), Some("zh-CN"));
    assert_eq!(config.proxy_port, Some(8080));
    assert_eq!(config.esp_mode, Some(true));
    assert!(config.deepl_api_key.is_none());

    let before = config.clone();
    config.apply(&AppConfig::default());
    assert_eq!(config.theme, before.theme);
    assert_eq!(config.proxy_port, before.proxy_port);
}

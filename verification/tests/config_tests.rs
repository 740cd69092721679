use genetics::config::{Config, Markdown, Mode};

#[test]
fn test_config_serialization() {
    let config = Config {
        base_url: "https://example.com".to_string(),
        title: Some("Test Site".to_string()),
        description: Some("A test site".to_string()),
        mode: Mode::Build,
        markdown: Markdown::new(),
    };

    let serialized = config.serialize();
    assert_eq!(serialized.base_url, "https://example.com");
    assert_eq!(serialized.title, Some("Test Site"));
    assert_eq!(serialized.description, Some("A test site"));
}

#[test]
fn test_mode_switching() {
    let mut config = Config::default();

    config.enable_serve_mode();
    assert_eq!(config.mode, Mode::Serve);

    config.enable_check_mode();
    assert_eq!(config.mode, Mode::Check);
    assert!(config.is_in_check_mode());
}

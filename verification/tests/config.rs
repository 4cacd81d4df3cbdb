use flickr_cli::config::{Config, ConfigError};

#[test]
fn test_config_from_env_success() {
    let result = Config::from_values(Some("test_key".to_string()), Some("test_secret".to_string()));
    let config = result.unwrap();
    assert_eq!(config.flickr_api_key, "test_key");
    assert_eq!(config.flickr_api_secret, "test_secret");
}

#[test]
fn test_config_missing_api_key() {
    let result = Config::from_values(None, Some("test_secret".to_string()));
    assert!(result.is_err());
    let msg = result.err().unwrap().message().to_string();
    assert!(msg.contains("FLICKR_API_KEY"));
}

#[test]
fn test_config_missing_api_secret() {
    let result = Config::from_values(Some("test_key".to_string()), None);
    assert!(result.is_err());
    let msg = result.err().unwrap().message().to_string();
    assert!(msg.contains("FLICKR_API_SECRET"));
}

#[test]
fn test_config_empty_api_key() {
    let result = Config::from_values(Some(String::new()), Some("test_secret".to_string()));
    assert!(result.is_err());
}

#[test]
fn test_config_empty_api_secret() {
    let result = Config::from_values(Some("test_key".to_string()), Some(String::new()));
    assert!(result.is_err());
}

#[test]
fn config_errors_in_checking_order() {
    assert_eq!(
        Config::from_values(None, None).err(),
        Some(ConfigError::MissingApiKey)
    );
    assert_eq!(
        Config::from_values(Some(String::new()), None).err(),
        Some(ConfigError::MissingApiSecret)
    );
    assert_eq!(
        Config::from_values(Some(String::new()), Some(String::new())).err(),
        Some(ConfigError::Empty)
    );
    assert_eq!(
        ConfigError::Empty.message(),
        "FLICKR_API_KEY and FLICKR_API_SECRET must not be empty"
    );
}

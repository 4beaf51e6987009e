use site_harvest::config::{AppConfig, CrawlerConfig};
use std::path::PathBuf;

#[test]
fn test_default_config() {
    let config = CrawlerConfig::default();
    assert!(!config.spa_domains.is_empty());
    assert!(!config.ssr_domains.is_empty());
    assert_eq!(config.output_directory, "output");
    assert_eq!(config.spider_config.depth, 3);
    assert_eq!(config.spider_config.delay_ms, 200);
    assert_eq!(config.logging.level, "info");
}

#[test]
fn test_config_validation() {
    let mut config = CrawlerConfig::default();

    // Valid config should pass
    assert!(config.validate().is_ok());

    // Invalid output directory
    config.output_directory = "".to_string();
    assert!(config.validate().is_err());

    // Reset and test invalid depth
    config = CrawlerConfig::default();
    config.spider_config.depth = 0;
    assert!(config.validate().is_err());

    // Reset and test invalid log level
    config = CrawlerConfig::default();
    config.logging.level = "invalid".to_string();
    assert!(config.validate().is_err());
}

#[test]
fn test_get_output_path() {
    let config = CrawlerConfig::default();
    let path = config.get_output_path();
    assert_eq!(path, PathBuf::from("output"));
}

#[test]
fn test_configuration_validation() {
    let valid_config = CrawlerConfig::default();
    assert!(valid_config.validate().is_ok(), "Default config should be valid");

    let mut invalid_config = CrawlerConfig::default();

    invalid_config.output_directory = "".to_string();
    assert!(invalid_config.validate().is_err(), "Empty output directory should be invalid");

    invalid_config = CrawlerConfig::default();
    invalid_config.spider_config.depth = 0;
    assert!(invalid_config.validate().is_err(), "Zero depth should be invalid");

    invalid_config = CrawlerConfig::default();
    invalid_config.logging.level = "invalid".to_string();
    assert!(invalid_config.validate().is_err(), "Invalid log level should be rejected");
}

#[test]
fn validation_messages_are_exact() {
    let mut config = CrawlerConfig::default();
    config.output_directory = String::new();
    assert_eq!(config.validate(), Err("Output directory cannot be empty".to_string()));

    config = CrawlerConfig::default();
    config.spider_config.depth = 0;
    assert_eq!(config.validate(), Err("Spider depth must be greater than 0".to_string()));

    config = CrawlerConfig::default();
    config.spider_config.delay_ms = 10001;
    assert_eq!(
        config.validate(),
        Err("Delay between requests should not exceed 10 seconds".to_string())
    );
    config.spider_config.delay_ms = 10000;
    assert_eq!(config.validate(), Ok(()));

    config = CrawlerConfig::default();
    config.spider_config.timeout_seconds = 0;
    assert_eq!(config.validate(), Err("Timeout must be greater than 0 seconds".to_string()));

    config = CrawlerConfig::default();
    config.spider_config.max_concurrent_requests = 0;
    assert_eq!(
        config.validate(),
        Err("Max concurrent requests must be greater than 0".to_string())
    );

    config = CrawlerConfig::default();
    config.spider_config.user_agent = String::new();
    assert_eq!(config.validate(), Err("User agent cannot be empty".to_string()));

    config = CrawlerConfig::default();
    config.logging.level = "loud".to_string();
    assert_eq!(
        config.validate(),
        Err("Invalid log level 'loud'. Must be one of: [\"trace\", \"debug\", \"info\", \"warn\", \"error\"]"
            .to_string())
    );

    config = CrawlerConfig::default();
    config.logging.enable_file_logging = true;
    config.logging.log_file = String::new();
    assert_eq!(
        config.validate(),
        Err("Log file path cannot be empty when file logging is enabled".to_string())
    );
}

#[test]
fn first_failing_check_is_reported() {
    let mut config = CrawlerConfig::default();
    config.output_directory = String::new();
    config.spider_config.depth = 0;
    assert_eq!(config.validate(), Err("Output directory cannot be empty".to_string()));
}

#[test]
fn load_or_default_prefers_what_was_loaded() {
    let config = CrawlerConfig::load_or_default(None);
    assert_eq!(config.output_directory, "output");

    let mut loaded = CrawlerConfig::default();
    loaded.output_directory = "custom_output".to_string();
    loaded.spider_config.depth = 5;
    loaded.logging.level = "debug".to_string();
    let config = CrawlerConfig::load_or_default(Some(loaded));
    assert_eq!(config.output_directory, "custom_output");
    assert_eq!(config.spider_config.depth, 5);
    assert_eq!(config.logging.level, "debug");
}

#[test]
fn app_config_defaults() {
    let config = AppConfig::default();
    assert_eq!(config.user_agent.as_deref(), Some("MyRustCrawler/1.0"));
    assert_eq!(config.delay_ms, Some(250));
    assert_eq!(config.sitemap_max_depth, Some(5));
    assert_eq!(config.max_sitemap_urls, Some(100));
    assert_eq!(config.effective_sitemap_depth(), 5);
    assert_eq!(config.effective_max_sitemap_urls(), 100);

    let bare = AppConfig {
        user_agent: None,
        delay_ms: None,
        whitelist_path: None,
        chrome_executable: None,
        native_download_mode: None,
        fetch_mode: None,
        depth: None,
        max_pages: None,
        sitemap_max_depth: None,
        max_sitemap_urls: Some(7),
    };
    assert_eq!(bare.effective_user_agent(), "MyRustCrawler/1.0");
    assert_eq!(bare.effective_delay_ms(), 250);
    assert_eq!(bare.effective_whitelist_path(), "src/config/whitelist.yaml");
    assert_eq!(bare.effective_sitemap_depth(), 5);
    assert_eq!(bare.effective_max_sitemap_urls(), 7);
}

#[test]
fn output_path_is_made_of_the_directory() {
    let mut config = CrawlerConfig::default();
    config.output_directory = "data/pages".to_string();
    assert_eq!(config.get_output_path(), PathBuf::from("data/pages"));
    assert_ne!(config.get_output_path(), PathBuf::from("output"));
}

use site_harvest::errors::{
    ConfigurationError, CrawlerError, DiscoveryError, DomainDetectionError, ErrorRecovery,
    FileOperationError, HtmlConversionError, NetworkError, SpiderError, ValidationError,
};

#[test]
fn test_error_display() {
    let error = CrawlerError::DomainDetection(DomainDetectionError::InvalidDomain(
        "invalid-domain".to_string(),
    ));
    assert!(error.to_string().contains("Domain detection error"));
    assert!(error.to_string().contains("Invalid domain format"));
}

#[test]
fn test_error_recovery_is_recoverable() {
    let recoverable_error =
        CrawlerError::Network(NetworkError::TimeoutError("https://example.com".to_string()));
    assert!(ErrorRecovery::is_recoverable(&recoverable_error));

    let non_recoverable_error =
        CrawlerError::Validation(ValidationError::InvalidUrl("invalid-url".to_string()));
    assert!(!ErrorRecovery::is_recoverable(&non_recoverable_error));
}

#[test]
fn test_error_recovery_retry_count() {
    let network_error =
        CrawlerError::Network(NetworkError::ConnectionFailed("https://example.com".to_string()));
    assert_eq!(ErrorRecovery::get_retry_count(&network_error), 3);

    let validation_error =
        CrawlerError::Validation(ValidationError::InvalidUrl("invalid-url".to_string()));
    assert_eq!(ErrorRecovery::get_retry_count(&validation_error), 0);
}

#[test]
fn test_error_recovery_retry_delay() {
    let network_error =
        CrawlerError::Network(NetworkError::TimeoutError("https://example.com".to_string()));
    assert_eq!(ErrorRecovery::get_retry_delay(&network_error, 0), 1000);
    assert_eq!(ErrorRecovery::get_retry_delay(&network_error, 1), 2000);
    assert_eq!(ErrorRecovery::get_retry_delay(&network_error, 2), 4000);
}

#[test]
fn test_error_recovery_fallback_suggestions() {
    let html_error =
        CrawlerError::HtmlConversion(HtmlConversionError::ParseError("Invalid HTML".to_string()));
    let fallback = ErrorRecovery::suggest_fallback(&html_error);
    assert!(fallback.is_some());
    assert!(fallback.unwrap().contains("raw HTML"));
}

#[test]
fn test_error_conversions() {
    let io_error = std::io::Error::new(std::io::ErrorKind::NotFound, "File not found");
    let crawler_error: CrawlerError = io_error.into();

    match crawler_error {
        CrawlerError::FileOperation(FileOperationError::FileWriteFailed(_)) => {}
        _ => panic!("Expected FileOperationError"),
    }
}

#[test]
fn retry_delays_double() {
    let file_error = CrawlerError::FileOperation(FileOperationError::DiskSpaceFull);
    assert_eq!(ErrorRecovery::get_retry_delay(&file_error, 0), 100);
    assert_eq!(ErrorRecovery::get_retry_delay(&file_error, 3), 800);
    let validation = CrawlerError::Validation(ValidationError::InvalidInput("x".to_string()));
    assert_eq!(ErrorRecovery::get_retry_delay(&validation, 40), 0);
    assert_eq!(ErrorRecovery::retry_delay_if_representable(&file_error, 4), Some(1600));
    assert_eq!(ErrorRecovery::retry_delay_if_representable(&validation, 1000), Some(0));
    let network = CrawlerError::Network(NetworkError::SslError("x".to_string()));
    assert_eq!(ErrorRecovery::retry_delay_if_representable(&network, 54), Some(1000u64 << 54));
    assert_eq!(ErrorRecovery::retry_delay_if_representable(&network, 55), None);
    assert_eq!(ErrorRecovery::retry_delay_if_representable(&network, 500), None);
    assert_eq!(ErrorRecovery::get_retry_count(&file_error), 1);
    assert!(!ErrorRecovery::is_recoverable(&file_error));
}

#[test]
fn every_error_has_its_text() {
    let cases: Vec<(CrawlerError, &str)> = vec![
        (
            CrawlerError::DomainDetection(DomainDetectionError::ConfigurationLoadFailed("m".into())),
            "Domain detection error: Failed to load domain configuration: m",
        ),
        (
            CrawlerError::DomainDetection(DomainDetectionError::ModeSelectionFailed("m".into())),
            "Domain detection error: Failed to select appropriate fetch mode: m",
        ),
        (
            CrawlerError::HtmlConversion(HtmlConversionError::EmptyContent),
            "HTML conversion error: HTML content is empty",
        ),
        (
            CrawlerError::HtmlConversion(HtmlConversionError::TagConversionFailed("p".into())),
            "HTML conversion error: Failed to convert HTML tag: p",
        ),
        (
            CrawlerError::FileOperation(FileOperationError::InvalidPath("p".into())),
            "File operation error: Invalid file path: p",
        ),
        (
            CrawlerError::FileOperation(FileOperationError::DiskSpaceFull),
            "File operation error: Insufficient disk space",
        ),
        (CrawlerError::Spider(SpiderError::RateLimitExceeded), "Spider error: Rate limit exceeded"),
        (
            CrawlerError::Spider(SpiderError::SitemapParsingError("m".into())),
            "Spider error: Sitemap parsing error: m",
        ),
        (
            CrawlerError::Configuration(ConfigurationError::InvalidLogLevel("l".into())),
            "Configuration error: Invalid log level: l",
        ),
        (
            CrawlerError::Network(NetworkError::DnsResolutionFailed("d".into())),
            "Network error: DNS resolution failed for: d",
        ),
        (
            CrawlerError::Validation(ValidationError::InvalidDomain("d".into())),
            "Validation error: Invalid domain: d",
        ),
    ];
    for (error, text) in cases {
        assert_eq!(error.to_string(), text);
    }
    let io = std::io::Error::new(std::io::ErrorKind::Other, "disk on fire");
    let wrapped = CrawlerError::FileOperation(FileOperationError::FileReadFailed(io));
    assert_eq!(wrapped.to_string(), "File operation error: Failed to read file: disk on fire");
    assert_eq!(DiscoveryError::NoSitemapFound.to_string(), "No sitemap found");
    assert_eq!(
        ErrorRecovery::suggest_fallback(&CrawlerError::Spider(SpiderError::ChromeModeError("x".into()))),
        Some("Fallback to HTTP request mode".to_string())
    );
    assert_eq!(
        ErrorRecovery::suggest_fallback(&CrawlerError::Network(NetworkError::ProxyError("x".into()))),
        None
    );
}

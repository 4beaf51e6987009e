use site_harvest::errors::{CrawlerError, NetworkError};
use site_harvest::logging::{CrawlerLogger, LogContext, PerformanceMetrics};
use std::collections::HashMap;
use std::time::Duration;

#[test]
fn test_crawler_logger_creation() {
    let logger = CrawlerLogger::new();
    assert_eq!(logger.get_stats().total_operations, 0);
    assert_eq!(logger.get_stats().successful_operations, 0);
    assert_eq!(logger.get_stats().failed_operations, 0);
}

#[test]
fn test_operation_timing() {
    let mut logger = CrawlerLogger::new();

    logger.start_operation("test_operation");
    logger.end_operation("test_operation", true);

    assert_eq!(logger.get_stats().total_operations, 1);
    assert_eq!(logger.get_stats().successful_operations, 1);
    assert_eq!(logger.get_stats().failed_operations, 0);
}

#[test]
fn test_logging_stats() {
    let mut logger = CrawlerLogger::new();

    logger.log_domain_detection("example.com", "HttpRequest", true);
    logger.log_html_conversion("https://example.com", 1000, 500, true);
    logger.log_file_operation("save", "/path/to/file.md", false, Some("Permission denied"));

    let stats = logger.get_stats();
    assert_eq!(stats.errors_count, 1);
    assert!(logger.get_total_elapsed() > Duration::from_nanos(1));
}

#[test]
fn test_performance_metrics() {
    let metrics = PerformanceMetrics::new(Duration::from_secs(5), 100)
        .with_memory_usage(1024)
        .with_bytes_processed(50000);

    assert_eq!(metrics.duration, Duration::from_secs(5));
    assert_eq!(metrics.items_processed, 100);
    assert_eq!(metrics.memory_usage_bytes, 1024);
    assert_eq!(metrics.bytes_processed, 50000);
}

#[test]
fn test_log_context_creation() {
    let context = LogContext {
        operation: "test".to_string(),
        url: Some("https://example.com".to_string()),
        domain: Some("example.com".to_string()),
        file_path: Some("/path/to/file.md".to_string()),
        additional_data: HashMap::new(),
    };

    assert_eq!(context.operation, "test");
    assert_eq!(context.url.unwrap(), "https://example.com");
    assert_eq!(context.domain.unwrap(), "example.com");
    assert_eq!(context.file_path.unwrap(), "/path/to/file.md");
}

#[test]
fn operations_that_never_began_are_not_counted() {
    let mut logger = CrawlerLogger::new();
    logger.end_operation("ghost", true);
    assert_eq!(logger.get_stats().total_operations, 0);
    logger.start_operation("a");
    logger.start_operation("b");
    logger.start_operation("a");
    logger.end_operation("a", false);
    logger.end_operation("a", true);
    logger.end_operation("b", true);
    let stats = logger.get_stats();
    assert_eq!(stats.total_operations, 2);
    assert_eq!(stats.successful_operations, 1);
    assert_eq!(stats.failed_operations, 1);
}

#[test]
fn warnings_and_errors_are_counted() {
    let mut logger = CrawlerLogger::new();
    logger.log_domain_detection("example.com", "Chrome", false);
    logger.log_spider_activity("fetch", "https://example.com", false, None);
    logger.log_spider_activity("fetch", "https://example.com", true, Some("ok"));
    logger.log_html_conversion("https://example.com", 10, 0, false);
    logger.log_configuration("load", None, false, Some("missing"));
    logger.log_configuration("load", Some("app.yaml"), true, None);
    let error = CrawlerError::Network(NetworkError::TimeoutError("https://example.com".to_string()));
    logger.log_error_with_recovery(&error, true, Some(false));
    let stats = logger.get_stats();
    assert_eq!(stats.warnings_count, 2);
    assert_eq!(stats.errors_count, 3);
}

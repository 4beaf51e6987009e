use site_harvest::domain_detector::{
    DomainConfig, DomainDetector, FetchMode, MatchKind, WhitelistRule,
};
use site_harvest::errors::{CrawlerError, DomainDetectionError};

#[test]
fn test_new_domain_detector() {
    let detector = DomainDetector::new();
    assert_eq!(detector.get_spa_domains().len(), 0);
    assert_eq!(detector.get_ssr_domains().len(), 0);
}

#[test]
fn test_add_spa_domain() {
    let mut detector = DomainDetector::new();
    detector.add_spa_domain("example.com".to_string());
    assert!(detector.is_spa_domain("example.com"));
    assert_eq!(detector.get_fetch_mode("example.com"), FetchMode::Chrome);
}

#[test]
fn test_add_ssr_domain() {
    let mut detector = DomainDetector::new();
    detector.add_ssr_domain("example.org".to_string());
    assert!(detector.is_ssr_domain("example.org"));
    assert_eq!(detector.get_fetch_mode("example.org"), FetchMode::HttpRequest);
}

#[test]
fn test_domain_normalization() {
    let mut detector = DomainDetector::new();
    detector.add_spa_domain("example.com".to_string());

    assert!(detector.is_spa_domain("https://example.com"));
    assert!(detector.is_spa_domain("http://example.com"));
    assert!(detector.is_spa_domain("www.example.com"));
    assert!(detector.is_spa_domain("https://www.example.com"));
    assert!(detector.is_spa_domain("example.com/path"));
    assert!(detector.is_spa_domain("EXAMPLE.COM"));
}

#[test]
fn test_unknown_domain_defaults_to_http() {
    let mut detector = DomainDetector::new();
    assert_eq!(detector.get_fetch_mode("unknown.com"), FetchMode::HttpRequest);
}

#[test]
fn test_from_config() {
    let config = DomainConfig {
        spa_domains: vec!["spa1.com".to_string(), "spa2.com".to_string()],
        ssr_domains: vec!["ssr1.com".to_string(), "ssr2.com".to_string()],
    };

    let detector = DomainDetector::from_config(config);

    assert!(detector.is_spa_domain("spa1.com"));
    assert!(detector.is_spa_domain("spa2.com"));
    assert!(detector.is_ssr_domain("ssr1.com"));
    assert!(detector.is_ssr_domain("ssr2.com"));
}

#[test]
fn test_remove_domains() {
    let mut detector = DomainDetector::new();
    detector.add_spa_domain("example.com".to_string());
    detector.add_ssr_domain("test.org".to_string());

    assert!(detector.remove_spa_domain("example.com"));
    assert!(detector.remove_ssr_domain("test.org"));
    assert!(!detector.is_spa_domain("example.com"));
    assert!(!detector.is_ssr_domain("test.org"));
}

#[test]
fn test_get_domains_lists() {
    let mut detector = DomainDetector::new();
    detector.add_spa_domain("spa1.com".to_string());
    detector.add_spa_domain("spa2.com".to_string());
    detector.add_ssr_domain("ssr1.com".to_string());

    let spa_domains = detector.get_spa_domains();
    let ssr_domains = detector.get_ssr_domains();

    assert_eq!(spa_domains.len(), 2);
    assert_eq!(ssr_domains.len(), 1);
    assert!(spa_domains.contains(&"spa1.com".to_string()));
    assert!(spa_domains.contains(&"spa2.com".to_string()));
    assert!(ssr_domains.contains(&"ssr1.com".to_string()));
}

#[test]
fn test_complete_pipeline_spa_and_ssr() {
    let mut domain_detector = DomainDetector::new();
    domain_detector.add_spa_domain("app.example.com".to_string());
    domain_detector.add_ssr_domain("docs.example.com".to_string());

    let spa_mode = domain_detector.get_fetch_mode("app.example.com");
    assert_eq!(spa_mode, FetchMode::Chrome, "SPA domain should use Chrome mode");

    let ssr_mode = domain_detector.get_fetch_mode("docs.example.com");
    assert_eq!(ssr_mode, FetchMode::HttpRequest, "SSR domain should use HttpRequest mode");

    let unknown_mode = domain_detector.get_fetch_mode("unknown.example.com");
    assert_eq!(unknown_mode, FetchMode::HttpRequest, "Unknown domain should default to HttpRequest");
}

fn rule(pattern: &str, strategy: FetchMode, match_kind: MatchKind) -> WhitelistRule {
    WhitelistRule { pattern: pattern.to_string(), strategy, match_kind }
}

#[test]
fn unmatched_domain_gets_the_default() {
    let mut detector = DomainDetector::with_rules(
        vec![rule("docs.example.com", FetchMode::HttpRequest, MatchKind::Exact)],
        FetchMode::Chrome,
    );
    assert_eq!(detector.classify("other.example.org").unwrap(), FetchMode::Chrome);
    assert_eq!(detector.classify("docs.example.com").unwrap(), FetchMode::HttpRequest);
}

#[test]
fn classification_is_stable_when_rules_change() {
    let mut detector = DomainDetector::new();
    assert_eq!(detector.classify("https://www.Example.com/a/b").unwrap(), FetchMode::HttpRequest);
    detector.add_spa_domain("example.com".to_string());
    assert!(detector.is_spa_domain("example.com"));
    // the earlier decision stands
    assert_eq!(detector.classify("example.com").unwrap(), FetchMode::HttpRequest);
    assert_eq!(detector.get_fetch_mode("http://example.com/"), FetchMode::HttpRequest);
    // a domain that was not classified before sees the new rule
    detector.add_spa_domain("fresh.example.com".to_string());
    assert_eq!(detector.classify("fresh.example.com").unwrap(), FetchMode::Chrome);
    assert!(detector.remove_spa_domain("fresh.example.com"));
    assert_eq!(detector.classify("fresh.example.com").unwrap(), FetchMode::Chrome);
}

#[test]
fn first_matching_rule_wins() {
    let mut detector = DomainDetector::with_rules(
        vec![
            rule("example.com", FetchMode::Chrome, MatchKind::Subdomain),
            rule("docs.example.com", FetchMode::HttpRequest, MatchKind::Exact),
        ],
        FetchMode::HttpRequest,
    );
    assert_eq!(detector.classify("docs.example.com").unwrap(), FetchMode::Chrome);
    assert_eq!(detector.classify("example.com").unwrap(), FetchMode::Chrome);
    assert_eq!(detector.classify("notexample.com").unwrap(), FetchMode::HttpRequest);

    let mut reversed = DomainDetector::with_rules(
        vec![
            rule("docs.example.com", FetchMode::HttpRequest, MatchKind::Exact),
            rule("example.com", FetchMode::Chrome, MatchKind::Subdomain),
        ],
        FetchMode::HttpRequest,
    );
    assert_eq!(reversed.classify("docs.example.com").unwrap(), FetchMode::HttpRequest);
    assert_eq!(reversed.classify("app.example.com").unwrap(), FetchMode::Chrome);
}

#[test]
fn exact_rule_does_not_match_subdomains() {
    let mut detector = DomainDetector::with_rules(
        vec![rule("example.com", FetchMode::Chrome, MatchKind::Exact)],
        FetchMode::HttpRequest,
    );
    assert_eq!(detector.classify("app.example.com").unwrap(), FetchMode::HttpRequest);
    assert_eq!(detector.classify("example.com").unwrap(), FetchMode::Chrome);
}

#[test]
fn empty_domain_is_invalid() {
    let mut detector = DomainDetector::new();
    for input in ["", "https://", "http://www.", "www./path", "/"] {
        match detector.classify(input) {
            Err(CrawlerError::DomainDetection(DomainDetectionError::InvalidDomain(_))) => {}
            other => panic!("expected InvalidDomain for {:?}, got {:?}", input, other),
        }
    }
    assert_eq!(detector.get_fetch_mode(""), FetchMode::HttpRequest);
}

#[test]
fn normalization_examples() {
    let detector = DomainDetector::new();
    assert_eq!(detector.normalize_domain("HTTPS://WWW.Example.COM/Docs/Page"), "example.com");
    assert_eq!(detector.normalize_domain("http://example.com"), "example.com");
    assert_eq!(detector.normalize_domain("www.example.com/"), "example.com");
    assert_eq!(detector.normalize_domain("sub.example.com"), "sub.example.com");
    assert_eq!(detector.normalize_domain("ÉCOLE.fr"), "école.fr");
}

#[test]
fn checked_lookup() {
    let mut detector = DomainDetector::new();
    detector.add_spa_domain("example.com".to_string());
    assert_eq!(detector.get_fetch_mode_safe("https://example.com/x").unwrap(), FetchMode::Chrome);
    assert_eq!(detector.get_fetch_mode_safe("other.org").unwrap(), FetchMode::HttpRequest);
    match detector.get_fetch_mode_safe("") {
        Err(CrawlerError::DomainDetection(DomainDetectionError::InvalidDomain(m))) => {
            assert_eq!(m, "Empty domain")
        }
        other => panic!("unexpected {:?}", other),
    }
    match detector.get_fetch_mode_safe("bad domain!") {
        Err(CrawlerError::DomainDetection(DomainDetectionError::InvalidDomain(m))) => {
            assert_eq!(m, "Invalid format: bad domain!")
        }
        other => panic!("unexpected {:?}", other),
    }
    assert!(detector.is_valid_domain_format("a-b_c.example.com"));
    assert!(!detector.is_valid_domain_format(""));
    assert!(!detector.is_valid_domain_format(&"a".repeat(254)));
    assert!(detector.is_valid_domain_format(&"a".repeat(253)));
}

#[test]
fn fetch_mode_from_text() {
    assert_eq!(FetchMode::from_str("Chrome"), FetchMode::Chrome);
    assert_eq!(FetchMode::from_str("HttpRequest"), FetchMode::HttpRequest);
    assert_eq!(FetchMode::from_str("chrome"), FetchMode::HttpRequest);
    assert_eq!(FetchMode::from_str(""), FetchMode::HttpRequest);
}

#[test]
fn adding_twice_keeps_one_rule() {
    let mut detector = DomainDetector::new();
    detector.add_spa_domain("example.com".to_string());
    detector.add_spa_domain("https://www.example.com/".to_string());
    assert_eq!(detector.get_spa_domains(), vec!["example.com".to_string()]);
    assert!(!detector.remove_spa_domain("absent.com"));
    assert!(detector.remove_spa_domain("EXAMPLE.com"));
    assert!(detector.get_spa_domains().is_empty());
}

#[test]
fn missing_whitelist_gives_an_empty_classifier() {
    let mut detector = DomainDetector::from_config_or_default(None);
    assert!(detector.get_spa_domains().is_empty());
    assert_eq!(detector.get_fetch_mode("example.com"), FetchMode::HttpRequest);
    let mut detector = DomainDetector::from_config_or_default(Some(DomainConfig {
        spa_domains: vec!["WWW.Example.com".to_string()],
        ssr_domains: vec!["example.com".to_string()],
    }));
    // rules for pages fetched by browser come first
    assert_eq!(detector.get_fetch_mode("example.com"), FetchMode::Chrome);
    assert!(detector.is_ssr_domain("example.com"));
}

#[test]
fn lookup_remembers_its_answer() {
    let mut detector = DomainDetector::new();
    assert_eq!(detector.get_fetch_mode("unknown.com"), FetchMode::HttpRequest);
    detector.add_spa_domain("unknown.com".to_string());
    assert!(detector.is_spa_domain("unknown.com"));
    assert_eq!(detector.get_fetch_mode("unknown.com"), FetchMode::HttpRequest);
    assert_eq!(detector.get_fetch_mode("https://www.UNKNOWN.com/page"), FetchMode::HttpRequest);
    assert_eq!(detector.classify("unknown.com").unwrap(), FetchMode::HttpRequest);

    // the checked lookup remembers too, and a refused input leaves no trace
    let mut detector = DomainDetector::new();
    assert!(detector.get_fetch_mode_safe("bad domain!").is_err());
    assert_eq!(detector.get_fetch_mode_safe("later.org").unwrap(), FetchMode::HttpRequest);
    detector.add_spa_domain("later.org".to_string());
    detector.add_spa_domain("bad domain!".to_string());
    assert_eq!(detector.get_fetch_mode_safe("later.org").unwrap(), FetchMode::HttpRequest);
    assert_eq!(detector.get_fetch_mode("later.org"), FetchMode::HttpRequest);
    assert_eq!(detector.get_fetch_mode("other.org"), FetchMode::HttpRequest);
    detector.add_spa_domain("fresh.org".to_string());
    assert_eq!(detector.get_fetch_mode("fresh.org"), FetchMode::Chrome);
}

//! Error taxonomy of the harvesting pipeline, the text of each error, and
//! the retry policy that goes with it.

use vstd::prelude::*;
use vstd::arithmetic::power2::{lemma2_to64, lemma_pow2_strictly_increases, pow2};

verus! {

/// `std::io::Error`, carried through opaquely.
#[verifier::external_type_specification]
#[verifier::external_body]
pub struct ExIoError(std::io::Error);

/// Calls `ToString::to_string` on a `std::io::Error`, which formats it with
/// its `Display` impl. The text depends on the platform, so nothing is
/// claimed of it.
#[verifier::external_body]
pub(crate) fn io_error_text(e: &std::io::Error) -> (r: String) {
    e.to_string()
}

/// `label` followed by `detail`.
pub(crate) fn labelled(label: &str, detail: &str) -> (r: String)
    ensures
        r@ == label@ + detail@,
{
    let mut r = String::from_str(label);
    r.append(detail);
    r
}

/// Classification failures.
#[derive(Debug)]
pub enum DomainDetectionError {
    /// The input normalizes to nothing, or is not shaped like a domain.
    InvalidDomain(String),
    /// The rule source could not be loaded; the caller falls back to defaults.
    ConfigurationLoadFailed(String),
    ModeSelectionFailed(String),
}

/// Rendering failures.
#[derive(Debug)]
pub enum HtmlConversionError {
    ParseError(String),
    ProcessingError(String),
    /// The input is empty or holds whitespace only.
    EmptyContent,
    /// The counts of `<` and `>` differ.
    InvalidHtml(String),
    TagConversionFailed(String),
}

/// Persistence failures.
#[derive(Debug)]
pub enum FileOperationError {
    DirectoryCreationFailed(std::io::Error),
    /// A write failed; the only persistence failure that is retried.
    FileWriteFailed(std::io::Error),
    FileReadFailed(std::io::Error),
    InvalidPath(String),
    PermissionDenied(String),
    DiskSpaceFull,
}

/// Transport and discovery failures reported by the fetch layer.
#[derive(Debug)]
pub enum SpiderError {
    RequestFailed(String),
    TimeoutError(String),
    InvalidUrl(String),
    RobotsTxtError(String),
    SitemapParsingError(String),
    ChromeModeError(String),
    RateLimitExceeded,
}

/// Configuration failures.
#[derive(Debug)]
pub enum ConfigurationError {
    FileNotFound(String),
    ParseError(String),
    ValidationFailed(String),
    InvalidLogLevel(String),
    MissingRequiredField(String),
}

/// Network failures.
#[derive(Debug)]
pub enum NetworkError {
    ConnectionFailed(String),
    DnsResolutionFailed(String),
    SslError(String),
    ProxyError(String),
    TimeoutError(String),
}

/// Rejected inputs.
#[derive(Debug)]
pub enum ValidationError {
    InvalidUrl(String),
    InvalidDomain(String),
    InvalidConfiguration(String),
    InvalidInput(String),
}

/// Outcomes of sitemap discovery that are not a frontier.
#[derive(Debug, Clone, Copy, PartialEq, Eq, Structural)]
pub enum DiscoveryError {
    /// robots.txt could not be fetched.
    RobotsUnavailable,
    /// A sitemap document could not be fetched.
    SitemapUnavailable,
    /// A sitemap document was partly unreadable; what was read is kept.
    SitemapMalformed,
    /// Neither robots.txt nor the site's own sitemap.xml led to any page.
    NoSitemapFound,
}

/// Any failure of the pipeline, by the stage it belongs to.
#[derive(Debug)]
pub enum CrawlerError {
    DomainDetection(DomainDetectionError),
    HtmlConversion(HtmlConversionError),
    FileOperation(FileOperationError),
    Spider(SpiderError),
    Configuration(ConfigurationError),
    Network(NetworkError),
    Validation(ValidationError),
}

/// Result of a pipeline operation.
pub type CrawlerResult<T> = Result<T, CrawlerError>;

impl DomainDetectionError {
    /// The text of this error.
    pub open spec fn message(self) -> Seq<char> {
        match self {
            DomainDetectionError::InvalidDomain(d) => "Invalid domain format: "@ + d@,
            DomainDetectionError::ConfigurationLoadFailed(m) =>
                "Failed to load domain configuration: "@ + m@,
            DomainDetectionError::ModeSelectionFailed(m) =>
                "Failed to select appropriate fetch mode: "@ + m@,
        }
    }

    /// The text of this error.
    pub fn to_string(&self) -> (r: String)
        ensures
            r@ == self.message(),
    {
        match self {
            DomainDetectionError::InvalidDomain(d) => labelled("Invalid domain format: ", d.as_str()),
            DomainDetectionError::ConfigurationLoadFailed(m) => labelled(
                "Failed to load domain configuration: ",
                m.as_str(),
            ),
            DomainDetectionError::ModeSelectionFailed(m) => labelled(
                "Failed to select appropriate fetch mode: ",
                m.as_str(),
            ),
        }
    }
}

impl HtmlConversionError {
    /// The text of this error.
    pub open spec fn message(self) -> Seq<char> {
        match self {
            HtmlConversionError::ParseError(m) => "HTML parsing failed: "@ + m@,
            HtmlConversionError::ProcessingError(m) => "HTML processing failed: "@ + m@,
            HtmlConversionError::EmptyContent => "HTML content is empty"@,
            HtmlConversionError::InvalidHtml(m) => "Invalid HTML structure: "@ + m@,
            HtmlConversionError::TagConversionFailed(t) => "Failed to convert HTML tag: "@ + t@,
        }
    }

    /// The text of this error.
    pub fn to_string(&self) -> (r: String)
        ensures
            r@ == self.message(),
    {
        match self {
            HtmlConversionError::ParseError(m) => labelled("HTML parsing failed: ", m.as_str()),
            HtmlConversionError::ProcessingError(m) => labelled(
                "HTML processing failed: ",
                m.as_str(),
            ),
            HtmlConversionError::EmptyContent => String::from_str("HTML content is empty"),
            HtmlConversionError::InvalidHtml(m) => labelled("Invalid HTML structure: ", m.as_str()),
            HtmlConversionError::TagConversionFailed(t) => labelled(
                "Failed to convert HTML tag: ",
                t.as_str(),
            ),
        }
    }
}

impl FileOperationError {
    /// Whether this error wraps an I/O error of the platform, whose text is
    /// not known to contracts.
    pub open spec fn wraps_io(self) -> bool {
        self is DirectoryCreationFailed || self is FileWriteFailed || self is FileReadFailed
    }

    /// The text of this error, up to the text of a wrapped I/O error.
    pub open spec fn label(self) -> Seq<char> {
        match self {
            FileOperationError::DirectoryCreationFailed(_) => "Failed to create directory: "@,
            FileOperationError::FileWriteFailed(_) => "Failed to write file: "@,
            FileOperationError::FileReadFailed(_) => "Failed to read file: "@,
            FileOperationError::InvalidPath(p) => "Invalid file path: "@ + p@,
            FileOperationError::PermissionDenied(p) => "Permission denied for path: "@ + p@,
            FileOperationError::DiskSpaceFull => "Insufficient disk space"@,
        }
    }

    /// The text of this error: its label, followed by the platform's text
    /// where it wraps an I/O error.
    pub fn to_string(&self) -> (r: String)
        ensures
            self.label().is_prefix_of(r@),
            !self.wraps_io() ==> r@ == self.label(),
    {
        match self {
            FileOperationError::DirectoryCreationFailed(e) => {
                let t = io_error_text(e);
                labelled("Failed to create directory: ", t.as_str())
            },
            FileOperationError::FileWriteFailed(e) => {
                let t = io_error_text(e);
                labelled("Failed to write file: ", t.as_str())
            },
            FileOperationError::FileReadFailed(e) => {
                let t = io_error_text(e);
                labelled("Failed to read file: ", t.as_str())
            },
            FileOperationError::InvalidPath(p) => labelled("Invalid file path: ", p.as_str()),
            FileOperationError::PermissionDenied(p) => labelled(
                "Permission denied for path: ",
                p.as_str(),
            ),
            FileOperationError::DiskSpaceFull => String::from_str("Insufficient disk space"),
        }
    }
}

impl SpiderError {
    /// The text of this error.
    pub open spec fn message(self) -> Seq<char> {
        match self {
            SpiderError::RequestFailed(u) => "HTTP request failed for: "@ + u@,
            SpiderError::TimeoutError(u) => "Request timeout for: "@ + u@,
            SpiderError::InvalidUrl(u) => "Invalid URL format: "@ + u@,
            SpiderError::RobotsTxtError(m) => "robots.txt error: "@ + m@,
            SpiderError::SitemapParsingError(m) => "Sitemap parsing error: "@ + m@,
            SpiderError::ChromeModeError(m) => "Chrome browser mode error: "@ + m@,
            SpiderError::RateLimitExceeded => "Rate limit exceeded"@,
        }
    }

    /// The text of this error.
    pub fn to_string(&self) -> (r: String)
        ensures
            r@ == self.message(),
    {
        match self {
            SpiderError::RequestFailed(u) => labelled("HTTP request failed for: ", u.as_str()),
            SpiderError::TimeoutError(u) => labelled("Request timeout for: ", u.as_str()),
            SpiderError::InvalidUrl(u) => labelled("Invalid URL format: ", u.as_str()),
            SpiderError::RobotsTxtError(m) => labelled("robots.txt error: ", m.as_str()),
            SpiderError::SitemapParsingError(m) => labelled("Sitemap parsing error: ", m.as_str()),
            SpiderError::ChromeModeError(m) => labelled("Chrome browser mode error: ", m.as_str()),
            SpiderError::RateLimitExceeded => String::from_str("Rate limit exceeded"),
        }
    }
}

impl ConfigurationError {
    /// The text of this error.
    pub open spec fn message(self) -> Seq<char> {
        match self {
            ConfigurationError::FileNotFound(p) => "Configuration file not found: "@ + p@,
            ConfigurationError::ParseError(m) => "Configuration parse error: "@ + m@,
            ConfigurationError::ValidationFailed(m) => "Configuration validation failed: "@ + m@,
            ConfigurationError::InvalidLogLevel(l) => "Invalid log level: "@ + l@,
            ConfigurationError::MissingRequiredField(f) =>
                "Missing required configuration field: "@ + f@,
        }
    }

    /// The text of this error.
    pub fn to_string(&self) -> (r: String)
        ensures
            r@ == self.message(),
    {
        match self {
            ConfigurationError::FileNotFound(p) => labelled(
                "Configuration file not found: ",
                p.as_str(),
            ),
            ConfigurationError::ParseError(m) => labelled("Configuration parse error: ", m.as_str()),
            ConfigurationError::ValidationFailed(m) => labelled(
                "Configuration validation failed: ",
                m.as_str(),
            ),
            ConfigurationError::InvalidLogLevel(l) => labelled("Invalid log level: ", l.as_str()),
            ConfigurationError::MissingRequiredField(f) => labelled(
                "Missing required configuration field: ",
                f.as_str(),
            ),
        }
    }
}

impl NetworkError {
    /// The text of this error.
    pub open spec fn message(self) -> Seq<char> {
        match self {
            NetworkError::ConnectionFailed(u) => "Connection failed to: "@ + u@,
            NetworkError::DnsResolutionFailed(d) => "DNS resolution failed for: "@ + d@,
            NetworkError::SslError(m) => "SSL/TLS error: "@ + m@,
            NetworkError::ProxyError(m) => "Proxy error: "@ + m@,
            NetworkError::TimeoutError(u) => "Network timeout for: "@ + u@,
        }
    }

    /// The text of this error.
    pub fn to_string(&self) -> (r: String)
        ensures
            r@ == self.message(),
    {
        match self {
            NetworkError::ConnectionFailed(u) => labelled("Connection failed to: ", u.as_str()),
            NetworkError::DnsResolutionFailed(d) => labelled(
                "DNS resolution failed for: ",
                d.as_str(),
            ),
            NetworkError::SslError(m) => labelled("SSL/TLS error: ", m.as_str()),
            NetworkError::ProxyError(m) => labelled("Proxy error: ", m.as_str()),
            NetworkError::TimeoutError(u) => labelled("Network timeout for: ", u.as_str()),
        }
    }
}

impl ValidationError {
    /// The text of this error.
    pub open spec fn message(self) -> Seq<char> {
        match self {
            ValidationError::InvalidUrl(u) => "Invalid URL: "@ + u@,
            ValidationError::InvalidDomain(d) => "Invalid domain: "@ + d@,
            ValidationError::InvalidConfiguration(m) => "Invalid configuration: "@ + m@,
            ValidationError::InvalidInput(m) => "Invalid input: "@ + m@,
        }
    }

    /// The text of this error.
    pub fn to_string(&self) -> (r: String)
        ensures
            r@ == self.message(),
    {
        match self {
            ValidationError::InvalidUrl(u) => labelled("Invalid URL: ", u.as_str()),
            ValidationError::InvalidDomain(d) => labelled("Invalid domain: ", d.as_str()),
            ValidationError::InvalidConfiguration(m) => labelled(
                "Invalid configuration: ",
                m.as_str(),
            ),
            ValidationError::InvalidInput(m) => labelled("Invalid input: ", m.as_str()),
        }
    }
}

impl DiscoveryError {
    /// The text of this error.
    pub open spec fn message(self) -> Seq<char> {
        match self {
            DiscoveryError::RobotsUnavailable => "robots.txt is unavailable"@,
            DiscoveryError::SitemapUnavailable => "Sitemap is unavailable"@,
            DiscoveryError::SitemapMalformed => "Sitemap is malformed"@,
            DiscoveryError::NoSitemapFound => "No sitemap found"@,
        }
    }

    /// The text of this error.
    pub fn to_string(&self) -> (r: String)
        ensures
            r@ == self.message(),
    {
        match self {
            DiscoveryError::RobotsUnavailable => String::from_str("robots.txt is unavailable"),
            DiscoveryError::SitemapUnavailable => String::from_str("Sitemap is unavailable"),
            DiscoveryError::SitemapMalformed => String::from_str("Sitemap is malformed"),
            DiscoveryError::NoSitemapFound => String::from_str("No sitemap found"),
        }
    }
}

impl CrawlerError {
    /// The stage prefix of this error's text.
    pub open spec fn stage_label(self) -> Seq<char> {
        match self {
            CrawlerError::DomainDetection(_) => "Domain detection error: "@,
            CrawlerError::HtmlConversion(_) => "HTML conversion error: "@,
            CrawlerError::FileOperation(_) => "File operation error: "@,
            CrawlerError::Spider(_) => "Spider error: "@,
            CrawlerError::Configuration(_) => "Configuration error: "@,
            CrawlerError::Network(_) => "Network error: "@,
            CrawlerError::Validation(_) => "Validation error: "@,
        }
    }

    /// The text of the error inside, up to the text of a wrapped I/O error.
    pub open spec fn detail_label(self) -> Seq<char> {
        match self {
            CrawlerError::DomainDetection(e) => e.message(),
            CrawlerError::HtmlConversion(e) => e.message(),
            CrawlerError::FileOperation(e) => e.label(),
            CrawlerError::Spider(e) => e.message(),
            CrawlerError::Configuration(e) => e.message(),
            CrawlerError::Network(e) => e.message(),
            CrawlerError::Validation(e) => e.message(),
        }
    }

    /// Whether this error wraps an I/O error of the platform.
    pub open spec fn wraps_io(self) -> bool {
        self matches CrawlerError::FileOperation(e) && e.wraps_io()
    }

    /// The text of this error: the stage, then the text of the error inside.
    pub fn to_string(&self) -> (r: String)
        ensures
            (self.stage_label() + self.detail_label()).is_prefix_of(r@),
            !self.wraps_io() ==> r@ == self.stage_label() + self.detail_label(),
    {
        match self {
            CrawlerError::DomainDetection(e) => {
                let t = e.to_string();
                labelled("Domain detection error: ", t.as_str())
            },
            CrawlerError::HtmlConversion(e) => {
                let t = e.to_string();
                labelled("HTML conversion error: ", t.as_str())
            },
            CrawlerError::FileOperation(e) => {
                let t = e.to_string();
                let r = labelled("File operation error: ", t.as_str());
                assert((self.stage_label() + e.label()).is_prefix_of(r@)) by {
                    assert(r@.subrange(0, (self.stage_label() + e.label()).len() as int)
                        =~= self.stage_label() + t@.subrange(0, e.label().len() as int));
                }
                r
            },
            CrawlerError::Spider(e) => {
                let t = e.to_string();
                labelled("Spider error: ", t.as_str())
            },
            CrawlerError::Configuration(e) => {
                let t = e.to_string();
                labelled("Configuration error: ", t.as_str())
            },
            CrawlerError::Network(e) => {
                let t = e.to_string();
                labelled("Network error: ", t.as_str())
            },
            CrawlerError::Validation(e) => {
                let t = e.to_string();
                labelled("Validation error: ", t.as_str())
            },
        }
    }
}

impl From<std::io::Error> for CrawlerError {
    fn from(err: std::io::Error) -> (r: Self) {
        CrawlerError::FileOperation(FileOperationError::FileWriteFailed(err))
    }
}

impl vstd::std_specs::convert::FromSpecImpl<std::io::Error> for CrawlerError {
    open spec fn obeys_from_spec() -> bool {
        true
    }

    open spec fn from_spec(err: std::io::Error) -> Self {
        CrawlerError::FileOperation(FileOperationError::FileWriteFailed(err))
    }
}

impl From<DomainDetectionError> for CrawlerError {
    fn from(err: DomainDetectionError) -> (r: Self) {
        CrawlerError::DomainDetection(err)
    }
}

impl vstd::std_specs::convert::FromSpecImpl<DomainDetectionError> for CrawlerError {
    open spec fn obeys_from_spec() -> bool {
        true
    }

    open spec fn from_spec(err: DomainDetectionError) -> Self {
        CrawlerError::DomainDetection(err)
    }
}

impl From<HtmlConversionError> for CrawlerError {
    fn from(err: HtmlConversionError) -> (r: Self) {
        CrawlerError::HtmlConversion(err)
    }
}

impl vstd::std_specs::convert::FromSpecImpl<HtmlConversionError> for CrawlerError {
    open spec fn obeys_from_spec() -> bool {
        true
    }

    open spec fn from_spec(err: HtmlConversionError) -> Self {
        CrawlerError::HtmlConversion(err)
    }
}

impl From<FileOperationError> for CrawlerError {
    fn from(err: FileOperationError) -> (r: Self) {
        CrawlerError::FileOperation(err)
    }
}

impl vstd::std_specs::convert::FromSpecImpl<FileOperationError> for CrawlerError {
    open spec fn obeys_from_spec() -> bool {
        true
    }

    open spec fn from_spec(err: FileOperationError) -> Self {
        CrawlerError::FileOperation(err)
    }
}

impl From<SpiderError> for CrawlerError {
    fn from(err: SpiderError) -> (r: Self) {
        CrawlerError::Spider(err)
    }
}

impl vstd::std_specs::convert::FromSpecImpl<SpiderError> for CrawlerError {
    open spec fn obeys_from_spec() -> bool {
        true
    }

    open spec fn from_spec(err: SpiderError) -> Self {
        CrawlerError::Spider(err)
    }
}

impl From<ConfigurationError> for CrawlerError {
    fn from(err: ConfigurationError) -> (r: Self) {
        CrawlerError::Configuration(err)
    }
}

impl vstd::std_specs::convert::FromSpecImpl<ConfigurationError> for CrawlerError {
    open spec fn obeys_from_spec() -> bool {
        true
    }

    open spec fn from_spec(err: ConfigurationError) -> Self {
        CrawlerError::Configuration(err)
    }
}

impl From<NetworkError> for CrawlerError {
    fn from(err: NetworkError) -> (r: Self) {
        CrawlerError::Network(err)
    }
}

impl vstd::std_specs::convert::FromSpecImpl<NetworkError> for CrawlerError {
    open spec fn obeys_from_spec() -> bool {
        true
    }

    open spec fn from_spec(err: NetworkError) -> Self {
        CrawlerError::Network(err)
    }
}

impl From<ValidationError> for CrawlerError {
    fn from(err: ValidationError) -> (r: Self) {
        CrawlerError::Validation(err)
    }
}

impl vstd::std_specs::convert::FromSpecImpl<ValidationError> for CrawlerError {
    open spec fn obeys_from_spec() -> bool {
        true
    }

    open spec fn from_spec(err: ValidationError) -> Self {
        CrawlerError::Validation(err)
    }
}

/// What to do about an error: whether to retry, how often, after what
/// delay, and what to fall back to.
pub struct ErrorRecovery;

impl ErrorRecovery {
    /// Transient errors: timeouts, failed connections and requests, failed
    /// writes, and parse errors of a page.
    pub open spec fn recoverable(error: CrawlerError) -> bool {
        match error {
            CrawlerError::Network(NetworkError::TimeoutError(_)) => true,
            CrawlerError::Network(NetworkError::ConnectionFailed(_)) => true,
            CrawlerError::Spider(SpiderError::RequestFailed(_)) => true,
            CrawlerError::Spider(SpiderError::TimeoutError(_)) => true,
            CrawlerError::FileOperation(FileOperationError::FileWriteFailed(_)) => true,
            CrawlerError::HtmlConversion(HtmlConversionError::ParseError(_)) => true,
            _ => false,
        }
    }

    /// How many times an operation that failed with `error` is tried again.
    pub open spec fn retry_count(error: CrawlerError) -> nat {
        match error {
            CrawlerError::Network(_) => 3,
            CrawlerError::Spider(SpiderError::RequestFailed(_)) => 2,
            CrawlerError::Spider(SpiderError::TimeoutError(_)) => 2,
            CrawlerError::FileOperation(_) => 1,
            _ => 0,
        }
    }

    /// The delay in milliseconds on which the backoff for `error` is based.
    pub open spec fn base_delay(error: CrawlerError) -> nat {
        match error {
            CrawlerError::Network(_) => 1000,
            CrawlerError::Spider(_) => 500,
            CrawlerError::FileOperation(_) => 100,
            _ => 0,
        }
    }

    /// The delay in milliseconds before retry number `attempt` (from 0):
    /// the base delay doubled `attempt` times.
    pub open spec fn retry_delay(error: CrawlerError, attempt: nat) -> nat {
        Self::base_delay(error) * pow2(attempt)
    }

    /// The fallback suggested for an error that is not retried.
    pub open spec fn fallback(error: CrawlerError) -> Option<Seq<char>> {
        match error {
            CrawlerError::HtmlConversion(_) => Some(
                "Save raw HTML content instead of converted Markdown"@,
            ),
            CrawlerError::Spider(SpiderError::ChromeModeError(_)) => Some(
                "Fallback to HTTP request mode"@,
            ),
            CrawlerError::Configuration(_) => Some("Use default configuration values"@),
            CrawlerError::FileOperation(FileOperationError::PermissionDenied(_)) => Some(
                "Try alternative output directory"@,
            ),
            _ => None,
        }
    }

    /// Whether `error` is transient, so that the operation may be tried again.
    pub fn is_recoverable(error: &CrawlerError) -> (r: bool)
        ensures
            r == Self::recoverable(*error),
    {
        match error {
            CrawlerError::Network(NetworkError::TimeoutError(_)) => true,
            CrawlerError::Network(NetworkError::ConnectionFailed(_)) => true,
            CrawlerError::Spider(SpiderError::RequestFailed(_)) => true,
            CrawlerError::Spider(SpiderError::TimeoutError(_)) => true,
            CrawlerError::FileOperation(FileOperationError::FileWriteFailed(_)) => true,
            CrawlerError::HtmlConversion(HtmlConversionError::ParseError(_)) => true,
            _ => false,
        }
    }

    /// How many times an operation that failed with `error` is tried again.
    pub fn get_retry_count(error: &CrawlerError) -> (r: usize)
        ensures
            r == Self::retry_count(*error),
    {
        match error {
            CrawlerError::Network(_) => 3,
            CrawlerError::Spider(SpiderError::RequestFailed(_)) => 2,
            CrawlerError::Spider(SpiderError::TimeoutError(_)) => 2,
            CrawlerError::FileOperation(_) => 1,
            _ => 0,
        }
    }

    /// Up to retry number 54 the delay of every error fits in 64 bits.
    pub proof fn lemma_retry_delay_fits(error: CrawlerError, attempt: nat)
        requires
            attempt <= 54,
        ensures
            Self::retry_delay(error, attempt) <= u64::MAX,
    {
        lemma2_to64();
        vstd::arithmetic::power2::lemma2_to64_rest();
        if attempt < 54 {
            lemma_pow2_strictly_increases(attempt, 54);
        }
        let base = Self::base_delay(error);
        assert(base * pow2(attempt) <= 1000 * pow2(54)) by (nonlinear_arith)
            requires
                base <= 1000,
                pow2(attempt) <= pow2(54),
        ;
    }

    /// The delay in milliseconds before retry number `attempt` (from 0).
    /// The delay must fit in 64 bits, as it does up to retry number 54.
    pub fn get_retry_delay(error: &CrawlerError, attempt: usize) -> (r: u64)
        requires
            attempt <= 54 || Self::retry_delay(*error, attempt as nat) <= u64::MAX,
        ensures
            r == Self::retry_delay(*error, attempt as nat),
    {
        proof {
            if attempt <= 54 {
                Self::lemma_retry_delay_fits(*error, attempt as nat);
            }
        }
        let base: u64 = match error {
            CrawlerError::Network(_) => 1000,
            CrawlerError::Spider(_) => 500,
            CrawlerError::FileOperation(_) => 100,
            _ => 0,
        };
        if base == 0 {
            assert(Self::retry_delay(*error, attempt as nat) == 0) by (nonlinear_arith)
                requires
                    Self::retry_delay(*error, attempt as nat) == 0 * pow2(attempt as nat),
            ;
            return 0;
        }
        let mut r: u64 = base;
        let mut i: usize = 0;
        proof {
            lemma2_to64();
            assert(base * pow2(0) == base);
        }
        while i < attempt
            invariant
                i <= attempt,
                base > 0,
                r == base * pow2(i as nat),
                base * pow2(attempt as nat) <= u64::MAX,
            decreases attempt - i,
        {
            proof {
                vstd::arithmetic::power2::lemma_pow2_unfold((i + 1) as nat);
                if i + 1 < attempt {
                    lemma_pow2_strictly_increases((i + 1) as nat, attempt as nat);
                }
                assert(base * pow2((i + 1) as nat) <= base * pow2(attempt as nat))
                    by (nonlinear_arith)
                    requires
                        pow2((i + 1) as nat) <= pow2(attempt as nat),
                        base > 0,
                ;
                assert(base * pow2((i + 1) as nat) == 2 * (base * pow2(i as nat)))
                    by (nonlinear_arith)
                    requires
                        pow2((i + 1) as nat) == 2 * pow2(i as nat),
                ;
            }
            r = r * 2;
            i += 1;
        }
        r
    }

    /// The delay in milliseconds before retry number `attempt` (from 0), or
    /// `None` where it is more than 64 bits hold.
    pub fn retry_delay_if_representable(error: &CrawlerError, attempt: usize) -> (r: Option<u64>)
        ensures
            r == if Self::retry_delay(*error, attempt as nat) <= u64::MAX {
                Some(Self::retry_delay(*error, attempt as nat) as u64)
            } else {
                None
            },
    {
        let base: u64 = match error {
            CrawlerError::Network(_) => 1000,
            CrawlerError::Spider(_) => 500,
            CrawlerError::FileOperation(_) => 100,
            _ => 0,
        };
        if base == 0 {
            assert(Self::retry_delay(*error, attempt as nat) == 0) by (nonlinear_arith)
                requires
                    Self::retry_delay(*error, attempt as nat) == 0 * pow2(attempt as nat),
            ;
            return Some(0);
        }
        let mut r: u64 = base;
        let mut i: usize = 0;
        proof {
            lemma2_to64();
            assert(base * pow2(0) == base);
        }
        while i < attempt
            invariant
                i <= attempt,
                base > 0,
                base == Self::base_delay(*error),
                r == base * pow2(i as nat),
            decreases attempt - i,
        {
            proof {
                vstd::arithmetic::power2::lemma_pow2_unfold((i + 1) as nat);
                assert(base * pow2((i + 1) as nat) == 2 * (base * pow2(i as nat)))
                    by (nonlinear_arith)
                    requires
                        pow2((i + 1) as nat) == 2 * pow2(i as nat),
                ;
            }
            if r > u64::MAX / 2 {
                proof {
                    if i + 1 < attempt {
                        lemma_pow2_strictly_increases((i + 1) as nat, attempt as nat);
                    }
                    assert(base * pow2((i + 1) as nat) <= base * pow2(attempt as nat))
                        by (nonlinear_arith)
                        requires
                            pow2((i + 1) as nat) <= pow2(attempt as nat),
                            base > 0,
                    ;
                }
                return None;
            }
            r = r * 2;
            i += 1;
        }
        Some(r)
    }

    /// The fallback suggested for an error that is not retried.
    pub fn suggest_fallback(error: &CrawlerError) -> (r: Option<String>)
        ensures
            r is Some == Self::fallback(*error) is Some,
            r matches Some(s) ==> Some(s@) == Self::fallback(*error),
    {
        match error {
            CrawlerError::HtmlConversion(_) => Some(
                String::from_str("Save raw HTML content instead of converted Markdown"),
            ),
            CrawlerError::Spider(SpiderError::ChromeModeError(_)) => Some(
                String::from_str("Fallback to HTTP request mode"),
            ),
            CrawlerError::Configuration(_) => Some(
                String::from_str("Use default configuration values"),
            ),
            CrawlerError::FileOperation(FileOperationError::PermissionDenied(_)) => Some(
                String::from_str("Try alternative output directory"),
            ),
            _ => None,
        }
    }
}

} // verus!

//! Settings of a run, their defaults and their validation. Reading and
//! writing configuration files is left to the caller.

use vstd::prelude::*;
use crate::text::{is_str, to_chars};

verus! {

/// `std::path::PathBuf`, carried through opaquely.
#[verifier::external_type_specification]
#[verifier::external_body]
pub struct ExPathBuf(std::path::PathBuf);

/// The path that `PathBuf::from` makes of the text `text`.
pub uninterp spec fn path_of(text: Seq<char>) -> std::path::PathBuf;

/// Calls `PathBuf::from` on a string slice, which copies the text into a
/// new path. The path is a function of the text alone; contracts know it
/// only under the name `path_of`.
#[verifier::external_body]
pub(crate) fn path_from(text: &str) -> (r: std::path::PathBuf)
    ensures
        r == path_of(text@),
{
    std::path::PathBuf::from(text)
}

/// What an application configuration file may set. A field that is not
/// set falls back to the default that its accessor names.
#[derive(Debug)]
pub struct AppConfig {
    pub user_agent: Option<String>,
    pub delay_ms: Option<u64>,
    pub whitelist_path: Option<String>,
    pub chrome_executable: Option<String>,
    pub native_download_mode: Option<String>,
    /// Overrides classification where set: `Chrome` or `HttpRequest`.
    pub fetch_mode: Option<String>,
    pub depth: Option<usize>,
    pub max_pages: Option<usize>,
    /// How deep nested sitemap indices are followed.
    pub sitemap_max_depth: Option<usize>,
    /// How many URLs are taken from sitemaps.
    pub max_sitemap_urls: Option<usize>,
}

impl Default for AppConfig {
    fn default() -> (r: Self)
        ensures
            r.user_agent matches Some(u) && u@ == "MyRustCrawler/1.0"@,
            r.delay_ms == Some(250u64),
            r.whitelist_path matches Some(p) && p@ == "src/config/whitelist.yaml"@,
            r.chrome_executable is None,
            r.native_download_mode matches Some(m) && m@ == "HttpRequest"@,
            r.fetch_mode is None,
            r.depth == Some(3usize),
            r.max_pages == Some(200usize),
            r.sitemap_max_depth == Some(5usize),
            r.max_sitemap_urls == Some(100usize),
    {
        AppConfig {
            user_agent: Some(String::from_str("MyRustCrawler/1.0")),
            delay_ms: Some(250),
            whitelist_path: Some(String::from_str("src/config/whitelist.yaml")),
            chrome_executable: None,
            native_download_mode: Some(String::from_str("HttpRequest")),
            fetch_mode: None,
            depth: Some(3),
            max_pages: Some(200),
            sitemap_max_depth: Some(5),
            max_sitemap_urls: Some(100),
        }
    }
}

impl AppConfig {
    /// The user agent to fetch with: the one set, or `MyRustCrawler/1.0`.
    pub fn effective_user_agent(&self) -> (r: String)
        ensures
            r@ == match self.user_agent {
                Some(u) => u@,
                None => "MyRustCrawler/1.0"@,
            },
    {
        match &self.user_agent {
            Some(u) => u.clone(),
            None => String::from_str("MyRustCrawler/1.0"),
        }
    }

    /// The delay between requests in milliseconds: the one set, or 250.
    pub fn effective_delay_ms(&self) -> (r: u64)
        ensures
            r == match self.delay_ms {
                Some(d) => d,
                None => 250u64,
            },
    {
        match self.delay_ms {
            Some(d) => d,
            None => 250,
        }
    }

    /// Where the whitelist is read from: the path set, or `src/config/whitelist.yaml`.
    pub fn effective_whitelist_path(&self) -> (r: String)
        ensures
            r@ == match self.whitelist_path {
                Some(p) => p@,
                None => "src/config/whitelist.yaml"@,
            },
    {
        match &self.whitelist_path {
            Some(p) => p.clone(),
            None => String::from_str("src/config/whitelist.yaml"),
        }
    }

    /// How deep nested sitemap indices are followed: the depth set, or 5.
    pub fn effective_sitemap_depth(&self) -> (r: usize)
        ensures
            r == match self.sitemap_max_depth {
                Some(d) => d,
                None => 5usize,
            },
    {
        match self.sitemap_max_depth {
            Some(d) => d,
            None => 5,
        }
    }

    /// How many URLs are taken from sitemaps: the number set, or 100.
    pub fn effective_max_sitemap_urls(&self) -> (r: usize)
        ensures
            r == match self.max_sitemap_urls {
                Some(n) => n,
                None => 100usize,
            },
    {
        match self.max_sitemap_urls {
            Some(n) => n,
            None => 100,
        }
    }
}

/// How the native crawler behaves.
#[derive(Debug)]
pub struct SpiderConfig {
    /// Maximum crawl depth.
    pub depth: u32,
    /// Delay between requests in milliseconds.
    pub delay_ms: u64,
    /// User agent string for requests.
    pub user_agent: String,
    /// Request timeout in seconds.
    pub timeout_seconds: u64,
    /// Maximum number of concurrent requests.
    pub max_concurrent_requests: usize,
    /// Whether to respect robots.txt.
    pub respect_robots_txt: bool,
}

/// How the run is logged.
#[derive(Debug)]
pub struct LoggingConfig {
    /// One of `trace`, `debug`, `info`, `warn`, `error`.
    pub level: String,
    /// Whether to log to a file.
    pub enable_file_logging: bool,
    /// Where the log file is, if there is one.
    pub log_file: String,
}

/// The configuration of a run.
#[derive(Debug)]
pub struct CrawlerConfig {
    /// Domains that are fetched by browser.
    pub spa_domains: Vec<String>,
    /// Domains that are fetched by plain request.
    pub ssr_domains: Vec<String>,
    /// Where files are saved.
    pub output_directory: String,
    pub spider_config: SpiderConfig,
    pub logging: LoggingConfig,
}

impl Default for SpiderConfig {
    fn default() -> (r: Self)
        ensures
            r.depth == 3,
            r.delay_ms == 200,
            r.user_agent@ == "RustWebCrawler/1.0"@,
            r.timeout_seconds == 30,
            r.max_concurrent_requests == 10,
            r.respect_robots_txt,
    {
        SpiderConfig {
            depth: 3,
            delay_ms: 200,
            user_agent: String::from_str("RustWebCrawler/1.0"),
            timeout_seconds: 30,
            max_concurrent_requests: 10,
            respect_robots_txt: true,
        }
    }
}

impl Default for LoggingConfig {
    fn default() -> (r: Self)
        ensures
            r.level@ == "info"@,
            !r.enable_file_logging,
            r.log_file@ == "crawler.log"@,
    {
        LoggingConfig {
            level: String::from_str("info"),
            enable_file_logging: false,
            log_file: String::from_str("crawler.log"),
        }
    }
}

impl Default for CrawlerConfig {
    fn default() -> (r: Self)
        ensures
            r.spa_domains@.len() == 2,
            r.spa_domains@[0]@ == "www.heygoody.com"@,
            r.spa_domains@[1]@ == "app.example.com"@,
            r.ssr_domains@.len() == 3,
            r.ssr_domains@[0]@ == "www.rust-lang.org"@,
            r.ssr_domains@[1]@ == "docs.rs"@,
            r.ssr_domains@[2]@ == "github.com"@,
            r.output_directory@ == "output"@,
            r.spider_config.depth == 3,
            r.spider_config.delay_ms == 200,
            r.spider_config.user_agent@ == "RustWebCrawler/1.0"@,
            r.spider_config.timeout_seconds == 30,
            r.spider_config.max_concurrent_requests == 10,
            r.spider_config.respect_robots_txt,
            r.logging.level@ == "info"@,
            !r.logging.enable_file_logging,
            r.logging.log_file@ == "crawler.log"@,
    {
        let mut spa: Vec<String> = Vec::new();
        spa.push(String::from_str("www.heygoody.com"));
        spa.push(String::from_str("app.example.com"));
        let mut ssr: Vec<String> = Vec::new();
        ssr.push(String::from_str("www.rust-lang.org"));
        ssr.push(String::from_str("docs.rs"));
        ssr.push(String::from_str("github.com"));
        CrawlerConfig {
            spa_domains: spa,
            ssr_domains: ssr,
            output_directory: String::from_str("output"),
            spider_config: SpiderConfig::default(),
            logging: LoggingConfig::default(),
        }
    }
}

/// Whether `level` names a log level.
pub open spec fn is_log_level(level: Seq<char>) -> bool {
    level == "trace"@ || level == "debug"@ || level == "info"@ || level == "warn"@ || level
        == "error"@
}

impl CrawlerConfig {
    /// What is wrong with this configuration, if anything: the first of
    /// the checks that fails, in the order in which they are made.
    pub open spec fn fault(self) -> Option<Seq<char>> {
        if self.output_directory@.len() == 0 {
            Some("Output directory cannot be empty"@)
        } else if self.spider_config.depth == 0 {
            Some("Spider depth must be greater than 0"@)
        } else if self.spider_config.delay_ms > 10000 {
            Some("Delay between requests should not exceed 10 seconds"@)
        } else if self.spider_config.timeout_seconds == 0 {
            Some("Timeout must be greater than 0 seconds"@)
        } else if self.spider_config.max_concurrent_requests == 0 {
            Some("Max concurrent requests must be greater than 0"@)
        } else if self.spider_config.user_agent@.len() == 0 {
            Some("User agent cannot be empty"@)
        } else if !is_log_level(self.logging.level@) {
            Some(
                "Invalid log level '"@ + self.logging.level@
                    + "'. Must be one of: [\"trace\", \"debug\", \"info\", \"warn\", \"error\"]"@,
            )
        } else if self.logging.enable_file_logging && self.logging.log_file@.len() == 0 {
            Some("Log file path cannot be empty when file logging is enabled"@)
        } else {
            None
        }
    }

    /// Checks the configuration and says what is wrong with it, if anything.
    pub fn validate(&self) -> (r: Result<(), String>)
        ensures
            match r {
                Ok(_) => self.fault() is None,
                Err(text) => self.fault() == Some(text@),
            },
    {
        if self.output_directory.as_str().unicode_len() == 0 {
            return Err(String::from_str("Output directory cannot be empty"));
        }
        if self.spider_config.depth == 0 {
            return Err(String::from_str("Spider depth must be greater than 0"));
        }
        if self.spider_config.delay_ms > 10000 {
            return Err(String::from_str("Delay between requests should not exceed 10 seconds"));
        }
        if self.spider_config.timeout_seconds == 0 {
            return Err(String::from_str("Timeout must be greater than 0 seconds"));
        }
        if self.spider_config.max_concurrent_requests == 0 {
            return Err(String::from_str("Max concurrent requests must be greater than 0"));
        }
        if self.spider_config.user_agent.as_str().unicode_len() == 0 {
            return Err(String::from_str("User agent cannot be empty"));
        }
        let level = to_chars(self.logging.level.as_str());
        let known = is_str(&level, "trace") || is_str(&level, "debug") || is_str(&level, "info")
            || is_str(&level, "warn") || is_str(&level, "error");
        if !known {
            let mut text = String::from_str("Invalid log level '");
            text.append(self.logging.level.as_str());
            text.append("'. Must be one of: [\"trace\", \"debug\", \"info\", \"warn\", \"error\"]");
            return Err(text);
        }
        if self.logging.enable_file_logging && self.logging.log_file.as_str().unicode_len() == 0 {
            return Err(
                String::from_str("Log file path cannot be empty when file logging is enabled"),
            );
        }
        Ok(())
    }

    /// The output directory as a path: the path made of its text.
    pub fn get_output_path(&self) -> (r: std::path::PathBuf)
        ensures
            r == path_of(self.output_directory@),
    {
        path_from(self.output_directory.as_str())
    }

    /// The configuration to run with: the one that was loaded, or the
    /// default where none could be loaded.
    pub fn load_or_default(loaded: Option<CrawlerConfig>) -> (r: Self)
        ensures
            loaded matches Some(c) ==> r == c,
            loaded is None ==> r.fault() is None && r.output_directory@ == "output"@,
    {
        match loaded {
            Some(c) => c,
            None => {
                let d = CrawlerConfig::default();
                proof {
                    reveal_strlit("output");
                    reveal_strlit("RustWebCrawler/1.0");
                    reveal_strlit("info");
                    reveal_strlit("trace");
                    reveal_strlit("debug");
                    reveal_strlit("warn");
                    reveal_strlit("error");
                }
                d
            },
        }
    }
}

} // verus!

use site_harvest::crawler::{
    Pipeline, PipelineAction, PipelineEvent, PipelinePhase, RunFault, RunStatistics,
};
use site_harvest::domain_detector::{DomainDetector, FetchMode, MatchKind, WhitelistRule};
use site_harvest::file_manager::FileManager;
use site_harvest::page_job::{
    FetchFailure, JobAction, JobEvent, JobStage, PageJob, SaveFailure,
};
use std::collections::HashMap;

struct World {
    documents: HashMap<String, String>,
    pages: HashMap<String, Vec<Result<String, FetchFailure>>>,
    save_failures: Vec<SaveFailure>,
    saved: Vec<(String, String)>,
    waits: Vec<u64>,
    fetched: Vec<(String, FetchMode)>,
    crawl: Option<RunStatistics>,
    crawled: Vec<String>,
}

impl World {
    fn new() -> Self {
        World {
            documents: HashMap::new(),
            pages: HashMap::new(),
            save_failures: Vec::new(),
            saved: Vec::new(),
            waits: Vec::new(),
            fetched: Vec::new(),
            crawl: None,
            crawled: Vec::new(),
        }
    }

    fn run(&mut self, pipeline: &mut Pipeline) -> Result<RunStatistics, RunFault> {
        let mut action = pipeline.step(PipelineEvent::Start);
        for _ in 0..10_000 {
            let event = match action {
                PipelineAction::FetchDocument(url) => {
                    PipelineEvent::Document(self.documents.get(&url).cloned())
                }
                PipelineAction::FetchPage { url, mode } => {
                    self.fetched.push((url.clone(), mode));
                    let answers = self.pages.entry(url).or_default();
                    let answer =
                        if answers.is_empty() { Err(FetchFailure::NotFound) } else { answers.remove(0) };
                    PipelineEvent::Page(answer)
                }
                PipelineAction::Wait { millis } => {
                    self.waits.push(millis);
                    PipelineEvent::Waited
                }
                PipelineAction::Save { name, content } => {
                    if self.save_failures.is_empty() {
                        self.saved.push((name.clone(), content));
                        PipelineEvent::Saved(Ok(format!("out/{}", name)))
                    } else {
                        PipelineEvent::Saved(Err(self.save_failures.remove(0)))
                    }
                }
                PipelineAction::RunNativeCrawler(domain) => {
                    self.crawled.push(domain);
                    PipelineEvent::CrawlFinished(self.crawl)
                }
                PipelineAction::Finish(result) => {
                    assert_eq!(pipeline.phase(), PipelinePhase::Finished);
                    return result;
                }
            };
            action = pipeline.step(event);
        }
        panic!("the run did not end");
    }
}

fn sitemap_of(urls: &[&str]) -> String {
    let mut body = String::from("<urlset>");
    for u in urls {
        body.push_str(&format!("<url><loc>{}</loc></url>", u));
    }
    body.push_str("</urlset>");
    body
}

fn stats(total_urls: usize, succeeded: usize, failed: usize, files_saved: usize) -> RunStatistics {
    RunStatistics { total_urls, succeeded, failed, files_saved }
}

#[test]
fn end_to_end_two_pages() {
    let detector = DomainDetector::with_rules(
        vec![WhitelistRule {
            pattern: "docs.example.com".to_string(),
            strategy: FetchMode::HttpRequest,
            match_kind: MatchKind::Exact,
        }],
        FetchMode::Chrome,
    );
    let files = FileManager::new("out").unwrap();
    let mut pipeline = Pipeline::new("docs.example.com", detector, files, 5, 100);
    let mut world = World::new();
    world.documents.insert(
        "https://docs.example.com/sitemap.xml".to_string(),
        sitemap_of(&["https://docs.example.com/guide/start", "https://docs.example.com/guide/next"]),
    );
    let html = "<html><body><h1>Guide</h1><p>Read <em>this</em>.</p></body></html>".to_string();
    world.pages.insert("https://docs.example.com/guide/start".to_string(), vec![Ok(html.clone())]);
    world.pages.insert("https://docs.example.com/guide/next".to_string(), vec![Ok(html)]);

    let result = world.run(&mut pipeline);
    assert_eq!(result, Ok(stats(2, 2, 0, 2)));
    assert_eq!(pipeline.statistics(), stats(2, 2, 0, 2));
    assert_eq!(
        world.fetched,
        vec![
            ("https://docs.example.com/guide/start".to_string(), FetchMode::HttpRequest),
            ("https://docs.example.com/guide/next".to_string(), FetchMode::HttpRequest),
        ]
    );
    assert_eq!(
        world.saved,
        vec![
            ("guide_start.md".to_string(), "# Guide\n\nRead *this* .\n".to_string()),
            ("guide_next.md".to_string(), "# Guide\n\nRead *this* .\n".to_string()),
        ]
    );
    assert_eq!(pipeline.result_count(), 2);
    let first = pipeline.result_at(0);
    assert_eq!(first.url, "https://docs.example.com/guide/start");
    assert!(first.success);
    assert_eq!(first.output_path.as_deref(), Some("out/guide_start.md"));
    assert_eq!(first.error, None);
    assert!(world.waits.is_empty());
}

#[test]
fn unlisted_domain_is_fetched_by_default_mode() {
    let detector = DomainDetector::with_rules(vec![], FetchMode::Chrome);
    let mut pipeline =
        Pipeline::new("https://app.example.com/", detector, FileManager::new("out").unwrap(), 5, 100);
    let mut world = World::new();
    world.documents.insert(
        "https://app.example.com/robots.txt".to_string(),
        "Sitemap: https://app.example.com/pages.xml".to_string(),
    );
    world
        .documents
        .insert("https://app.example.com/pages.xml".to_string(), sitemap_of(&["https://app.example.com/"]));
    world.pages.insert("https://app.example.com/".to_string(), vec![Ok("<p>Hi</p>".to_string())]);
    assert_eq!(world.run(&mut pipeline), Ok(stats(1, 1, 0, 1)));
    assert_eq!(world.fetched, vec![("https://app.example.com/".to_string(), FetchMode::Chrome)]);
    assert_eq!(world.saved, vec![("app.example.com_index.md".to_string(), "Hi\n".to_string())]);
}

#[test]
fn failures_are_counted_and_do_not_stop_the_run() {
    let mut pipeline = Pipeline::new(
        "https://example.com",
        DomainDetector::new(),
        FileManager::new("out").unwrap(),
        5,
        100,
    );
    let mut world = World::new();
    world.documents.insert(
        "https://example.com/sitemap.xml".to_string(),
        sitemap_of(&[
            "https://example.com/gone",
            "https://example.com/slow",
            "https://example.com/flaky",
            "https://example.com/broken",
            "https://example.com/fine",
        ]),
    );
    world.pages.insert("https://example.com/gone".to_string(), vec![Err(FetchFailure::NotFound)]);
    world.pages.insert(
        "https://example.com/slow".to_string(),
        vec![Err(FetchFailure::Timeout), Err(FetchFailure::Timeout), Err(FetchFailure::Timeout)],
    );
    world.pages.insert(
        "https://example.com/flaky".to_string(),
        vec![Err(FetchFailure::ConnectionFailed), Ok("<p>Made it</p>".to_string())],
    );
    world.pages.insert("https://example.com/broken".to_string(), vec![Ok("<p>a < b</p>".to_string())]);
    world.pages.insert("https://example.com/fine".to_string(), vec![Ok("<p>Fine</p>".to_string())]);

    assert_eq!(world.run(&mut pipeline), Ok(stats(5, 3, 2, 3)));
    // two waits for the three tries of the slow page, one for the flaky one
    assert_eq!(world.waits, vec![1000, 2000, 1000]);
    let fetches = |u: &str| world.fetched.iter().filter(|(f, _)| f == u).count();
    assert_eq!(fetches("https://example.com/gone"), 1);
    assert_eq!(fetches("https://example.com/slow"), 3);
    assert_eq!(fetches("https://example.com/flaky"), 2);
    assert_eq!(
        world.saved,
        vec![
            ("flaky.md".to_string(), "Made it\n".to_string()),
            ("broken.html".to_string(), "<p>a < b</p>".to_string()),
            ("fine.md".to_string(), "Fine\n".to_string()),
        ]
    );
    let gone = pipeline.result_at(0);
    assert!(!gone.success);
    assert_eq!(gone.output_path, None);
    assert_eq!(
        gone.error.as_deref(),
        Some("Spider error: HTTP request failed for: https://example.com/gone")
    );
    let slow = pipeline.result_at(1);
    assert_eq!(
        slow.error.as_deref(),
        Some("Network error: Network timeout for: https://example.com/slow")
    );
    let broken = pipeline.result_at(3);
    assert!(broken.success);
    assert_eq!(broken.output_path.as_deref(), Some("out/broken.html"));
    assert_eq!(
        broken.error.as_deref(),
        Some("HTML conversion error: Invalid HTML structure: Malformed HTML structure")
    );
}

#[test]
fn no_sitemap_hands_over_to_the_native_crawler() {
    let mut pipeline = Pipeline::new(
        "https://example.com",
        DomainDetector::new(),
        FileManager::new("out").unwrap(),
        5,
        100,
    );
    let mut world = World::new();
    world.crawl = Some(stats(7, 6, 1, 6));
    assert_eq!(world.run(&mut pipeline), Ok(stats(7, 6, 1, 6)));
    assert_eq!(world.crawled, vec!["https://example.com".to_string()]);

    let mut pipeline = Pipeline::new(
        "https://example.com",
        DomainDetector::new(),
        FileManager::new("out").unwrap(),
        5,
        100,
    );
    let mut world = World::new();
    assert_eq!(world.run(&mut pipeline), Err(RunFault::CrawlFailed));
}

#[test]
fn domains_that_cannot_be_classified_end_the_run() {
    let mut pipeline =
        Pipeline::new("", DomainDetector::new(), FileManager::new("out").unwrap(), 5, 100);
    match pipeline.step(PipelineEvent::Start) {
        PipelineAction::Finish(r) => assert_eq!(r, Err(RunFault::InvalidDomain)),
        other => panic!("unexpected {:?}", other),
    }
    let mut pipeline = Pipeline::new(
        "exa mple.com",
        DomainDetector::new(),
        FileManager::new("out").unwrap(),
        5,
        100,
    );
    match pipeline.step(PipelineEvent::Start) {
        PipelineAction::Finish(r) => assert_eq!(r, Err(RunFault::InvalidUrl)),
        other => panic!("unexpected {:?}", other),
    }
}

#[test]
fn cancelling_stops_before_the_next_url() {
    let mut pipeline = Pipeline::new(
        "https://example.com",
        DomainDetector::new(),
        FileManager::new("out").unwrap(),
        5,
        100,
    );
    let urls = ["https://example.com/1", "https://example.com/2", "https://example.com/3"];
    let mut action = pipeline.step(PipelineEvent::Start);
    assert!(matches!(action, PipelineAction::FetchDocument(_)));
    action = pipeline.step(PipelineEvent::Document(None));
    assert!(matches!(action, PipelineAction::FetchDocument(_)));
    action = pipeline.step(PipelineEvent::Document(Some(sitemap_of(&urls))));
    assert!(matches!(action, PipelineAction::FetchPage { .. }));
    action = pipeline.step(PipelineEvent::Cancel);
    // the URL under way is finished
    assert!(matches!(action, PipelineAction::FetchPage { .. }));
    action = pipeline.step(PipelineEvent::Page(Ok("<p>One</p>".to_string())));
    match action {
        PipelineAction::Save { ref name, ref content } => {
            assert_eq!(name, "1.md");
            assert_eq!(content, "One\n");
        }
        ref other => panic!("unexpected {:?}", other),
    }
    action = pipeline.step(PipelineEvent::Saved(Ok("out/1.md".to_string())));
    match action {
        PipelineAction::Finish(r) => assert_eq!(r, Ok(stats(1, 1, 0, 1))),
        other => panic!("unexpected {:?}", other),
    }
}

#[test]
fn same_name_twice_gets_a_number() {
    let mut pipeline = Pipeline::new(
        "https://example.com",
        DomainDetector::new(),
        FileManager::new("out").unwrap(),
        5,
        100,
    );
    let mut world = World::new();
    world.documents.insert(
        "https://example.com/sitemap.xml".to_string(),
        sitemap_of(&["https://example.com/test", "https://example.com/test/", "https://example.com//test"]),
    );
    for u in ["https://example.com/test", "https://example.com/test/", "https://example.com//test"] {
        world.pages.insert(u.to_string(), vec![Ok("<p>x</p>".to_string())]);
    }
    assert_eq!(world.run(&mut pipeline), Ok(stats(3, 3, 0, 3)));
    let names: Vec<&str> = world.saved.iter().map(|(n, _)| n.as_str()).collect();
    assert_eq!(names, vec!["test.md", "test_1.md", "test_2.md"]);
}

#[test]
fn job_retries_a_failed_write_with_backoff() {
    let mut files = FileManager::new("out").unwrap();
    let mut job = PageJob::new("https://example.com/a".to_string(), FetchMode::HttpRequest);
    assert_eq!(job.stage(), JobStage::Pending);
    assert!(matches!(job.step(&mut files, JobEvent::Start), JobAction::Fetch { .. }));
    match job.step(&mut files, JobEvent::Fetched(Ok("<p>A</p>".to_string()))) {
        JobAction::Save { name, content } => {
            assert_eq!(name, "a.md");
            assert_eq!(content, "A\n");
        }
        other => panic!("unexpected {:?}", other),
    }
    match job.step(&mut files, JobEvent::Saved(Err(SaveFailure::WriteFailed))) {
        JobAction::Wait { millis } => assert_eq!(millis, 100),
        other => panic!("unexpected {:?}", other),
    }
    assert_eq!(job.stage(), JobStage::SaveBackoff);
    assert!(matches!(job.step(&mut files, JobEvent::Waited), JobAction::Save { .. }));
    match job.step(&mut files, JobEvent::Saved(Err(SaveFailure::WriteFailed))) {
        JobAction::Wait { millis } => assert_eq!(millis, 200),
        other => panic!("unexpected {:?}", other),
    }
    assert!(matches!(job.step(&mut files, JobEvent::Waited), JobAction::Save { .. }));
    match job.step(&mut files, JobEvent::Saved(Err(SaveFailure::WriteFailed))) {
        JobAction::Done(result) => {
            assert!(!result.success);
            assert_eq!(result.output_path, None);
            assert_eq!(
                result.error.as_deref(),
                Some("File operation error: Failed to write file: a.md")
            );
        }
        other => panic!("unexpected {:?}", other),
    }
    assert_eq!(job.stage(), JobStage::SaveFailed);
    assert!(job.is_done());
    // a job that is over stays over
    assert!(matches!(job.step(&mut files, JobEvent::Waited), JobAction::Done(_)));
    assert_eq!(job.stage(), JobStage::SaveFailed);
}

#[test]
fn job_does_not_retry_what_cannot_pass() {
    let mut files = FileManager::new("out").unwrap();
    let mut job = PageJob::new("https://example.com/a".to_string(), FetchMode::Chrome);
    job.step(&mut files, JobEvent::Start);
    job.step(&mut files, JobEvent::Fetched(Ok("<p>A</p>".to_string())));
    match job.step(&mut files, JobEvent::Saved(Err(SaveFailure::PermissionDenied))) {
        JobAction::Done(result) => {
            assert!(!result.success);
            assert_eq!(
                result.error.as_deref(),
                Some("File operation error: Permission denied for path: a.md")
            );
        }
        other => panic!("unexpected {:?}", other),
    }

    let mut job = PageJob::new("https://example.com/b".to_string(), FetchMode::Chrome);
    job.step(&mut files, JobEvent::Start);
    match job.step(&mut files, JobEvent::Fetched(Err(FetchFailure::Other))) {
        JobAction::Done(result) => assert!(!result.success),
        other => panic!("unexpected {:?}", other),
    }
    assert_eq!(job.stage(), JobStage::FetchFailed);
}

#[test]
fn job_falls_back_to_raw_markup() {
    let mut files = FileManager::new("out").unwrap();
    let mut job = PageJob::new("https://example.com/raw".to_string(), FetchMode::HttpRequest);
    job.step(&mut files, JobEvent::Start);
    match job.step(&mut files, JobEvent::Fetched(Ok("   ".to_string()))) {
        JobAction::Save { name, content } => {
            assert_eq!(name, "raw.html");
            assert_eq!(content, "   ");
        }
        other => panic!("unexpected {:?}", other),
    }
    match job.step(&mut files, JobEvent::Saved(Err(SaveFailure::DirectoryUnavailable))) {
        JobAction::Done(result) => {
            assert!(!result.success);
            assert_eq!(
                result.error.as_deref(),
                Some("File operation error: Invalid file path: raw.html")
            );
        }
        other => panic!("unexpected {:?}", other),
    }
    assert_eq!(job.stage(), JobStage::FallbackFailed);

    let mut job = PageJob::new("https://example.com/raw".to_string(), FetchMode::HttpRequest);
    job.step(&mut files, JobEvent::Start);
    match job.step(&mut files, JobEvent::Fetched(Ok("".to_string()))) {
        JobAction::Save { name, .. } => assert_eq!(name, "raw_1.html"),
        other => panic!("unexpected {:?}", other),
    }
    match job.step(&mut files, JobEvent::Saved(Ok("out/raw_1.html".to_string()))) {
        JobAction::Done(result) => {
            assert!(result.success);
            assert_eq!(result.output_path.as_deref(), Some("out/raw_1.html"));
            assert_eq!(
                result.error.as_deref(),
                Some("HTML conversion error: HTML content is empty")
            );
        }
        other => panic!("unexpected {:?}", other),
    }
    assert_eq!(job.stage(), JobStage::FallbackSaved);
}

#[test]
fn statistics_count_each_outcome_once() {
    let mut s = RunStatistics::new();
    assert_eq!(s, stats(0, 0, 0, 0));
    let ok = site_harvest::page_job::ProcessingResult {
        url: "u".to_string(),
        success: true,
        output_path: Some("p".to_string()),
        error: None,
    };
    let bad = site_harvest::page_job::ProcessingResult {
        url: "v".to_string(),
        success: false,
        output_path: None,
        error: Some("e".to_string()),
    };
    s.record(&ok);
    s.record(&bad);
    s.record(&ok);
    assert_eq!(s, stats(3, 2, 1, 2));
}

#[test]
fn statuses_that_stand_for_failures() {
    assert_eq!(FetchFailure::from_status(200), None);
    assert_eq!(FetchFailure::from_status(301), None);
    assert_eq!(FetchFailure::from_status(403), None);
    assert_eq!(FetchFailure::from_status(404), Some(FetchFailure::NotFound));
    assert_eq!(FetchFailure::from_status(410), Some(FetchFailure::NotFound));
    assert_eq!(FetchFailure::from_status(408), Some(FetchFailure::Timeout));
    assert_eq!(FetchFailure::from_status(504), Some(FetchFailure::Timeout));
    assert_eq!(FetchFailure::from_status(500), Some(FetchFailure::ConnectionFailed));
    assert_eq!(FetchFailure::from_status(503), Some(FetchFailure::ConnectionFailed));
    assert_eq!(FetchFailure::from_status(499), None);
    assert_eq!(FetchFailure::from_status(599), Some(FetchFailure::ConnectionFailed));
}

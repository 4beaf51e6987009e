//! The run over one domain: classify it, discover its pages, and work
//! through them one by one. The run decides what is to be done next; the
//! caller does it and reports back.

use vstd::prelude::*;
use crate::domain_detector::{
    after_classification, classification, DetectorState, DomainDetector, FetchMode,
};
use crate::file_manager::{stem_for_url, unique_name, FileManager};
use crate::page_job::{
    is_terminal, job_inv, job_next, job_output, lemma_job_inv, new_job, outcome_of, taken_next,
    text_view, FetchFailure, JobAction, JobEvent, JobInput, JobOutput, JobState, Outcome, PageJob,
    ProcessingResult, SaveFailure,
};
use crate::sitemap::{
    initial_state, lemma_frontier_bounded, lemma_next_state_keeps_limits, next_state, output_of,
    robots_location, sitemap_location, truncated, ResolverAction, ResolverEvent, ResolverInput,
    ResolverOutput, ResolverState, SitemapResolver,
};
use crate::text::views;

verus! {

/// What a run has done.
#[derive(Debug, Clone, Copy, PartialEq, Eq, Structural)]
pub struct RunStatistics {
    /// How many URLs were worked on.
    pub total_urls: usize,
    /// For how many of them a file was saved.
    pub succeeded: usize,
    /// For how many of them none was.
    pub failed: usize,
    /// How many files were saved.
    pub files_saved: usize,
}

impl RunStatistics {
    /// The statistics of a run that has done nothing yet.
    pub fn new() -> (r: Self)
        ensures
            r == (RunStatistics { total_urls: 0, succeeded: 0, failed: 0, files_saved: 0 }),
    {
        RunStatistics { total_urls: 0, succeeded: 0, failed: 0, files_saved: 0 }
    }

    /// These statistics with the outcome of one more URL counted.
    pub open spec fn with_outcome(self, outcome: Outcome) -> (nat, nat, nat, nat) {
        (
            (self.total_urls + 1) as nat,
            (self.succeeded + if outcome.success {
                1int
            } else {
                0int
            }) as nat,
            (self.failed + if outcome.success {
                0int
            } else {
                1int
            }) as nat,
            (self.files_saved + if outcome.output_path is Some {
                1int
            } else {
                0int
            }) as nat,
        )
    }

    /// The four counts.
    pub open spec fn counts(self) -> (nat, nat, nat, nat) {
        (self.total_urls as nat, self.succeeded as nat, self.failed as nat, self.files_saved as nat)
    }

    /// Counts the outcome of one more URL.
    pub fn record(&mut self, result: &ProcessingResult)
        requires
            old(self).total_urls < usize::MAX,
            old(self).succeeded <= old(self).total_urls,
            old(self).failed <= old(self).total_urls,
            old(self).files_saved <= old(self).total_urls,
        ensures
            final(self).counts() == old(self).with_outcome(result@),
    {
        self.total_urls += 1;
        if result.success {
            self.succeeded += 1;
        } else {
            self.failed += 1;
        }
        if result.output_path.is_some() {
            self.files_saved += 1;
        }
    }
}

/// Why a run ended without statistics of its own.
#[derive(Debug, Clone, Copy, PartialEq, Eq, Structural)]
pub enum RunFault {
    /// The domain normalizes to nothing.
    InvalidDomain,
    /// The domain names no site, so that its robots.txt cannot be named.
    InvalidUrl,
    /// No sitemap was found, and the native crawler failed too.
    CrawlFailed,
}

/// Where a run stands.
#[derive(Debug, Clone, Copy, PartialEq, Eq, Structural)]
pub enum PipelinePhase {
    /// Nothing was done yet.
    Idle,
    /// The sitemaps are being walked.
    Discovering,
    /// No sitemap was found; the native crawler is at work.
    Crawling,
    /// The frontier is being worked through.
    Processing,
    /// The run is over.
    Finished,
}

/// The state of a run.
pub struct PipelineState {
    pub phase: PipelinePhase,
    pub domain: Seq<char>,
    pub max_depth: nat,
    pub max_urls: nat,
    pub detector: DetectorState,
    /// The strategy that the domain was classified with.
    pub mode: FetchMode,
    pub resolver: ResolverState,
    /// The file names that are taken.
    pub taken: Seq<Seq<char>>,
    pub frontier: Seq<Seq<char>>,
    /// How many URLs of the frontier are done with.
    pub next: nat,
    /// The work on the current URL.
    pub job: JobState,
    pub stats: RunStatistics,
    /// The outcomes of the URLs that are done with, in frontier order.
    pub outcomes: Seq<Outcome>,
    /// Whether the run was told to stop before the next URL.
    pub cancelled: bool,
    /// Whether no sitemap was found, so that the native crawler took over.
    pub crawled: bool,
    pub fault: Option<RunFault>,
}

/// What is handed to a run.
pub enum PipelineInput {
    /// The request to begin.
    Start,
    /// The body of the robots.txt or sitemap asked for, or `None` if it
    /// could not be had.
    Document(Option<Seq<char>>),
    /// The page asked for, or why it could not be fetched.
    Page(Result<Seq<char>, FetchFailure>),
    /// Where the file was saved, or why it could not be.
    Saved(Result<Seq<char>, SaveFailure>),
    /// The wait is over.
    Waited,
    /// What the native crawler reports, or `None` if it failed.
    CrawlFinished(Option<RunStatistics>),
    /// The request to stop before the next URL.
    Cancel,
}

/// What a run asks for, or what it ends with.
pub enum PipelineOutput {
    FetchDocument(Seq<char>),
    FetchPage { url: Seq<char>, mode: FetchMode },
    Wait { millis: nat },
    Save { name: Seq<char>, content: Seq<char> },
    RunNativeCrawler(Seq<char>),
    Finish(Result<RunStatistics, RunFault>),
}

/// The run once it has begun: the domain is classified, and robots.txt is
/// asked for. A domain that cannot be classified, or that names no site,
/// ends the run.
pub open spec fn begun(st: PipelineState) -> PipelineState {
    match classification(st.detector, st.domain) {
        None => PipelineState {
            phase: PipelinePhase::Finished,
            fault: Some(RunFault::InvalidDomain),
            ..st
        },
        Some(mode) => {
            let robots = robots_location(st.domain);
            let sitemap = sitemap_location(st.domain);
            if robots is Some && sitemap is Some {
                PipelineState {
                    phase: PipelinePhase::Discovering,
                    mode,
                    detector: after_classification(st.detector, st.domain),
                    resolver: next_state(
                        initial_state(robots->0, sitemap->0, st.max_depth, st.max_urls),
                        ResolverInput::Start,
                    ),
                    ..st
                }
            } else {
                PipelineState {
                    phase: PipelinePhase::Finished,
                    mode,
                    detector: after_classification(st.detector, st.domain),
                    fault: Some(RunFault::InvalidUrl),
                    ..st
                }
            }
        },
    }
}

/// The run turned to the next URL of the frontier: the work on it begins,
/// or the run is over where none is left or the run was told to stop.
pub open spec fn turned_to_next(st: PipelineState) -> PipelineState {
    if st.cancelled || st.next >= st.frontier.len() {
        PipelineState { phase: PipelinePhase::Finished, ..st }
    } else {
        PipelineState {
            phase: PipelinePhase::Processing,
            job: job_next(new_job(st.frontier[st.next as int], st.mode), st.taken, JobInput::Start),
            ..st
        }
    }
}

/// The run once a sitemap document has answered: the walk goes on; when
/// it ends, the frontier is worked through, or the native crawler is called
/// where no sitemap was found.
pub open spec fn with_document(st: PipelineState, body: Option<Seq<char>>) -> PipelineState {
    let resolver = next_state(st.resolver, ResolverInput::Fetched(body));
    match output_of(resolver) {
        ResolverOutput::Fetch(_) => PipelineState { resolver, ..st },
        ResolverOutput::Done(Ok(frontier)) => turned_to_next(
            PipelineState { resolver, frontier, next: 0, ..st },
        ),
        ResolverOutput::Done(Err(_)) => PipelineState {
            resolver,
            phase: PipelinePhase::Crawling,
            crawled: true,
            ..st
        },
    }
}

/// The statistics with the outcome of one more URL counted.
pub open spec fn counted(stats: RunStatistics, outcome: Outcome) -> RunStatistics {
    RunStatistics {
        total_urls: stats.with_outcome(outcome).0 as usize,
        succeeded: stats.with_outcome(outcome).1 as usize,
        failed: stats.with_outcome(outcome).2 as usize,
        files_saved: stats.with_outcome(outcome).3 as usize,
    }
}

/// The run once the work on the current URL has moved on `input`: when
/// that work is over, its outcome is counted and the next URL is turned to.
pub open spec fn with_job_input(st: PipelineState, input: JobInput) -> PipelineState {
    let job = job_next(st.job, st.taken, input);
    let taken = taken_next(st.job, st.taken, input);
    if is_terminal(job.stage) {
        turned_to_next(
            PipelineState {
                job,
                taken,
                next: st.next + 1,
                stats: counted(st.stats, outcome_of(job)),
                outcomes: st.outcomes.push(outcome_of(job)),
                ..st
            },
        )
    } else {
        PipelineState { job, taken, ..st }
    }
}

/// The run that follows `st` on `input`. An input that does not fit the
/// phase changes nothing.
pub open spec fn pipeline_next(st: PipelineState, input: PipelineInput) -> PipelineState {
    match st.phase {
        PipelinePhase::Idle => begun(st),
        PipelinePhase::Discovering => match input {
            PipelineInput::Document(body) => with_document(st, body),
            PipelineInput::Cancel => PipelineState { cancelled: true, ..st },
            _ => st,
        },
        PipelinePhase::Crawling => match input {
            PipelineInput::CrawlFinished(Some(stats)) => PipelineState {
                phase: PipelinePhase::Finished,
                stats,
                ..st
            },
            PipelineInput::CrawlFinished(None) => PipelineState {
                phase: PipelinePhase::Finished,
                fault: Some(RunFault::CrawlFailed),
                ..st
            },
            _ => st,
        },
        PipelinePhase::Processing => match input {
            PipelineInput::Page(r) => with_job_input(st, JobInput::Fetched(r)),
            PipelineInput::Saved(r) => with_job_input(st, JobInput::Saved(r)),
            PipelineInput::Waited => with_job_input(st, JobInput::Waited),
            PipelineInput::Cancel => PipelineState { cancelled: true, ..st },
            _ => st,
        },
        PipelinePhase::Finished => st,
    }
}

/// What a finished run ends with.
pub open spec fn run_result(st: PipelineState) -> Result<RunStatistics, RunFault> {
    match st.fault {
        Some(f) => Err(f),
        None => Ok(st.stats),
    }
}

/// What the run asks for in state `st`, or ends with.
pub open spec fn pipeline_output(st: PipelineState) -> PipelineOutput {
    match st.phase {
        PipelinePhase::Idle => PipelineOutput::FetchDocument(st.domain),
        PipelinePhase::Discovering => match output_of(st.resolver) {
            ResolverOutput::Fetch(url) => PipelineOutput::FetchDocument(url),
            ResolverOutput::Done(_) => PipelineOutput::FetchDocument(st.domain),
        },
        PipelinePhase::Crawling => PipelineOutput::RunNativeCrawler(st.domain),
        PipelinePhase::Processing => match job_output(st.job) {
            JobOutput::Fetch { url, mode } => PipelineOutput::FetchPage { url, mode },
            JobOutput::Wait { millis } => PipelineOutput::Wait { millis },
            JobOutput::Save { name, content } => PipelineOutput::Save { name, content },
            JobOutput::Done(_) => PipelineOutput::Finish(run_result(st)),
        },
        PipelinePhase::Finished => PipelineOutput::Finish(run_result(st)),
    }
}

/// The run before anything was done.
pub open spec fn initial_run(
    domain: Seq<char>,
    detector: DetectorState,
    taken: Seq<Seq<char>>,
    max_depth: nat,
    max_urls: nat,
) -> PipelineState {
    PipelineState {
        phase: PipelinePhase::Idle,
        domain,
        max_depth,
        max_urls,
        detector,
        mode: FetchMode::HttpRequest,
        resolver: initial_state(Seq::empty(), Seq::empty(), max_depth, max_urls),
        taken,
        frontier: Seq::empty(),
        next: 0,
        job: new_job(Seq::empty(), FetchMode::HttpRequest),
        stats: RunStatistics { total_urls: 0, succeeded: 0, failed: 0, files_saved: 0 },
        outcomes: Seq::empty(),
        cancelled: false,
        crawled: false,
        fault: None,
    }
}

/// How many of `outcomes` are successes.
pub open spec fn successes(outcomes: Seq<Outcome>) -> nat
    decreases outcomes.len(),
{
    if outcomes.len() == 0 {
        0
    } else {
        successes(outcomes.drop_last()) + if outcomes.last().success {
            1nat
        } else {
            0nat
        }
    }
}

/// The books of a run are in order: unless the native crawler took over,
/// one outcome is on record for each URL that is done with, the frontier
/// is not outrun, the counts are those of the outcomes on record, and the
/// work on the current URL is under way. A run that ends without having
/// been told to stop has worked on every URL of the frontier.
pub open spec fn run_inv(st: PipelineState) -> bool {
    &&& st.phase is Idle ==> st.next == 0 && st.outcomes.len() == 0 && !st.crawled
    &&& st.phase is Discovering ==> output_of(st.resolver) is Fetch && st.next == 0
        && st.outcomes.len() == 0 && !st.crawled
    &&& st.phase is Crawling ==> st.crawled
    &&& st.phase is Processing ==> st.next < st.frontier.len() && !is_terminal(st.job.stage)
        && !(st.job.stage is Pending) && !st.crawled
    &&& job_inv(st.job)
    &&& st.max_urls <= usize::MAX
    &&& st.resolver.max_urls <= usize::MAX
    &&& st.frontier.len() <= usize::MAX
    &&& st.next <= st.frontier.len()
    &&& !st.crawled ==> books_in_order(st)
    &&& st.phase is Finished && !st.crawled && !st.cancelled && st.fault is None ==> st.next
        == st.frontier.len()
}

/// The counts are those of the outcomes on record, one for each URL that
/// is done with: each either succeeded or failed, and a file was saved for
/// each that succeeded.
pub open spec fn books_in_order(st: PipelineState) -> bool {
    &&& st.outcomes.len() == st.next
    &&& st.stats.total_urls == st.next
    &&& st.stats.succeeded == successes(st.outcomes)
    &&& st.stats.failed == st.next - successes(st.outcomes)
    &&& st.stats.files_saved == st.stats.succeeded
    &&& successes(st.outcomes) <= st.next
}

/// Where every outcome is a success, there are as many successes as outcomes.
pub proof fn lemma_all_successes(outcomes: Seq<Outcome>)
    requires
        forall|i: int| 0 <= i < outcomes.len() ==> (#[trigger] outcomes[i]).success,
    ensures
        successes(outcomes) == outcomes.len(),
    decreases outcomes.len(),
{
    if outcomes.len() > 0 {
        let init = outcomes.drop_last();
        assert forall|i: int| 0 <= i < init.len() implies (#[trigger] init[i]).success by {
            assert(init[i] == outcomes[i]);
        }
        lemma_all_successes(init);
        assert(outcomes[outcomes.len() - 1].success);
    }
}

/// A run over a frontier of `n` URLs that was not told to stop, and in
/// which the work on every URL ended in success, ends with the statistics
/// `n` worked on, `n` succeeded, none failed, `n` files saved.
pub proof fn lemma_full_success(st: PipelineState)
    requires
        run_inv(st),
        st.phase is Finished,
        !st.crawled,
        !st.cancelled,
        st.fault is None,
        forall|i: int| 0 <= i < st.outcomes.len() ==> (#[trigger] st.outcomes[i]).success,
    ensures
        run_result(st) == Ok::<RunStatistics, RunFault>(
            RunStatistics {
                total_urls: st.frontier.len() as usize,
                succeeded: st.frontier.len() as usize,
                failed: 0,
                files_saved: st.frontier.len() as usize,
            },
        ),
{
    lemma_all_successes(st.outcomes);
}

/// The run is ready to turn to the next URL: the work on the last one is
/// on the books, and the frontier is not outrun.
pub open spec fn ready_for_next(st: PipelineState) -> bool {
    &&& job_inv(st.job)
    &&& st.max_urls <= usize::MAX
    &&& st.resolver.max_urls <= usize::MAX
    &&& st.frontier.len() <= usize::MAX
    &&& st.next <= st.frontier.len()
    &&& !st.crawled
    &&& books_in_order(st)
}

/// Turning to the next URL keeps the books in order.
pub proof fn lemma_turned_to_next(st: PipelineState)
    requires
        ready_for_next(st),
    ensures
        run_inv(turned_to_next(st)),
{
    if !(st.cancelled || st.next >= st.frontier.len()) {
        let fresh = new_job(st.frontier[st.next as int], st.mode);
        lemma_job_inv(fresh, st.taken, JobInput::Start);
    }
}

/// Beginning a run keeps the books in order.
pub proof fn lemma_begun(st: PipelineState)
    requires
        run_inv(st),
        st.phase is Idle,
    ensures
        run_inv(begun(st)),
{
    let robots = robots_location(st.domain);
    let sitemap = sitemap_location(st.domain);
    if robots is Some && sitemap is Some {
        lemma_next_state_keeps_limits(
            initial_state(robots->0, sitemap->0, st.max_depth, st.max_urls),
            ResolverInput::Start,
        );
    }
}

/// The answer of a sitemap document keeps the books in order.
pub proof fn lemma_with_document(st: PipelineState, body: Option<Seq<char>>)
    requires
        run_inv(st),
        st.phase is Discovering,
    ensures
        run_inv(with_document(st, body)),
{
    lemma_next_state_keeps_limits(st.resolver, ResolverInput::Fetched(body));
    let resolver = next_state(st.resolver, ResolverInput::Fetched(body));
    match output_of(resolver) {
        ResolverOutput::Fetch(_) => {},
        ResolverOutput::Done(Ok(frontier)) => {
            let ready = PipelineState { resolver, frontier, next: 0, ..st };
            lemma_frontier_bounded(resolver.pages, resolver.max_urls);
            lemma_turned_to_next(ready);
        },
        ResolverOutput::Done(Err(_)) => {},
    }
}

/// A step of the work on the current URL keeps the books in order.
pub proof fn lemma_with_job_input(st: PipelineState, input: JobInput)
    requires
        run_inv(st),
        st.phase is Processing,
    ensures
        run_inv(with_job_input(st, input)),
{
    lemma_job_inv(st.job, st.taken, input);
    let job = job_next(st.job, st.taken, input);
    if is_terminal(job.stage) {
        let outcome = outcome_of(job);
        let done = PipelineState {
            job,
            taken: taken_next(st.job, st.taken, input),
            next: st.next + 1,
            stats: counted(st.stats, outcome),
            outcomes: st.outcomes.push(outcome),
            ..st
        };
        assert(done.outcomes.drop_last() =~= st.outcomes);
        assert(successes(done.outcomes) == successes(st.outcomes) + if outcome.success {
            1nat
        } else {
            0nat
        });
        assert(outcome.success <==> outcome.output_path is Some);
        assert(books_in_order(done));
        lemma_turned_to_next(done);
    }
}

/// Every step keeps the books of a run in order. So the statistics that a
/// run ends with, where the native crawler did not take over, count each
/// URL once: as many as were worked on, each either succeeded or failed,
/// and a file saved for each that succeeded.
pub proof fn lemma_run_inv(st: PipelineState, input: PipelineInput)
    requires
        run_inv(st),
    ensures
        run_inv(pipeline_next(st, input)),
{
    match st.phase {
        PipelinePhase::Idle => {
            lemma_begun(st);
        },
        PipelinePhase::Discovering => {
            if let PipelineInput::Document(body) = input {
                lemma_with_document(st, body);
            }
        },
        PipelinePhase::Crawling => {},
        PipelinePhase::Processing => {
            match input {
                PipelineInput::Page(r) => {
                    lemma_with_job_input(st, JobInput::Fetched(r));
                },
                PipelineInput::Saved(r) => {
                    lemma_with_job_input(st, JobInput::Saved(r));
                },
                PipelineInput::Waited => {
                    lemma_with_job_input(st, JobInput::Waited);
                },
                _ => {},
            }
        },
        PipelinePhase::Finished => {},
    }
}

/// What is handed to a [`Pipeline`].
#[derive(Debug)]
pub enum PipelineEvent {
    /// The request to begin.
    Start,
    /// The body of the robots.txt or sitemap asked for, or `None` if it
    /// could not be had.
    Document(Option<String>),
    /// The page asked for, or why it could not be fetched.
    Page(Result<String, FetchFailure>),
    /// Where the file was saved, or why it could not be.
    Saved(Result<String, SaveFailure>),
    /// The wait is over.
    Waited,
    /// What the native crawler reports, or `None` if it failed.
    CrawlFinished(Option<RunStatistics>),
    /// The request to stop before the next URL.
    Cancel,
}

impl PipelineEvent {
    pub open spec fn view(self) -> PipelineInput {
        match self {
            PipelineEvent::Start => PipelineInput::Start,
            PipelineEvent::Document(Some(b)) => PipelineInput::Document(Some(b@)),
            PipelineEvent::Document(None) => PipelineInput::Document(None),
            PipelineEvent::Page(Ok(html)) => PipelineInput::Page(Ok(html@)),
            PipelineEvent::Page(Err(f)) => PipelineInput::Page(Err(f)),
            PipelineEvent::Saved(Ok(path)) => PipelineInput::Saved(Ok(path@)),
            PipelineEvent::Saved(Err(f)) => PipelineInput::Saved(Err(f)),
            PipelineEvent::Waited => PipelineInput::Waited,
            PipelineEvent::CrawlFinished(r) => PipelineInput::CrawlFinished(r),
            PipelineEvent::Cancel => PipelineInput::Cancel,
        }
    }
}

/// What a [`Pipeline`] asks for, or ends with.
#[derive(Debug)]
pub enum PipelineAction {
    /// Fetch the robots.txt or sitemap at this URL and hand back its body.
    FetchDocument(String),
    /// Fetch the page at `url` by the means that `mode` names.
    FetchPage { url: String, mode: FetchMode },
    /// Wait for `millis` milliseconds.
    Wait { millis: u64 },
    /// Save `content` under the name `name`.
    Save { name: String, content: String },
    /// Crawl the domain by following links, and report.
    RunNativeCrawler(String),
    /// The run is over.
    Finish(Result<RunStatistics, RunFault>),
}

impl PipelineAction {
    pub open spec fn view(self) -> PipelineOutput {
        match self {
            PipelineAction::FetchDocument(url) => PipelineOutput::FetchDocument(url@),
            PipelineAction::FetchPage { url, mode } => PipelineOutput::FetchPage { url: url@, mode },
            PipelineAction::Wait { millis } => PipelineOutput::Wait { millis: millis as nat },
            PipelineAction::Save { name, content } => PipelineOutput::Save {
                name: name@,
                content: content@,
            },
            PipelineAction::RunNativeCrawler(domain) => PipelineOutput::RunNativeCrawler(domain@),
            PipelineAction::Finish(r) => PipelineOutput::Finish(r),
        }
    }
}

/// Outcomes as mathematics has them.
pub open spec fn outcome_views(results: Seq<ProcessingResult>) -> Seq<Outcome> {
    results.map_values(|r: ProcessingResult| r@)
}

/// The run over one domain.
pub struct Pipeline {
    phase: PipelinePhase,
    domain: String,
    max_depth: usize,
    max_urls: usize,
    detector: DomainDetector,
    mode: FetchMode,
    resolver: SitemapResolver,
    files: FileManager,
    frontier: Vec<String>,
    next: usize,
    job: PageJob,
    stats: RunStatistics,
    results: Vec<ProcessingResult>,
    cancelled: bool,
    crawled: bool,
    fault: Option<RunFault>,
}

impl Pipeline {
    /// The state of the run.
    pub closed spec fn view(self) -> PipelineState {
        PipelineState {
            phase: self.phase,
            domain: self.domain@,
            max_depth: self.max_depth as nat,
            max_urls: self.max_urls as nat,
            detector: self.detector@,
            mode: self.mode,
            resolver: self.resolver@,
            taken: self.files.taken(),
            frontier: views(self.frontier@),
            next: self.next as nat,
            job: self.job@,
            stats: self.stats,
            outcomes: outcome_views(self.results@),
            cancelled: self.cancelled,
            crawled: self.crawled,
            fault: self.fault,
        }
    }

    /// The books are in order.
    pub closed spec fn wf(self) -> bool {
        run_inv(self@) && self.resolver.wf()
    }

    /// The books of a run that is well formed are in order, so that what
    /// is proved of runs whose books are in order holds of it.
    pub proof fn lemma_wf_keeps_books(self)
        requires
            self.wf(),
        ensures
            run_inv(self@),
    {
    }

    /// A run over `domain`, a URL or a bare host, that classifies with
    /// `detector`, names files with `files`, follows nested sitemaps
    /// `max_depth` levels down and takes up to `max_urls` URLs from them.
    pub fn new(
        domain: &str,
        detector: DomainDetector,
        files: FileManager,
        max_depth: usize,
        max_urls: usize,
    ) -> (r: Self)
        ensures
            r.wf(),
            r@ == initial_run(
                domain@,
                detector@,
                files.taken(),
                max_depth as nat,
                max_urls as nat,
            ),
    {
        let r = Pipeline {
            phase: PipelinePhase::Idle,
            domain: String::from_str(domain),
            max_depth,
            max_urls,
            detector,
            mode: FetchMode::HttpRequest,
            resolver: SitemapResolver::new(String::new(), String::new(), max_depth, max_urls),
            files,
            frontier: Vec::new(),
            next: 0,
            job: PageJob::new(String::new(), FetchMode::HttpRequest),
            stats: RunStatistics::new(),
            results: Vec::new(),
            cancelled: false,
            crawled: false,
            fault: None,
        };
        assert(views(r.frontier@) =~= Seq::<Seq<char>>::empty());
        assert(outcome_views(r.results@) =~= Seq::<Outcome>::empty());
        r
    }

    /// Where the run stands.
    pub fn phase(&self) -> (r: PipelinePhase)
        ensures
            r == self@.phase,
    {
        self.phase
    }

    /// Whether the frontier leaves out a page that was discovered, for
    /// want of room.
    pub fn frontier_truncated(&self) -> (r: bool)
        requires
            self.wf(),
        ensures
            r == truncated(self@.resolver.pages, self@.resolver.max_urls),
    {
        self.resolver.was_truncated()
    }

    /// Takes a file name for the Markdown of the page at `url` that is not
    /// taken yet, for a page that is saved outside the frontier.
    pub fn reserve_filename(&mut self, url: &str) -> (r: String)
        requires
            old(self).wf(),
        ensures
            final(self).wf(),
            r@ == unique_name(old(self)@.taken, stem_for_url(url@) + ".md"@),
            final(self)@ == (PipelineState { taken: old(self)@.taken.push(r@), ..old(self)@ }),
    {
        let wanted = self.files.generate_filename(url);
        self.files.ensure_unique_filename(wanted.as_str())
    }

    /// What the run has done so far.
    pub fn statistics(&self) -> (r: RunStatistics)
        ensures
            r == self@.stats,
    {
        self.stats
    }

    /// How many outcomes are on record.
    pub fn result_count(&self) -> (r: usize)
        ensures
            r == self@.outcomes.len(),
    {
        self.results.len()
    }

    /// The outcome on record for the `i`-th URL that is done with.
    pub fn result_at(&self, i: usize) -> (r: &ProcessingResult)
        requires
            i < self@.outcomes.len(),
        ensures
            r@ == self@.outcomes[i as int],
    {
        &self.results[i]
    }

    /// What a finished run ends with.
    fn outcome(&self) -> (r: Result<RunStatistics, RunFault>)
        ensures
            r == run_result(self@),
    {
        match self.fault {
            Some(f) => Err(f),
            None => Ok(self.stats),
        }
    }

    /// What the run asks for in its present state, or ends with.
    pub fn action(&self) -> (r: PipelineAction)
        requires
            self.wf(),
        ensures
            r@ == pipeline_output(self@),
    {
        match self.phase {
            PipelinePhase::Idle => PipelineAction::FetchDocument(self.domain.clone()),
            PipelinePhase::Discovering => match self.resolver.action() {
                ResolverAction::Fetch(url) => PipelineAction::FetchDocument(url),
                ResolverAction::Done(_) => PipelineAction::FetchDocument(self.domain.clone()),
            },
            PipelinePhase::Crawling => PipelineAction::RunNativeCrawler(self.domain.clone()),
            PipelinePhase::Processing => match self.job.action() {
                JobAction::Fetch { url, mode } => PipelineAction::FetchPage { url, mode },
                JobAction::Wait { millis } => PipelineAction::Wait { millis },
                JobAction::Save { name, content } => PipelineAction::Save { name, content },
                JobAction::Done(_) => PipelineAction::Finish(self.outcome()),
            },
            PipelinePhase::Finished => PipelineAction::Finish(self.outcome()),
        }
    }

    /// Classifies the domain and asks for its robots.txt.
    fn begin(&mut self)
        requires
            old(self).wf(),
            old(self)@.phase is Idle,
        ensures
            final(self).wf(),
            final(self)@ == begun(old(self)@),
    {
        proof {
            lemma_begun(self@);
        }
        match self.detector.classify(self.domain.as_str()) {
            Err(_) => {
                self.phase = PipelinePhase::Finished;
                self.fault = Some(RunFault::InvalidDomain);
            },
            Ok(mode) => {
                self.mode = mode;
                match SitemapResolver::for_domain(
                    self.domain.as_str(),
                    self.max_depth,
                    self.max_urls,
                ) {
                    Ok(resolver) => {
                        self.resolver = resolver;
                        let _ = self.resolver.step(ResolverEvent::Start);
                        self.phase = PipelinePhase::Discovering;
                    },
                    Err(_) => {
                        self.phase = PipelinePhase::Finished;
                        self.fault = Some(RunFault::InvalidUrl);
                    },
                }
            },
        }
    }

    /// Turns to the next URL of the frontier, or ends the run.
    fn turn_to_next(&mut self)
        requires
            ready_for_next(old(self)@),
            old(self).resolver.wf(),
        ensures
            final(self).wf(),
            final(self)@ == turned_to_next(old(self)@),
    {
        proof {
            lemma_turned_to_next(self@);
        }
        if self.cancelled || self.next >= self.frontier.len() {
            self.phase = PipelinePhase::Finished;
        } else {
            self.job = PageJob::new(self.frontier[self.next].clone(), self.mode);
            let _ = self.job.step(&mut self.files, JobEvent::Start);
            self.phase = PipelinePhase::Processing;
        }
    }

    /// Takes in the answer of a robots.txt or sitemap.
    fn take_document(&mut self, body: Option<String>)
        requires
            old(self).wf(),
            old(self)@.phase is Discovering,
        ensures
            final(self).wf(),
            final(self)@ == with_document(old(self)@, text_view(body)),
    {
        let ghost model = text_view(body);
        proof {
            lemma_with_document(self@, model);
            lemma_next_state_keeps_limits(self@.resolver, ResolverInput::Fetched(model));
        }
        match self.resolver.step(ResolverEvent::Fetched(body)) {
            ResolverAction::Fetch(_) => {},
            ResolverAction::Done(Ok(frontier)) => {
                proof {
                    lemma_frontier_bounded(self.resolver@.pages, self.resolver@.max_urls);
                }
                self.frontier = frontier;
                self.next = 0;
                self.turn_to_next();
            },
            ResolverAction::Done(Err(_)) => {
                self.phase = PipelinePhase::Crawling;
                self.crawled = true;
            },
        }
    }

    /// Takes the work on the current URL one step further.
    fn drive(&mut self, event: JobEvent)
        requires
            old(self).wf(),
            old(self)@.phase is Processing,
        ensures
            final(self).wf(),
            final(self)@ == with_job_input(old(self)@, event@),
    {
        proof {
            lemma_with_job_input(self@, event@);
            lemma_job_inv(self@.job, self@.taken, event@);
        }
        let ghost before = self@;
        let _ = self.job.step(&mut self.files, event);
        if self.job.is_done() {
            let result = self.job.result();
            let ghost outcome = result@;
            self.stats.record(&result);
            let ghost recorded = outcome_views(self.results@);
            self.results.push(result);
            assert(outcome_views(self.results@) =~= recorded.push(outcome));
            self.next = self.next + 1;
            proof {
                let done = PipelineState {
                    job: self@.job,
                    taken: self@.taken,
                    next: before.next + 1,
                    stats: counted(before.stats, outcome),
                    outcomes: before.outcomes.push(outcome),
                    ..before
                };
                assert(self.stats == counted(before.stats, outcome));
                assert(self@ == done);
                assert(done.outcomes.drop_last() =~= before.outcomes);
                assert(successes(done.outcomes) == successes(before.outcomes) + if outcome.success {
                    1nat
                } else {
                    0nat
                });
                assert(outcome.success <==> outcome.output_path is Some);
                assert(books_in_order(done));
            }
            self.turn_to_next();
        }
    }

    /// Takes the run one step further on `event` and says what to do next.
    pub fn step(&mut self, event: PipelineEvent) -> (action: PipelineAction)
        requires
            old(self).wf(),
        ensures
            final(self).wf(),
            final(self)@ == pipeline_next(old(self)@, event@),
            action@ == pipeline_output(final(self)@),
    {
        match self.phase {
            PipelinePhase::Idle => {
                self.begin();
            },
            PipelinePhase::Discovering => match event {
                PipelineEvent::Document(body) => {
                    self.take_document(body);
                },
                PipelineEvent::Cancel => {
                    self.cancelled = true;
                },
                _ => {},
            },
            PipelinePhase::Crawling => match event {
                PipelineEvent::CrawlFinished(Some(stats)) => {
                    self.stats = stats;
                    self.phase = PipelinePhase::Finished;
                },
                PipelineEvent::CrawlFinished(None) => {
                    self.fault = Some(RunFault::CrawlFailed);
                    self.phase = PipelinePhase::Finished;
                },
                _ => {},
            },
            PipelinePhase::Processing => match event {
                PipelineEvent::Page(r) => {
                    self.drive(JobEvent::Fetched(r));
                },
                PipelineEvent::Saved(r) => {
                    self.drive(JobEvent::Saved(r));
                },
                PipelineEvent::Waited => {
                    self.drive(JobEvent::Waited);
                },
                PipelineEvent::Cancel => {
                    self.cancelled = true;
                },
                _ => {},
            },
            PipelinePhase::Finished => {},
        }
        self.action()
    }
}

} // verus!

//! What is done with one URL of the frontier: fetch, render, save, with
//! retries for what may pass and a fallback for what cannot be rendered.
//! The job decides; the caller fetches, waits and writes.

use vstd::prelude::*;
use vstd::arithmetic::power2::{lemma2_to64, pow2};
use crate::domain_detector::FetchMode;
use crate::errors::labelled;
use crate::file_manager::{stem_for_url, unique_name, FileManager};
use crate::html_converter::{recovered_rendering, HtmlConverter, MarkupFault};

verus! {

/// How often a fetch or a save is tried at most.
pub const MAX_ATTEMPTS: usize = 3;

/// The delay in milliseconds on which the backoff of a fetch is based.
pub const FETCH_BASE_DELAY_MS: u64 = 1000;

/// The delay in milliseconds on which the backoff of a save is based.
pub const SAVE_BASE_DELAY_MS: u64 = 100;

/// Why a page could not be fetched.
#[derive(Debug, Clone, Copy, PartialEq, Eq, Structural)]
pub enum FetchFailure {
    Timeout,
    ConnectionFailed,
    NotFound,
    Other,
}

/// The failure that an HTTP status stands for, if it stands for one: 404
/// and 410 say that the page is not there, 408 and 504 that time ran out,
/// any other status from 500 on that the server could not be reached in
/// working order. Every other status is no failure.
pub open spec fn failure_of_status(status: u16) -> Option<FetchFailure> {
    if status == 404 || status == 410 {
        Some(FetchFailure::NotFound)
    } else if status == 408 || status == 504 {
        Some(FetchFailure::Timeout)
    } else if status >= 500 {
        Some(FetchFailure::ConnectionFailed)
    } else {
        None
    }
}

impl FetchFailure {
    /// The failure that an HTTP status stands for, if it stands for one.
    pub fn from_status(status: u16) -> (r: Option<Self>)
        ensures
            r == failure_of_status(status),
    {
        if status == 404 || status == 410 {
            Some(FetchFailure::NotFound)
        } else if status == 408 || status == 504 {
            Some(FetchFailure::Timeout)
        } else if status >= 500 {
            Some(FetchFailure::ConnectionFailed)
        } else {
            None
        }
    }
}

/// Why a file could not be saved.
#[derive(Debug, Clone, Copy, PartialEq, Eq, Structural)]
pub enum SaveFailure {
    DirectoryUnavailable,
    WriteFailed,
    PermissionDenied,
}

/// What went wrong when a file was written, as far as the job needs to know.
#[derive(Debug, Clone, Copy, PartialEq, Eq, Structural)]
pub enum WriteErrorKind {
    /// The platform refused access.
    PermissionDenied,
    /// The directory is not there.
    NotFound,
    /// Anything else; it may pass.
    Other,
}

impl SaveFailure {
    /// The failure that a write error stands for: refused access is final,
    /// a missing directory is final, anything else is a failed write that
    /// is tried again.
    pub fn from_write_error(kind: WriteErrorKind) -> (r: Self)
        ensures
            r == match kind {
                WriteErrorKind::PermissionDenied => SaveFailure::PermissionDenied,
                WriteErrorKind::NotFound => SaveFailure::DirectoryUnavailable,
                WriteErrorKind::Other => SaveFailure::WriteFailed,
            },
    {
        match kind {
            WriteErrorKind::PermissionDenied => SaveFailure::PermissionDenied,
            WriteErrorKind::NotFound => SaveFailure::DirectoryUnavailable,
            WriteErrorKind::Other => SaveFailure::WriteFailed,
        }
    }
}

/// Where the work on a URL stands.
#[derive(Debug, Clone, Copy, PartialEq, Eq, Structural)]
pub enum JobStage {
    /// Nothing was done yet.
    Pending,
    /// The page was asked for.
    Fetching,
    /// A fetch failed and is tried again after a wait.
    FetchBackoff,
    /// A file was handed over to be saved.
    Saving,
    /// A save failed and is tried again after a wait.
    SaveBackoff,
    /// The Markdown was saved.
    Saved,
    /// The page could not be rendered; its markup was saved instead.
    FallbackSaved,
    /// The page could not be fetched.
    FetchFailed,
    /// The Markdown could not be saved.
    SaveFailed,
    /// The page could not be rendered, and its markup could not be saved either.
    FallbackFailed,
}

/// Whether nothing more is done in this stage.
pub open spec fn is_terminal(stage: JobStage) -> bool {
    stage is Saved || stage is FallbackSaved || stage is FetchFailed || stage is SaveFailed
        || stage is FallbackFailed
}

/// Whether the URL counts as processed in this stage.
pub open spec fn is_success(stage: JobStage) -> bool {
    stage is Saved || stage is FallbackSaved
}

/// A fetch failure that may pass: a timeout or a failed connection.
pub open spec fn is_transient(f: FetchFailure) -> bool {
    f is Timeout || f is ConnectionFailed
}

/// The work on one URL.
pub struct JobState {
    pub url: Seq<char>,
    pub mode: FetchMode,
    pub stage: JobStage,
    /// How many fetches, or saves, have failed so far.
    pub attempt: nat,
    /// How long to wait before the next try, in milliseconds.
    pub delay: nat,
    /// The name of the file to save.
    pub name: Seq<char>,
    /// What the file holds.
    pub content: Seq<char>,
    /// Whether the file holds the page's markup because it could not be rendered.
    pub fallback: bool,
    /// Why the page could not be rendered, if it could not.
    pub warning: Option<Seq<char>>,
    /// Where the file was saved, once it was.
    pub path: Option<Seq<char>>,
    /// Why the work failed, once it has.
    pub error: Option<Seq<char>>,
}

/// What is handed to a job.
pub enum JobInput {
    /// The request to begin.
    Start,
    /// The page, or why it could not be fetched.
    Fetched(Result<Seq<char>, FetchFailure>),
    /// Where the file was saved, or why it could not be.
    Saved(Result<Seq<char>, SaveFailure>),
    /// The wait is over.
    Waited,
}

/// The outcome of the work on one URL.
pub struct Outcome {
    pub url: Seq<char>,
    pub success: bool,
    pub output_path: Option<Seq<char>>,
    /// Why the work failed; for a page that was saved as markup, why it
    /// could not be rendered.
    pub error: Option<Seq<char>>,
}

/// What a job asks for, or what it ends with.
pub enum JobOutput {
    Fetch { url: Seq<char>, mode: FetchMode },
    Wait { millis: nat },
    Save { name: Seq<char>, content: Seq<char> },
    Done(Outcome),
}

/// The job for `url` before anything was done.
pub open spec fn new_job(url: Seq<char>, mode: FetchMode) -> JobState {
    JobState {
        url,
        mode,
        stage: JobStage::Pending,
        attempt: 0,
        delay: 0,
        name: Seq::empty(),
        content: Seq::empty(),
        fallback: false,
        warning: None,
        path: None,
        error: None,
    }
}

/// The text that reports why a page could not be fetched.
pub open spec fn fetch_failure_text(f: FetchFailure, url: Seq<char>) -> Seq<char> {
    match f {
        FetchFailure::Timeout => "Network error: Network timeout for: "@ + url,
        FetchFailure::ConnectionFailed => "Network error: Connection failed to: "@ + url,
        FetchFailure::NotFound => "Spider error: HTTP request failed for: "@ + url,
        FetchFailure::Other => "Spider error: HTTP request failed for: "@ + url,
    }
}

/// The text that reports why a file could not be saved.
pub open spec fn save_failure_text(f: SaveFailure, name: Seq<char>) -> Seq<char> {
    match f {
        SaveFailure::DirectoryUnavailable => "File operation error: Invalid file path: "@ + name,
        SaveFailure::WriteFailed => "File operation error: Failed to write file: "@ + name,
        SaveFailure::PermissionDenied => "File operation error: Permission denied for path: "@
            + name,
    }
}

/// The text that reports why markup could not be rendered.
pub open spec fn fault_text(f: MarkupFault) -> Seq<char> {
    match f {
        MarkupFault::Empty => "HTML conversion error: "@ + "HTML content is empty"@,
        MarkupFault::Unbalanced => "HTML conversion error: "@ + ("Invalid HTML structure: "@
            + "Malformed HTML structure"@),
    }
}

/// The job once the page has arrived: rendered where it can be, and ready
/// to be saved under a name that is not taken, as Markdown or, where it
/// cannot be rendered, as it is.
pub open spec fn with_page(job: JobState, taken: Seq<Seq<char>>, html: Seq<char>) -> JobState {
    match recovered_rendering(html, job.url) {
        Ok(markdown) => JobState {
            stage: JobStage::Saving,
            attempt: 0,
            name: unique_name(taken, stem_for_url(job.url) + ".md"@),
            content: markdown,
            fallback: false,
            ..job
        },
        Err(fault) => JobState {
            stage: JobStage::Saving,
            attempt: 0,
            name: unique_name(taken, stem_for_url(job.url) + ".html"@),
            content: html,
            fallback: true,
            warning: Some(fault_text(fault)),
            ..job
        },
    }
}

/// The job that follows `job` on `input`. An input that does not fit the
/// stage changes nothing.
pub open spec fn job_next(job: JobState, taken: Seq<Seq<char>>, input: JobInput) -> JobState {
    match job.stage {
        JobStage::Pending => JobState { stage: JobStage::Fetching, attempt: 0, ..job },
        JobStage::Fetching => match input {
            JobInput::Fetched(Ok(html)) => with_page(job, taken, html),
            JobInput::Fetched(Err(f)) => if is_transient(f) && job.attempt + 1 < MAX_ATTEMPTS {
                JobState {
                    stage: JobStage::FetchBackoff,
                    delay: (FETCH_BASE_DELAY_MS * pow2(job.attempt)) as nat,
                    attempt: job.attempt + 1,
                    ..job
                }
            } else {
                JobState {
                    stage: JobStage::FetchFailed,
                    error: Some(fetch_failure_text(f, job.url)),
                    ..job
                }
            },
            _ => job,
        },
        JobStage::FetchBackoff => match input {
            JobInput::Waited => JobState { stage: JobStage::Fetching, ..job },
            _ => job,
        },
        JobStage::Saving => match input {
            JobInput::Saved(Ok(path)) => JobState {
                stage: if job.fallback {
                    JobStage::FallbackSaved
                } else {
                    JobStage::Saved
                },
                path: Some(path),
                ..job
            },
            JobInput::Saved(Err(f)) => if f is WriteFailed && job.attempt + 1 < MAX_ATTEMPTS {
                JobState {
                    stage: JobStage::SaveBackoff,
                    delay: (SAVE_BASE_DELAY_MS * pow2(job.attempt)) as nat,
                    attempt: job.attempt + 1,
                    ..job
                }
            } else {
                JobState {
                    stage: if job.fallback {
                        JobStage::FallbackFailed
                    } else {
                        JobStage::SaveFailed
                    },
                    error: Some(save_failure_text(f, job.name)),
                    ..job
                }
            },
            _ => job,
        },
        JobStage::SaveBackoff => match input {
            JobInput::Waited => JobState { stage: JobStage::Saving, ..job },
            _ => job,
        },
        _ => job,
    }
}

/// The names that are taken once `job` has moved on `input`: the name of
/// the file to save is taken when the page arrives.
pub open spec fn taken_next(job: JobState, taken: Seq<Seq<char>>, input: JobInput) -> Seq<
    Seq<char>,
> {
    match input {
        JobInput::Fetched(Ok(html)) => if job.stage is Fetching {
            taken.push(with_page(job, taken, html).name)
        } else {
            taken
        },
        _ => taken,
    }
}

/// The outcome that a job ends with.
pub open spec fn outcome_of(job: JobState) -> Outcome {
    Outcome {
        url: job.url,
        success: is_success(job.stage),
        output_path: job.path,
        error: if is_success(job.stage) {
            job.warning
        } else {
            job.error
        },
    }
}

/// What a job asks for in its stage, or ends with.
pub open spec fn job_output(job: JobState) -> JobOutput {
    match job.stage {
        JobStage::Pending | JobStage::Fetching => JobOutput::Fetch { url: job.url, mode: job.mode },
        JobStage::FetchBackoff | JobStage::SaveBackoff => JobOutput::Wait { millis: job.delay },
        JobStage::Saving => JobOutput::Save { name: job.name, content: job.content },
        _ => JobOutput::Done(outcome_of(job)),
    }
}

/// What a job holds is in keeping with its stage: the count of failed
/// tries stays below the most that are made, a wait is no longer than the
/// longest backoff, and a job that has ended says where the file is or
/// why there is none.
pub open spec fn job_inv(job: JobState) -> bool {
    &&& job.attempt < MAX_ATTEMPTS
    &&& job.delay <= FETCH_BASE_DELAY_MS * 2
    &&& is_success(job.stage) <==> job.path is Some
    &&& is_terminal(job.stage) && !is_success(job.stage) ==> job.error is Some
    &&& (job.stage is FallbackSaved || job.stage is FallbackFailed) ==> job.fallback
    &&& (job.stage is Saved || job.stage is SaveFailed) ==> !job.fallback
    &&& job.fallback ==> job.warning is Some
}

/// A new job is in keeping with its stage, and every step keeps a job so.
/// No fetch and no save is tried more than three times.
pub proof fn lemma_job_inv(job: JobState, taken: Seq<Seq<char>>, input: JobInput)
    requires
        job_inv(job),
    ensures
        job_inv(new_job(job.url, job.mode)),
        job_inv(job_next(job, taken, input)),
{
    lemma2_to64();
    let next = job_next(job, taken, input);
    if job.stage is Fetching {
        if let JobInput::Fetched(Err(f)) = input {
            if is_transient(f) && job.attempt + 1 < MAX_ATTEMPTS {
                assert(job.attempt == 0 || job.attempt == 1);
                assert(next.delay == FETCH_BASE_DELAY_MS * pow2(job.attempt));
            }
        }
    }
    if job.stage is Saving {
        if let JobInput::Saved(Err(f)) = input {
            if f is WriteFailed && job.attempt + 1 < MAX_ATTEMPTS {
                assert(job.attempt == 0 || job.attempt == 1);
                assert(next.delay == SAVE_BASE_DELAY_MS * pow2(job.attempt));
            }
        }
    }
}

/// A job that has ended stays as it is, whatever it is handed.
pub proof fn lemma_terminal_is_final(job: JobState, taken: Seq<Seq<char>>, input: JobInput)
    requires
        is_terminal(job.stage),
    ensures
        job_next(job, taken, input) == job,
        taken_next(job, taken, input) == taken,
{
}

/// A job ends in success exactly when a file was saved for its URL.
pub proof fn lemma_success_means_saved(job: JobState)
    requires
        job_inv(job),
        is_terminal(job.stage),
    ensures
        outcome_of(job).success <==> (job.stage is Saved || job.stage is FallbackSaved),
        outcome_of(job).success <==> outcome_of(job).output_path is Some,
        !outcome_of(job).success ==> outcome_of(job).error is Some,
        job.stage is FallbackSaved ==> outcome_of(job).error is Some,
{
}

/// The view of a text that may be absent.
pub open spec fn text_view(t: Option<String>) -> Option<Seq<char>> {
    match t {
        Some(s) => Some(s@),
        None => None,
    }
}

/// What is handed to a [`PageJob`].
#[derive(Debug)]
pub enum JobEvent {
    /// The request to begin.
    Start,
    /// The page, or why it could not be fetched.
    Fetched(Result<String, FetchFailure>),
    /// Where the file was saved, or why it could not be.
    Saved(Result<String, SaveFailure>),
    /// The wait is over.
    Waited,
}

impl JobEvent {
    pub open spec fn view(self) -> JobInput {
        match self {
            JobEvent::Start => JobInput::Start,
            JobEvent::Fetched(Ok(html)) => JobInput::Fetched(Ok(html@)),
            JobEvent::Fetched(Err(f)) => JobInput::Fetched(Err(f)),
            JobEvent::Saved(Ok(path)) => JobInput::Saved(Ok(path@)),
            JobEvent::Saved(Err(f)) => JobInput::Saved(Err(f)),
            JobEvent::Waited => JobInput::Waited,
        }
    }
}

/// The outcome of the work on one URL.
#[derive(Debug)]
pub struct ProcessingResult {
    pub url: String,
    pub success: bool,
    pub output_path: Option<String>,
    /// Why the work failed; for a page that was saved as markup, why it
    /// could not be rendered.
    pub error: Option<String>,
}

impl ProcessingResult {
    pub open spec fn view(self) -> Outcome {
        Outcome {
            url: self.url@,
            success: self.success,
            output_path: text_view(self.output_path),
            error: text_view(self.error),
        }
    }
}

/// What a [`PageJob`] asks for, or ends with.
#[derive(Debug)]
pub enum JobAction {
    /// Fetch the page at `url` by the means that `mode` names.
    Fetch { url: String, mode: FetchMode },
    /// Wait for `millis` milliseconds.
    Wait { millis: u64 },
    /// Save `content` under the name `name`.
    Save { name: String, content: String },
    /// The work is over.
    Done(ProcessingResult),
}

impl JobAction {
    pub open spec fn view(self) -> JobOutput {
        match self {
            JobAction::Fetch { url, mode } => JobOutput::Fetch { url: url@, mode },
            JobAction::Wait { millis } => JobOutput::Wait { millis: millis as nat },
            JobAction::Save { name, content } => JobOutput::Save { name: name@, content: content@ },
            JobAction::Done(r) => JobOutput::Done(r@),
        }
    }
}

/// A copy of a text that may be absent.
fn clone_text(t: &Option<String>) -> (r: Option<String>)
    ensures
        text_view(r) == text_view(*t),
{
    match t {
        Some(s) => Some(s.clone()),
        None => None,
    }
}

/// The work on one URL of the frontier.
pub struct PageJob {
    url: String,
    mode: FetchMode,
    stage: JobStage,
    attempt: usize,
    delay: u64,
    name: String,
    content: String,
    fallback: bool,
    warning: Option<String>,
    path: Option<String>,
    error: Option<String>,
}

impl PageJob {
    /// The work as mathematics has it.
    pub closed spec fn view(self) -> JobState {
        JobState {
            url: self.url@,
            mode: self.mode,
            stage: self.stage,
            attempt: self.attempt as nat,
            delay: self.delay as nat,
            name: self.name@,
            content: self.content@,
            fallback: self.fallback,
            warning: text_view(self.warning),
            path: text_view(self.path),
            error: text_view(self.error),
        }
    }

    /// The job for the page at `url`, to be fetched by the means that `mode` names.
    pub fn new(url: String, mode: FetchMode) -> (r: Self)
        ensures
            r@ == new_job(url@, mode),
            job_inv(r@),
    {
        PageJob {
            url,
            mode,
            stage: JobStage::Pending,
            attempt: 0,
            delay: 0,
            name: String::new(),
            content: String::new(),
            fallback: false,
            warning: None,
            path: None,
            error: None,
        }
    }

    /// Where the work stands.
    pub fn stage(&self) -> (r: JobStage)
        ensures
            r == self@.stage,
    {
        self.stage
    }

    /// Whether the work is over.
    pub fn is_done(&self) -> (r: bool)
        ensures
            r == is_terminal(self@.stage),
    {
        match self.stage {
            JobStage::Saved
            | JobStage::FallbackSaved
            | JobStage::FetchFailed
            | JobStage::SaveFailed
            | JobStage::FallbackFailed => true,
            _ => false,
        }
    }

    /// The outcome of the work, meaningful once it is over.
    pub fn result(&self) -> (r: ProcessingResult)
        ensures
            r@ == outcome_of(self@),
    {
        let success = match self.stage {
            JobStage::Saved | JobStage::FallbackSaved => true,
            _ => false,
        };
        ProcessingResult {
            url: self.url.clone(),
            success,
            output_path: clone_text(&self.path),
            error: if success {
                clone_text(&self.warning)
            } else {
                clone_text(&self.error)
            },
        }
    }

    /// What the job asks for in its stage, or ends with.
    pub fn action(&self) -> (r: JobAction)
        ensures
            r@ == job_output(self@),
    {
        match self.stage {
            JobStage::Pending | JobStage::Fetching => JobAction::Fetch {
                url: self.url.clone(),
                mode: self.mode,
            },
            JobStage::FetchBackoff | JobStage::SaveBackoff => JobAction::Wait {
                millis: self.delay,
            },
            JobStage::Saving => JobAction::Save {
                name: self.name.clone(),
                content: self.content.clone(),
            },
            _ => JobAction::Done(self.result()),
        }
    }

    /// Takes the page in: renders it, with a second attempt on markup that
    /// is refused, and names the file to save.
    fn take_page(&mut self, files: &mut FileManager, html: String)
        requires
            job_inv(old(self)@),
            old(self)@.stage is Fetching,
        ensures
            job_inv(final(self)@),
            final(self)@ == with_page(old(self)@, old(files).taken(), html@),
            final(files).taken() == old(files).taken().push(final(self)@.name),
            final(files).output_dir() == old(files).output_dir(),
    {
        let converter = HtmlConverter::new();
        match converter.render_with_recovery(html.as_str(), self.url.as_str()) {
            Ok(markdown) => {
                let wanted = files.generate_filename(self.url.as_str());
                self.name = files.ensure_unique_filename(wanted.as_str());
                self.content = markdown;
                self.fallback = false;
            },
            Err(e) => {
                let wanted = files.generate_raw_filename(self.url.as_str());
                self.name = files.ensure_unique_filename(wanted.as_str());
                self.content = html;
                self.fallback = true;
                self.warning = Some(e.to_string());
            },
        }
        self.stage = JobStage::Saving;
        self.attempt = 0;
    }

    /// Takes the job one step further on `event` and says what to do next.
    /// `files` is where file names are taken from.
    pub fn step(&mut self, files: &mut FileManager, event: JobEvent) -> (action: JobAction)
        requires
            job_inv(old(self)@),
        ensures
            job_inv(final(self)@),
            final(self)@ == job_next(old(self)@, old(files).taken(), event@),
            final(files).taken() == taken_next(old(self)@, old(files).taken(), event@),
            final(files).output_dir() == old(files).output_dir(),
            action@ == job_output(final(self)@),
    {
        proof {
            lemma2_to64();
            lemma_job_inv(self@, files.taken(), event@);
        }
        match self.stage {
            JobStage::Pending => {
                self.stage = JobStage::Fetching;
                self.attempt = 0;
            },
            JobStage::Fetching => match event {
                JobEvent::Fetched(Ok(html)) => {
                    self.take_page(files, html);
                },
                JobEvent::Fetched(Err(f)) => {
                    let transient = match f {
                        FetchFailure::Timeout | FetchFailure::ConnectionFailed => true,
                        _ => false,
                    };
                    if transient && self.attempt + 1 < MAX_ATTEMPTS {
                        self.delay = if self.attempt == 0 {
                            FETCH_BASE_DELAY_MS
                        } else {
                            FETCH_BASE_DELAY_MS * 2
                        };
                        self.attempt = self.attempt + 1;
                        self.stage = JobStage::FetchBackoff;
                    } else {
                        let text = match f {
                            FetchFailure::Timeout => labelled(
                                "Network error: Network timeout for: ",
                                self.url.as_str(),
                            ),
                            FetchFailure::ConnectionFailed => labelled(
                                "Network error: Connection failed to: ",
                                self.url.as_str(),
                            ),
                            FetchFailure::NotFound => labelled(
                                "Spider error: HTTP request failed for: ",
                                self.url.as_str(),
                            ),
                            FetchFailure::Other => labelled(
                                "Spider error: HTTP request failed for: ",
                                self.url.as_str(),
                            ),
                        };
                        self.error = Some(text);
                        self.stage = JobStage::FetchFailed;
                    }
                },
                _ => {},
            },
            JobStage::FetchBackoff => match event {
                JobEvent::Waited => {
                    self.stage = JobStage::Fetching;
                },
                _ => {},
            },
            JobStage::Saving => match event {
                JobEvent::Saved(Ok(path)) => {
                    self.path = Some(path);
                    self.stage = if self.fallback {
                        JobStage::FallbackSaved
                    } else {
                        JobStage::Saved
                    };
                },
                JobEvent::Saved(Err(f)) => {
                    let retry = match f {
                        SaveFailure::WriteFailed => true,
                        _ => false,
                    };
                    if retry && self.attempt + 1 < MAX_ATTEMPTS {
                        self.delay = if self.attempt == 0 {
                            SAVE_BASE_DELAY_MS
                        } else {
                            SAVE_BASE_DELAY_MS * 2
                        };
                        self.attempt = self.attempt + 1;
                        self.stage = JobStage::SaveBackoff;
                    } else {
                        let text = match f {
                            SaveFailure::DirectoryUnavailable => labelled(
                                "File operation error: Invalid file path: ",
                                self.name.as_str(),
                            ),
                            SaveFailure::WriteFailed => labelled(
                                "File operation error: Failed to write file: ",
                                self.name.as_str(),
                            ),
                            SaveFailure::PermissionDenied => labelled(
                                "File operation error: Permission denied for path: ",
                                self.name.as_str(),
                            ),
                        };
                        self.error = Some(text);
                        self.stage = if self.fallback {
                            JobStage::FallbackFailed
                        } else {
                            JobStage::SaveFailed
                        };
                    }
                },
                _ => {},
            },
            JobStage::SaveBackoff => match event {
                JobEvent::Waited => {
                    self.stage = JobStage::Saving;
                },
                _ => {},
            },
            _ => {},
        }
        self.action()
    }
}

} // verus!

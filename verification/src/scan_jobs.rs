//! The one scan job a manager runs at a time: starting it, pausing, resuming
//! and cancelling it, the progress it reports, and how it ends. The worker that
//! walks the folder asks the manager whether to go on and reports back to it.
use crate::cache_activity::opt_text;
use crate::paths::{is_absolute_in, path_is_absolute_in, PathStyle};
use crate::scanner::{copy_summary, same_summary, sat_add, sat_add_u64, ScanProgress, ScanSummary};
use crate::storage::ScanRepository;
use crate::text::owned;
use vstd::prelude::*;

verus! {

/// Where a scan job stands.
#[derive(Clone, Copy, Debug, PartialEq, Eq, Structural)]
pub enum ScanJobStatus {
    Running,
    Paused,
    Completed,
    Cancelled,
    Failed,
}

/// What a caller sees of a scan job.
#[derive(Clone, Debug)]
pub struct ScanJobSnapshot {
    pub id: u64,
    pub path: String,
    pub status: ScanJobStatus,
    pub current_path: String,
    pub total_size_bytes: u64,
    pub file_count: u64,
    pub directory_count: u64,
    pub skipped_count: u64,
    pub result: Option<ScanSummary>,
    pub error: Option<String>,
}

/// The abstract state of a scan job, with the pause and cancel requests the
/// worker obeys.
pub struct JobModel {
    pub id: u64,
    pub path: Seq<char>,
    pub status: ScanJobStatus,
    pub current_path: Seq<char>,
    pub total_size_bytes: u64,
    pub file_count: u64,
    pub directory_count: u64,
    pub skipped_count: u64,
    pub result: Option<ScanSummary>,
    pub error: Option<Seq<char>>,
    pub paused: bool,
    pub cancelled: bool,
}

/// What the worker does at its next step.
#[derive(Clone, Copy, Debug, PartialEq, Eq, Structural)]
pub enum ControlDecision {
    /// Go on scanning.
    Continue,
    /// Block until the job is resumed or cancelled, then ask again.
    Wait,
    /// Stop scanning.
    Stop,
}

/// How the worker closes the stored scan once the walk has ended.
#[derive(Clone, Copy, Debug, PartialEq, Eq, Structural)]
pub enum FinishStep {
    /// Flush the pending entries and mark the stored scan complete.
    Persist,
    /// Mark the stored scan failed (`failed`) or interrupted.
    Interrupt { failed: bool },
}

struct ScanJob {
    id: u64,
    path: String,
    status: ScanJobStatus,
    current_path: String,
    total_size_bytes: u64,
    file_count: u64,
    directory_count: u64,
    skipped_count: u64,
    result: Option<ScanSummary>,
    error: Option<String>,
    paused: bool,
    cancelled: bool,
}

/// Runs at most one scan job at a time and answers for it by id.
pub struct ScanManager {
    active: Option<ScanJob>,
    repository: ScanRepository,
    style: PathStyle,
}

/// The job is running or paused, so a new scan may not start.
pub open spec fn is_active(status: ScanJobStatus) -> bool {
    status == ScanJobStatus::Running || status == ScanJobStatus::Paused
}

/// The manager's job carries this id.
pub open spec fn found(job: Option<JobModel>, id: u64) -> bool {
    job matches Some(j) && j.id == id
}

/// The snapshot shows the job.
pub open spec fn snapshot_of(s: ScanJobSnapshot, j: JobModel) -> bool {
    &&& s.id == j.id
    &&& s.path@ == j.path
    &&& s.status == j.status
    &&& s.current_path@ == j.current_path
    &&& s.total_size_bytes == j.total_size_bytes
    &&& s.file_count == j.file_count
    &&& s.directory_count == j.directory_count
    &&& s.skipped_count == j.skipped_count
    &&& match (s.result, j.result) {
        (None, None) => true,
        (Some(a), Some(b)) => same_summary(a, b),
        _ => false,
    }
    &&& opt_text(s.error) == j.error
}

/// A new running job for `path`.
pub open spec fn started_job(id: u64, path: Seq<char>) -> JobModel {
    JobModel {
        id,
        path,
        status: ScanJobStatus::Running,
        current_path: path,
        total_size_bytes: 0,
        file_count: 0,
        directory_count: 0,
        skipped_count: 0,
        result: None,
        error: None,
        paused: false,
        cancelled: false,
    }
}

/// The job after a granted pause.
pub open spec fn paused_job(j: JobModel) -> JobModel {
    JobModel { status: ScanJobStatus::Paused, paused: true, ..j }
}

/// The job after a granted resume.
pub open spec fn resumed_job(j: JobModel) -> JobModel {
    JobModel { status: ScanJobStatus::Running, paused: false, ..j }
}

/// The job after a granted cancel: the worker is told to stop; the status
/// changes when the worker ends.
pub open spec fn cancelled_job(j: JobModel) -> JobModel {
    JobModel { cancelled: true, paused: false, ..j }
}

/// The worker's next step for the job with this id.
pub open spec fn control_spec(job: Option<JobModel>, id: u64) -> ControlDecision {
    match job {
        Some(j) => if j.id != id || j.cancelled {
            ControlDecision::Stop
        } else if j.paused {
            ControlDecision::Wait
        } else {
            ControlDecision::Continue
        },
        None => ControlDecision::Stop,
    }
}

/// The job after a progress record: the record's path becomes the current path
/// and its counts are added, each saturating.
pub open spec fn progressed_job(j: JobModel, p: ScanProgress) -> JobModel {
    JobModel {
        current_path: p.path@,
        file_count: sat_add(j.file_count, p.file_count),
        directory_count: sat_add(j.directory_count, p.directory_count),
        skipped_count: sat_add(j.skipped_count, p.skipped_count),
        total_size_bytes: sat_add(j.total_size_bytes, p.counted_size_bytes),
        ..j
    }
}

/// How the stored scan is closed: a cancelled job is interrupted; otherwise a
/// finished walk is persisted and a failed one is marked failed.
pub open spec fn finish_step_spec(job: Option<JobModel>, id: u64, scan_succeeded: bool) -> FinishStep {
    if found(job, id) && job->Some_0.cancelled {
        FinishStep::Interrupt { failed: false }
    } else if scan_succeeded {
        FinishStep::Persist
    } else {
        FinishStep::Interrupt { failed: true }
    }
}

/// The job once the worker has ended: cancelled, completed with the summary,
/// or failed with the storage error if there was one and the scan error if not.
pub open spec fn ended_job(
    j: JobModel,
    step: FinishStep,
    scan: Result<ScanSummary, String>,
    persisted: Result<(), String>,
) -> JobModel {
    match step {
        FinishStep::Interrupt { failed } => if !failed {
            JobModel { status: ScanJobStatus::Cancelled, current_path: Seq::empty(), ..j }
        } else {
            JobModel {
                status: ScanJobStatus::Failed,
                error: match persisted {
                    Err(e) => Some(e@),
                    Ok(_) => match scan {
                        Err(e) => Some(e@),
                        Ok(_) => j.error,
                    },
                },
                ..j
            }
        },
        FinishStep::Persist => match persisted {
            Err(e) => JobModel { status: ScanJobStatus::Failed, error: Some(e@), ..j },
            Ok(_) => match scan {
                Ok(s) => JobModel {
                    status: ScanJobStatus::Completed,
                    current_path: Seq::empty(),
                    result: Some(s),
                    ..j
                },
                Err(e) => JobModel { status: ScanJobStatus::Failed, error: Some(e@), ..j },
            },
        },
    }
}

fn copy_text(s: &Option<String>) -> (r: Option<String>)
    ensures
        opt_text(r) == opt_text(*s),
{
    match s {
        Some(t) => Some(t.clone()),
        None => None,
    }
}

impl ScanJob {
    spec fn model(&self) -> JobModel {
        JobModel {
            id: self.id,
            path: self.path@,
            status: self.status,
            current_path: self.current_path@,
            total_size_bytes: self.total_size_bytes,
            file_count: self.file_count,
            directory_count: self.directory_count,
            skipped_count: self.skipped_count,
            result: self.result,
            error: opt_text(self.error),
            paused: self.paused,
            cancelled: self.cancelled,
        }
    }

    fn snapshot(&self) -> (s: ScanJobSnapshot)
        ensures
            snapshot_of(s, self.model()),
    {
        let result = match &self.result {
            Some(summary) => Some(copy_summary(summary)),
            None => None,
        };
        ScanJobSnapshot {
            id: self.id,
            path: self.path.clone(),
            status: self.status,
            current_path: self.current_path.clone(),
            total_size_bytes: self.total_size_bytes,
            file_count: self.file_count,
            directory_count: self.directory_count,
            skipped_count: self.skipped_count,
            result,
            error: copy_text(&self.error),
        }
    }
}

impl ScanManager {
    /// The job the manager holds, if any.
    pub closed spec fn job(&self) -> Option<JobModel> {
        match self.active {
            Some(j) => Some(j.model()),
            None => None,
        }
    }

    /// The repository that stores the scans.
    pub closed spec fn repo(&self) -> ScanRepository {
        self.repository
    }

    /// The platform whose path rules decide which scan roots are absolute.
    pub closed spec fn path_style(&self) -> PathStyle {
        self.style
    }

    /// A manager with no job, judging paths by the rules of `style`. Job ids
    /// come from the caller, who numbers the jobs of the whole process.
    pub fn new(repository: ScanRepository, style: PathStyle) -> (m: Self)
        ensures
            m.job() is None,
            m.repo() == repository,
            m.path_style() == style,
    {
        ScanManager { active: None, repository, style }
    }

    /// The repository that stores the scans.
    pub fn repository(&self) -> (r: &ScanRepository)
        ensures
            *r == self.repo(),
    {
        &self.repository
    }

    /// Whether a scan of `path` may start: the path must be absolute on the
    /// manager's platform and no job may be running or paused.
    pub fn check_start(&self, path: &str) -> (r: Result<(), String>)
        ensures
            r is Ok <==> is_absolute_in(self.path_style(), path@) && !(self.job() matches Some(j)
                && is_active(j.status)),
            r matches Err(e) ==> e@ == if !is_absolute_in(self.path_style(), path@) {
                "スキャン対象には絶対パスを指定してください"@
            } else {
                "別のスキャンが実行中です"@
            },
    {
        if !path_is_absolute_in(self.style, path) {
            return Err(owned("スキャン対象には絶対パスを指定してください"));
        }
        if let Some(job) = &self.active {
            if job.status == ScanJobStatus::Running || job.status == ScanJobStatus::Paused {
                return Err(owned("別のスキャンが実行中です"));
            }
        }
        Ok(())
    }

    /// Replaces the held job with a new running job for `path` under `id`, the
    /// next id of the process-wide job counter, and returns its snapshot.
    pub fn begin_job(&mut self, path: String, id: u64) -> (s: ScanJobSnapshot)
        ensures
            final(self).job() == Some(started_job(id, path@)),
            final(self).repo() == old(self).repo(),
            final(self).path_style() == old(self).path_style(),
            snapshot_of(s, started_job(id, path@)),
    {
        let job = ScanJob {
            id,
            path: path.clone(),
            status: ScanJobStatus::Running,
            current_path: path,
            total_size_bytes: 0,
            file_count: 0,
            directory_count: 0,
            skipped_count: 0,
            result: None,
            error: None,
            paused: false,
            cancelled: false,
        };
        let s = job.snapshot();
        self.active = Some(job);
        s
    }

    /// The snapshot of the job with this id.
    pub fn status(&self, id: u64) -> (r: Result<ScanJobSnapshot, String>)
        ensures
            match r {
                Ok(s) => found(self.job(), id) && snapshot_of(s, self.job()->Some_0),
                Err(e) => !found(self.job(), id) && e@ == "スキャンジョブが見つかりません"@,
            },
    {
        match &self.active {
            Some(job) => if job.id == id {
                Ok(job.snapshot())
            } else {
                Err(owned("スキャンジョブが見つかりません"))
            },
            None => Err(owned("スキャンジョブが見つかりません")),
        }
    }

    /// Pauses the running job with this id; the worker waits at its next step.
    pub fn pause(&mut self, id: u64) -> (r: Result<ScanJobSnapshot, String>)
        ensures
            final(self).repo() == old(self).repo(),
            final(self).path_style() == old(self).path_style(),
            match r {
                Ok(s) => {
                    &&& found(old(self).job(), id)
                    &&& old(self).job()->Some_0.status == ScanJobStatus::Running
                    &&& final(self).job() == Some(paused_job(old(self).job()->Some_0))
                    &&& snapshot_of(s, paused_job(old(self).job()->Some_0))
                },
                Err(e) => {
                    &&& final(self).job() == old(self).job()
                    &&& if !found(old(self).job(), id) {
                        e@ == "スキャンジョブが見つかりません"@
                    } else {
                        old(self).job()->Some_0.status != ScanJobStatus::Running && e@
                            == "実行中のスキャンだけを一時停止できます"@
                    }
                },
            },
    {
        match &mut self.active {
            Some(job) => {
                if job.id != id {
                    return Err(owned("スキャンジョブが見つかりません"));
                }
                if job.status != ScanJobStatus::Running {
                    return Err(owned("実行中のスキャンだけを一時停止できます"));
                }
                job.paused = true;
                job.status = ScanJobStatus::Paused;
                Ok(job.snapshot())
            },
            None => Err(owned("スキャンジョブが見つかりません")),
        }
    }

    /// Resumes the paused job with this id; a waiting worker goes on.
    pub fn resume(&mut self, id: u64) -> (r: Result<ScanJobSnapshot, String>)
        ensures
            final(self).repo() == old(self).repo(),
            final(self).path_style() == old(self).path_style(),
            match r {
                Ok(s) => {
                    &&& found(old(self).job(), id)
                    &&& old(self).job()->Some_0.status == ScanJobStatus::Paused
                    &&& final(self).job() == Some(resumed_job(old(self).job()->Some_0))
                    &&& snapshot_of(s, resumed_job(old(self).job()->Some_0))
                },
                Err(e) => {
                    &&& final(self).job() == old(self).job()
                    &&& if !found(old(self).job(), id) {
                        e@ == "スキャンジョブが見つかりません"@
                    } else {
                        old(self).job()->Some_0.status != ScanJobStatus::Paused && e@
                            == "一時停止中のスキャンだけを再開できます"@
                    }
                },
            },
    {
        match &mut self.active {
            Some(job) => {
                if job.id != id {
                    return Err(owned("スキャンジョブが見つかりません"));
                }
                if job.status != ScanJobStatus::Paused {
                    return Err(owned("一時停止中のスキャンだけを再開できます"));
                }
                job.paused = false;
                job.status = ScanJobStatus::Running;
                Ok(job.snapshot())
            },
            None => Err(owned("スキャンジョブが見つかりません")),
        }
    }

    /// Asks the running or paused job with this id to stop; the worker stops at
    /// its next step and the job then ends as cancelled.
    pub fn cancel(&mut self, id: u64) -> (r: Result<ScanJobSnapshot, String>)
        ensures
            final(self).repo() == old(self).repo(),
            final(self).path_style() == old(self).path_style(),
            match r {
                Ok(s) => {
                    &&& found(old(self).job(), id)
                    &&& is_active(old(self).job()->Some_0.status)
                    &&& final(self).job() == Some(cancelled_job(old(self).job()->Some_0))
                    &&& snapshot_of(s, cancelled_job(old(self).job()->Some_0))
                },
                Err(e) => {
                    &&& final(self).job() == old(self).job()
                    &&& if !found(old(self).job(), id) {
                        e@ == "スキャンジョブが見つかりません"@
                    } else {
                        !is_active(old(self).job()->Some_0.status) && e@
                            == "完了済みのスキャンはキャンセルできません"@
                    }
                },
            },
    {
        match &mut self.active {
            Some(job) => {
                if job.id != id {
                    return Err(owned("スキャンジョブが見つかりません"));
                }
                if job.status != ScanJobStatus::Running && job.status != ScanJobStatus::Paused {
                    return Err(owned("完了済みのスキャンはキャンセルできません"));
                }
                job.cancelled = true;
                job.paused = false;
                Ok(job.snapshot())
            },
            None => Err(owned("スキャンジョブが見つかりません")),
        }
    }

    /// What the worker of the job with this id does next: stop once the job is
    /// cancelled (or is no longer held), wait while it is paused, else go on.
    pub fn can_continue(&self, id: u64) -> (d: ControlDecision)
        ensures
            d == control_spec(self.job(), id),
    {
        match &self.active {
            Some(job) => if job.id != id || job.cancelled {
                ControlDecision::Stop
            } else if job.paused {
                ControlDecision::Wait
            } else {
                ControlDecision::Continue
            },
            None => ControlDecision::Stop,
        }
    }

    /// Records a progress report of the worker of the job with this id.
    pub fn progress(&mut self, id: u64, progress: &ScanProgress)
        ensures
            final(self).repo() == old(self).repo(),
            final(self).path_style() == old(self).path_style(),
            final(self).job() == if found(old(self).job(), id) {
                Some(progressed_job(old(self).job()->Some_0, *progress))
            } else {
                old(self).job()
            },
    {
        if let Some(job) = &mut self.active {
            if job.id == id {
                job.current_path = progress.path.clone();
                job.file_count = sat_add_u64(job.file_count, progress.file_count);
                job.directory_count = sat_add_u64(job.directory_count, progress.directory_count);
                job.skipped_count = sat_add_u64(job.skipped_count, progress.skipped_count);
                job.total_size_bytes = sat_add_u64(job.total_size_bytes, progress.counted_size_bytes);
            }
        }
    }

    /// How the worker of the job with this id closes the stored scan, given
    /// whether its walk of the folder succeeded.
    pub fn finish_step(&self, id: u64, scan_succeeded: bool) -> (s: FinishStep)
        ensures
            s == finish_step_spec(self.job(), id, scan_succeeded),
    {
        let cancelled = match &self.active {
            Some(job) => job.id == id && job.cancelled,
            None => false,
        };
        if cancelled {
            FinishStep::Interrupt { failed: false }
        } else if scan_succeeded {
            FinishStep::Persist
        } else {
            FinishStep::Interrupt { failed: true }
        }
    }

    /// Ends the job with this id after the worker closed the stored scan as
    /// `step` said, with the walk's result and the storage's answer.
    pub fn finish(
        &mut self,
        id: u64,
        step: FinishStep,
        scan: Result<ScanSummary, String>,
        persisted: Result<(), String>,
    )
        ensures
            final(self).repo() == old(self).repo(),
            final(self).path_style() == old(self).path_style(),
            final(self).job() == if found(old(self).job(), id) {
                Some(ended_job(old(self).job()->Some_0, step, scan, persisted))
            } else {
                old(self).job()
            },
    {
        if let Some(job) = &mut self.active {
            if job.id == id {
                match step {
                    FinishStep::Interrupt { failed } => {
                        if !failed {
                            job.status = ScanJobStatus::Cancelled;
                            job.current_path = String::new();
                        } else {
                            job.status = ScanJobStatus::Failed;
                            match persisted {
                                Err(e) => {
                                    job.error = Some(e);
                                },
                                Ok(_) => match scan {
                                    Err(e) => {
                                        job.error = Some(e);
                                    },
                                    Ok(_) => {},
                                },
                            }
                        }
                    },
                    FinishStep::Persist => match persisted {
                        Err(e) => {
                            job.status = ScanJobStatus::Failed;
                            job.error = Some(e);
                        },
                        Ok(_) => match scan {
                            Ok(s) => {
                                job.status = ScanJobStatus::Completed;
                                job.current_path = String::new();
                                job.result = Some(s);
                            },
                            Err(e) => {
                                job.status = ScanJobStatus::Failed;
                                job.error = Some(e);
                            },
                        },
                    },
                }
            }
        }
    }
}

/// Pausing a running job and then resuming it gives back the job as it was.
pub proof fn lemma_pause_resume_round_trip(j: JobModel)
    requires
        j.status == ScanJobStatus::Running,
        !j.paused,
    ensures
        resumed_job(paused_job(j)) == j,
{
}

/// A cancelled job's worker is told to stop and closes its stored scan as
/// interrupted, whatever its walk returned.
pub proof fn lemma_cancel_stops_worker(j: JobModel, scan_succeeded: bool)
    ensures
        control_spec(Some(cancelled_job(j)), j.id) == ControlDecision::Stop,
        finish_step_spec(Some(cancelled_job(j)), j.id, scan_succeeded) == (FinishStep::Interrupt {
            failed: false,
        }),
{
}

/// A paused job that was not cancelled keeps its worker waiting.
pub proof fn lemma_pause_holds_worker(j: JobModel)
    requires
        !j.cancelled,
    ensures
        control_spec(Some(paused_job(j)), j.id) == ControlDecision::Wait,
{
}

/// `x`, or `u64::MAX` when `x` does not fit.
pub open spec fn capped(x: int) -> int {
    if x > u64::MAX {
        u64::MAX as int
    } else {
        x
    }
}

/// The sum of one count over a list of progress records.
pub open spec fn progress_total(ps: Seq<ScanProgress>, count: spec_fn(ScanProgress) -> u64) -> int
    decreases ps.len(),
{
    if ps.len() == 0 {
        0
    } else {
        progress_total(ps.drop_last(), count) + count(ps.last())
    }
}

/// The job after the progress records `ps`, reported in order.
pub open spec fn progressed_through(j: JobModel, ps: Seq<ScanProgress>) -> JobModel
    decreases ps.len(),
{
    if ps.len() == 0 {
        j
    } else {
        progressed_job(progressed_through(j, ps.drop_last()), ps.last())
    }
}

/// One progress report adds the record's file, directory and skipped counts and
/// its counted size to the job's (each stopping at `u64::MAX`), makes the
/// record's path the current one, and leaves everything else as it was.
pub proof fn lemma_progress_adds_counts(j: JobModel, p: ScanProgress)
    ensures
        progressed_job(j, p).file_count == capped(j.file_count + p.file_count),
        progressed_job(j, p).directory_count == capped(j.directory_count + p.directory_count),
        progressed_job(j, p).skipped_count == capped(j.skipped_count + p.skipped_count),
        progressed_job(j, p).total_size_bytes == capped(j.total_size_bytes + p.counted_size_bytes),
        progressed_job(j, p).current_path == p.path@,
        progressed_job(j, p).id == j.id,
        progressed_job(j, p).path == j.path,
        progressed_job(j, p).status == j.status,
        progressed_job(j, p).paused == j.paused,
        progressed_job(j, p).cancelled == j.cancelled,
        progressed_job(j, p).result == j.result,
        progressed_job(j, p).error == j.error,
{
}

/// A new job that is sent the progress records `ps` counts, for each of files,
/// directories and skipped paths, the sum of the records' counts, and as its
/// size the sum of their counted sizes, each stopping at `u64::MAX`.
pub proof fn lemma_progress_sums(id: u64, path: Seq<char>, ps: Seq<ScanProgress>)
    ensures
        progressed_through(started_job(id, path), ps).file_count == capped(
            progress_total(ps, |p: ScanProgress| p.file_count),
        ),
        progressed_through(started_job(id, path), ps).directory_count == capped(
            progress_total(ps, |p: ScanProgress| p.directory_count),
        ),
        progressed_through(started_job(id, path), ps).skipped_count == capped(
            progress_total(ps, |p: ScanProgress| p.skipped_count),
        ),
        progressed_through(started_job(id, path), ps).total_size_bytes == capped(
            progress_total(ps, |p: ScanProgress| p.counted_size_bytes),
        ),
        progressed_through(started_job(id, path), ps).id == id,
        progressed_through(started_job(id, path), ps).status == ScanJobStatus::Running,
    decreases ps.len(),
{
    if ps.len() > 0 {
        lemma_progress_sums(id, path, ps.drop_last());
        let j = progressed_through(started_job(id, path), ps.drop_last());
        lemma_progress_adds_counts(j, ps.last());
        lemma_progress_total_nonneg(ps.drop_last(), |p: ScanProgress| p.file_count);
        lemma_progress_total_nonneg(ps.drop_last(), |p: ScanProgress| p.directory_count);
        lemma_progress_total_nonneg(ps.drop_last(), |p: ScanProgress| p.skipped_count);
        lemma_progress_total_nonneg(ps.drop_last(), |p: ScanProgress| p.counted_size_bytes);
    }
}

proof fn lemma_progress_total_nonneg(ps: Seq<ScanProgress>, count: spec_fn(ScanProgress) -> u64)
    ensures
        progress_total(ps, count) >= 0,
    decreases ps.len(),
{
    if ps.len() > 0 {
        lemma_progress_total_nonneg(ps.drop_last(), count);
    }
}

} // verus!

//! Single-flight coordination of library scans: at most one scan job is active at a time,
//! only that job can report progress or be cancelled, and finishing (or abandoning) the job's
//! lease releases the coordinator.
//!
//! The decisions are made by [`CoordinatorState`], a plain state machine whose transitions
//! carry exact contracts. [`ScanCoordinator`] shares one such state between threads behind a
//! verified reader-writer lock whose invariant is the state's well-formedness.
use std::sync::atomic::{AtomicBool, AtomicU64};
use std::sync::Arc;

use vstd::prelude::*;
use vstd::rwlock::{RwLock, RwLockPredicate};

use crate::text::{chars_of, concat, decimal, decimal_u128, decimal_u64, opt_string, string_of};

verus! {

// ---------------------------------------------------------------------------------------------
// Job status
// ---------------------------------------------------------------------------------------------

#[derive(Debug, Clone, Copy, PartialEq, Eq, Structural)]
pub enum ScanJobStatus {
    Idle,
    Running,
    Cancelling,
    Completed,
    Partial,
    Failed,
    Cancelled,
}

/// The lower-case name of a status, as reported to the frontend.
pub open spec fn status_name(s: ScanJobStatus) -> Seq<char> {
    match s {
        ScanJobStatus::Idle => "idle"@,
        ScanJobStatus::Running => "running"@,
        ScanJobStatus::Cancelling => "cancelling"@,
        ScanJobStatus::Completed => "completed"@,
        ScanJobStatus::Partial => "partial"@,
        ScanJobStatus::Failed => "failed"@,
        ScanJobStatus::Cancelled => "cancelled"@,
    }
}

/// Completed, partial, failed and cancelled jobs are over.
pub open spec fn status_is_terminal(s: ScanJobStatus) -> bool {
    s is Completed || s is Partial || s is Failed || s is Cancelled
}

impl ScanJobStatus {
    pub fn as_str(self) -> (res: &'static str)
        ensures
            res@ == status_name(self),
    {
        match self {
            ScanJobStatus::Idle => "idle",
            ScanJobStatus::Running => "running",
            ScanJobStatus::Cancelling => "cancelling",
            ScanJobStatus::Completed => "completed",
            ScanJobStatus::Partial => "partial",
            ScanJobStatus::Failed => "failed",
            ScanJobStatus::Cancelled => "cancelled",
        }
    }

    pub fn is_terminal(self) -> (res: bool)
        ensures
            res == status_is_terminal(self),
    {
        match self {
            ScanJobStatus::Completed | ScanJobStatus::Partial | ScanJobStatus::Failed
            | ScanJobStatus::Cancelled => true,
            _ => false,
        }
    }
}

// ---------------------------------------------------------------------------------------------
// Progress events and status snapshots
// ---------------------------------------------------------------------------------------------

#[derive(Debug, Clone, PartialEq, Eq)]
pub struct ScanProgressEvent {
    pub job_id: String,
    pub phase: String,
    pub current_root: Option<String>,
    pub source: Option<String>,
    pub processed: u64,
    pub total: Option<u64>,
    pub message: String,
    pub terminal: bool,
    pub status: ScanJobStatus,
    pub source_dir_count: i64,
    pub clip_group_count: i64,
    pub clip_file_count: i64,
}

#[derive(Debug, Clone, PartialEq, Eq)]
pub struct ScanStatus {
    pub job_id: Option<String>,
    pub phase: Option<String>,
    pub current_root: Option<String>,
    pub source: Option<String>,
    pub processed: u64,
    pub total: Option<u64>,
    pub message: String,
    pub terminal: bool,
    pub status: ScanJobStatus,
}

/// The snapshot reported while no scan has run yet.
pub open spec fn is_idle_status(s: ScanStatus) -> bool {
    &&& s.job_id is None
    &&& s.phase is None
    &&& s.current_root is None
    &&& s.source is None
    &&& s.processed == 0
    &&& s.total is None
    &&& s.message@ == "当前没有扫描任务"@
    &&& !s.terminal
    &&& s.status == ScanJobStatus::Idle
}

/// The snapshot of a job that has just started.
pub open spec fn is_running_status(s: ScanStatus, job_id: Seq<char>) -> bool {
    &&& opt_string(s.job_id) == Some(job_id)
    &&& opt_string(s.phase) == Some("starting"@)
    &&& s.current_root is None
    &&& s.source is None
    &&& s.processed == 0
    &&& s.total is None
    &&& s.message@ == "正在启动扫描任务"@
    &&& !s.terminal
    &&& s.status == ScanJobStatus::Running
}

/// Two snapshots carry the same values.
pub open spec fn same_status(a: ScanStatus, b: ScanStatus) -> bool {
    &&& opt_string(a.job_id) == opt_string(b.job_id)
    &&& opt_string(a.phase) == opt_string(b.phase)
    &&& opt_string(a.current_root) == opt_string(b.current_root)
    &&& opt_string(a.source) == opt_string(b.source)
    &&& a.processed == b.processed
    &&& a.total == b.total
    &&& a.message@ == b.message@
    &&& a.terminal == b.terminal
    &&& a.status == b.status
}

/// The snapshot that a progress event reports.
pub open spec fn status_of_event(s: ScanStatus, e: ScanProgressEvent) -> bool {
    &&& opt_string(s.job_id) == Some(e.job_id@)
    &&& opt_string(s.phase) == Some(e.phase@)
    &&& opt_string(s.current_root) == opt_string(e.current_root)
    &&& opt_string(s.source) == opt_string(e.source)
    &&& s.processed == e.processed
    &&& s.total == e.total
    &&& s.message@ == e.message@
    &&& s.terminal == e.terminal
    &&& s.status == e.status
}

fn copy_string(s: &String) -> (res: String)
    ensures
        res@ == s@,
{
    s.clone()
}

fn copy_opt_string(s: &Option<String>) -> (res: Option<String>)
    ensures
        opt_string(res) == opt_string(*s),
{
    match s {
        Some(v) => Some(v.clone()),
        None => None,
    }
}

impl ScanStatus {
    fn idle() -> (res: Self)
        ensures
            is_idle_status(res),
    {
        ScanStatus {
            job_id: None,
            phase: None,
            current_root: None,
            source: None,
            processed: 0,
            total: None,
            message: string_of(&chars_of("当前没有扫描任务")),
            terminal: false,
            status: ScanJobStatus::Idle,
        }
    }

    fn running(job_id: String) -> (res: Self)
        ensures
            is_running_status(res, job_id@),
    {
        ScanStatus {
            job_id: Some(job_id),
            phase: Some(string_of(&chars_of("starting"))),
            current_root: None,
            source: None,
            processed: 0,
            total: None,
            message: string_of(&chars_of("正在启动扫描任务")),
            terminal: false,
            status: ScanJobStatus::Running,
        }
    }

    fn from_event(event: &ScanProgressEvent) -> (res: Self)
        ensures
            status_of_event(res, *event),
    {
        ScanStatus {
            job_id: Some(copy_string(&event.job_id)),
            phase: Some(copy_string(&event.phase)),
            current_root: copy_opt_string(&event.current_root),
            source: copy_opt_string(&event.source),
            processed: event.processed,
            total: event.total,
            message: copy_string(&event.message),
            terminal: event.terminal,
            status: event.status,
        }
    }

    /// A copy of this snapshot.
    pub fn snapshot(&self) -> (res: Self)
        ensures
            same_status(res, *self),
    {
        ScanStatus {
            job_id: copy_opt_string(&self.job_id),
            phase: copy_opt_string(&self.phase),
            current_root: copy_opt_string(&self.current_root),
            source: copy_opt_string(&self.source),
            processed: self.processed,
            total: self.total,
            message: copy_string(&self.message),
            terminal: self.terminal,
            status: self.status,
        }
    }
}

#[derive(Debug, Clone, PartialEq, Eq)]
pub struct AlreadyRunning {
    pub job_id: String,
}

#[derive(Debug, Clone, PartialEq, Eq)]
pub struct CancelRequestOutcome {
    pub accepted: bool,
    pub reason: &'static str,
    pub active_job_id: Option<String>,
    pub status: ScanStatus,
}


// ---------------------------------------------------------------------------------------------
// The coordinator state machine
// ---------------------------------------------------------------------------------------------

/// The job that currently holds the coordinator.
pub struct ActiveScan {
    pub job_id: String,
    /// Set when someone asks the job to stop.
    pub cancellation: Arc<AtomicBool>,
    /// Set when the job's lease is dropped without being finished.
    pub abandoned: Arc<AtomicBool>,
}

pub struct CoordinatorState {
    pub active: Option<ActiveScan>,
    pub latest: ScanStatus,
}

/// The id of the job that holds the coordinator, if any.
pub open spec fn active_job(s: CoordinatorState) -> Option<Seq<char>> {
    match s.active {
        Some(a) => Some(a.job_id@),
        None => None,
    }
}

/// While a job is active, the latest snapshot describes that job.
pub open spec fn coordinator_wf(s: CoordinatorState) -> bool {
    active_job(s) is Some ==> opt_string(s.latest.job_id) == active_job(s)
}

/// `post` is `pre` after `job_id` was admitted.
pub open spec fn after_begin(pre: CoordinatorState, post: CoordinatorState, job_id: Seq<char>) -> bool {
    &&& pre.active is None
    &&& active_job(post) == Some(job_id)
    &&& is_running_status(post.latest, job_id)
}

/// `post` is `pre` after the active job reported `e`.
pub open spec fn after_event(pre: CoordinatorState, post: CoordinatorState, e: ScanProgressEvent) -> bool {
    &&& active_job(pre) == Some(e.job_id@)
    &&& post.active == pre.active
    &&& status_of_event(post.latest, e)
}

/// `post` is `pre` after the active job `job_id` was asked to stop.
pub open spec fn after_cancel(pre: CoordinatorState, post: CoordinatorState, job_id: Seq<char>) -> bool {
    &&& active_job(pre) == Some(job_id)
    &&& post.active == pre.active
    &&& post.latest.status == ScanJobStatus::Cancelling
    &&& opt_string(post.latest.phase) == Some("cancelling"@)
    &&& post.latest.message@ == "正在取消扫描"@
    &&& !post.latest.terminal
    &&& opt_string(post.latest.job_id) == opt_string(pre.latest.job_id)
    &&& opt_string(post.latest.current_root) == opt_string(pre.latest.current_root)
    &&& opt_string(post.latest.source) == opt_string(pre.latest.source)
    &&& post.latest.processed == pre.latest.processed
    &&& post.latest.total == pre.latest.total
}

/// `post` is `pre` after the active job `job_id` ended with `status` and `message`.
pub open spec fn after_finish(
    pre: CoordinatorState,
    post: CoordinatorState,
    job_id: Seq<char>,
    status: ScanJobStatus,
    message: Seq<char>,
) -> bool {
    &&& active_job(pre) == Some(job_id)
    &&& post.active is None
    &&& opt_string(post.latest.job_id) == Some(job_id)
    &&& post.latest.status == status
    &&& post.latest.terminal
    &&& post.latest.message@ == message
    &&& opt_string(post.latest.phase) == Some(status_name(status))
    &&& (opt_string(pre.latest.job_id) == Some(job_id) ==> {
        &&& opt_string(post.latest.current_root) == opt_string(pre.latest.current_root)
        &&& opt_string(post.latest.source) == opt_string(pre.latest.source)
        &&& post.latest.processed == pre.latest.processed
        &&& post.latest.total == pre.latest.total
    })
}

impl CoordinatorState {
    /// A coordinator that has never run a scan.
    pub fn new() -> (res: Self)
        ensures
            res.active is None,
            is_idle_status(res.latest),
            coordinator_wf(res),
    {
        CoordinatorState { active: None, latest: ScanStatus::idle() }
    }

    /// Admits `job_id` unless another job holds the coordinator, in which case that job's id is
    /// returned and nothing changes.
    pub fn begin(
        &mut self,
        job_id: String,
        cancellation: Arc<AtomicBool>,
        abandoned: Arc<AtomicBool>,
    ) -> (res: Result<(), AlreadyRunning>)
        requires
            coordinator_wf(*old(self)),
        ensures
            coordinator_wf(*final(self)),
            match res {
                Ok(()) => after_begin(*old(self), *final(self), job_id@),
                Err(conflict) => active_job(*old(self)) == Some(conflict.job_id@) && *final(self)
                    == *old(self),
            },
            res is Ok <==> old(self).active is None,
    {
        if let Some(active) = &self.active {
            return Err(AlreadyRunning { job_id: copy_string(&active.job_id) });
        }
        let latest = ScanStatus::running(copy_string(&job_id));
        self.active = Some(ActiveScan { job_id, cancellation, abandoned });
        self.latest = latest;
        Ok(())
    }

    /// Replaces the latest snapshot with `event` when the event belongs to the active job;
    /// events of any other job are ignored.
    pub fn record_event(&mut self, event: &ScanProgressEvent) -> (accepted: bool)
        requires
            coordinator_wf(*old(self)),
        ensures
            coordinator_wf(*final(self)),
            accepted == (active_job(*old(self)) == Some(event.job_id@)),
            accepted ==> after_event(*old(self), *final(self), *event),
            !accepted ==> *final(self) == *old(self),
    {
        let matches = match &self.active {
            Some(active) => active.job_id == event.job_id,
            None => false,
        };
        if !matches {
            return false;
        }
        self.latest = ScanStatus::from_event(event);
        true
    }

    /// Asks the active job to stop when `job_id` names it.
    pub fn request_cancel(&mut self, job_id: &str) -> (outcome: CancelRequestOutcome)
        requires
            coordinator_wf(*old(self)),
        ensures
            coordinator_wf(*final(self)),
            outcome.accepted == (active_job(*old(self)) == Some(job_id@)),
            outcome.accepted ==> {
                &&& after_cancel(*old(self), *final(self), job_id@)
                &&& outcome.reason@ == "accepted"@
                &&& opt_string(outcome.active_job_id) == Some(job_id@)
                &&& same_status(outcome.status, final(self).latest)
            },
            !outcome.accepted ==> {
                &&& *final(self) == *old(self)
                &&& same_status(outcome.status, old(self).latest)
                &&& opt_string(outcome.active_job_id) == active_job(*old(self))
                &&& (old(self).active is None ==> outcome.reason@ == "not-running"@)
                &&& (old(self).active is Some ==> outcome.reason@ == "job-mismatch"@)
            },
    {
        let requested = chars_of(job_id);
        let (matches, active_id) = match &self.active {
            None => {
                return CancelRequestOutcome {
                    accepted: false,
                    reason: "not-running",
                    active_job_id: None,
                    status: self.latest.snapshot(),
                };
            },
            Some(active) => {
                let id = chars_of(active.job_id.as_str());
                (crate::text::seq_eq(&id, &requested), copy_string(&active.job_id))
            },
        };
        if !matches {
            return CancelRequestOutcome {
                accepted: false,
                reason: "job-mismatch",
                active_job_id: Some(active_id),
                status: self.latest.snapshot(),
            };
        }
        if let Some(active) = &self.active {
            active.cancellation.store(true, std::sync::atomic::Ordering::Release);
        }
        self.latest.status = ScanJobStatus::Cancelling;
        self.latest.phase = Some(string_of(&chars_of("cancelling")));
        self.latest.message = string_of(&chars_of("正在取消扫描"));
        self.latest.terminal = false;
        CancelRequestOutcome {
            accepted: true,
            reason: "accepted",
            active_job_id: Some(string_of(&requested)),
            status: self.latest.snapshot(),
        }
    }

    /// Ends the active job `job_id` with a terminal `status`, releasing the coordinator; a
    /// `job_id` that is not active changes nothing.
    pub fn finish(&mut self, job_id: &str, status: ScanJobStatus, message: &str)
        requires
            coordinator_wf(*old(self)),
            status_is_terminal(status),
        ensures
            coordinator_wf(*final(self)),
            active_job(*old(self)) == Some(job_id@) ==> after_finish(
                *old(self),
                *final(self),
                job_id@,
                status,
                message@,
            ),
            active_job(*old(self)) != Some(job_id@) ==> *final(self) == *old(self),
    {
        let requested = chars_of(job_id);
        let matches = match &self.active {
            Some(active) => crate::text::seq_eq(&chars_of(active.job_id.as_str()), &requested),
            None => false,
        };
        if !matches {
            return;
        }
        self.active = None;
        let same_job = match &self.latest.job_id {
            Some(current) => crate::text::seq_eq(&chars_of(current.as_str()), &requested),
            None => false,
        };
        if !same_job {
            self.latest = ScanStatus::running(string_of(&requested));
        }
        self.latest.status = status;
        self.latest.terminal = true;
        self.latest.message = string_of(&chars_of(message));
        self.latest.phase = Some(string_of(&chars_of(status.as_str())));
    }
}


// ---------------------------------------------------------------------------------------------
// Laws of the state machine
// ---------------------------------------------------------------------------------------------

/// Once a job is admitted it holds the coordinator: every later `begin` is refused with that
/// job's id, and its snapshot is the one reported.
pub proof fn law_admitted_job_holds_coordinator(
    pre: CoordinatorState,
    post: CoordinatorState,
    job_id: Seq<char>,
)
    requires
        coordinator_wf(pre),
        after_begin(pre, post, job_id),
    ensures
        coordinator_wf(post),
        post.active is Some,
        active_job(post) == Some(job_id),
        opt_string(post.latest.job_id) == Some(job_id),
{
}

/// Progress of the active job and a cancellation request keep that job active.
pub proof fn law_progress_and_cancel_keep_the_job(
    pre: CoordinatorState,
    after_progress: CoordinatorState,
    e: ScanProgressEvent,
    after_cancelling: CoordinatorState,
)
    requires
        coordinator_wf(pre),
        after_event(pre, after_progress, e),
        after_cancel(pre, after_cancelling, e.job_id@),
    ensures
        active_job(after_progress) == active_job(pre),
        active_job(after_cancelling) == active_job(pre),
        coordinator_wf(after_progress),
        coordinator_wf(after_cancelling),
{
}

/// Finishing the admitted job releases the coordinator, so the next `begin` succeeds, and the
/// reported snapshot is that job's terminal one.
pub proof fn law_finish_releases_coordinator(
    pre: CoordinatorState,
    running: CoordinatorState,
    post: CoordinatorState,
    job_id: Seq<char>,
    status: ScanJobStatus,
    message: Seq<char>,
)
    requires
        coordinator_wf(pre),
        after_begin(pre, running, job_id),
        after_finish(running, post, job_id, status, message),
        status_is_terminal(status),
    ensures
        post.active is None,
        coordinator_wf(post),
        opt_string(post.latest.job_id) == Some(job_id),
        post.latest.terminal,
        post.latest.status == status,
        post.latest.processed == 0,
{
}

// ---------------------------------------------------------------------------------------------
// The shared coordinator
// ---------------------------------------------------------------------------------------------

/// The lock invariant of a [`ScanCoordinator`]: its state is well formed, and the job that
/// holds it has an id of the form [`format_job_id`] builds.
pub struct CoordinatorInvariant;

impl RwLockPredicate<CoordinatorState> for CoordinatorInvariant {
    open spec fn inv(self, v: CoordinatorState) -> bool {
        coordinator_wf(v) && active_id_is_job_id(v)
    }
}

/// The active job, if any, has an id `scan-<millis>-<sequence>`.
pub open spec fn active_id_is_job_id(s: CoordinatorState) -> bool {
    match active_job(s) {
        Some(id) => is_scan_job_id(id),
        None => true,
    }
}

/// `id` is `scan-<millis>-<sequence>`.
pub open spec fn is_job_id(id: Seq<char>, millis: nat, sequence: nat) -> bool {
    id == "scan-"@ + decimal(millis) + "-"@ + decimal(sequence)
}

/// `id` is `scan-<millis>-<sequence>` for some `millis` and `sequence`.
pub open spec fn is_scan_job_id(id: Seq<char>) -> bool {
    exists|millis: nat, sequence: nat| #[trigger] is_job_id(id, millis, sequence)
}

proof fn lemma_scan_job_id(id: Seq<char>, millis: nat, sequence: nat)
    requires
        is_job_id(id, millis, sequence),
    ensures
        is_scan_job_id(id),
{
}

/// Reads the system clock: `SystemTime::now()` measured from `UNIX_EPOCH`, in milliseconds, or 0
/// when the clock stands before the epoch. Nothing is claimed of the value: it is the time.
#[verifier::external_body]
fn unix_millis() -> (res: u128) {
    std::time::SystemTime::now()
        .duration_since(std::time::UNIX_EPOCH)
        .unwrap_or_default()
        .as_millis()
}

/// `AtomicBool::store(true, Release)` on `flag`, declared here as neither unwinding nor opening
/// invariants so that a lease's `drop` may call it.
#[verifier::external_body]
fn raise_flag(flag: &AtomicBool)
    opens_invariants none
    no_unwind
{
    flag.store(true, std::sync::atomic::Ordering::Release);
}

/// Builds `scan-<millis>-<sequence>`.
pub fn format_job_id(millis: u128, sequence: u64) -> (res: String)
    ensures
        is_job_id(res@, millis as nat, sequence as nat),
{
    let head = concat(&chars_of("scan-"), &decimal_u128(millis));
    let with_dash = concat(&head, &chars_of("-"));
    let all = concat(&with_dash, &decimal_u64(sequence));
    string_of(&all)
}

/// Shares one [`CoordinatorState`] between threads.
pub struct ScanCoordinator {
    next_job_id: AtomicU64,
    state: RwLock<CoordinatorState, CoordinatorInvariant>,
}

impl ScanCoordinator {
    #[verifier::type_invariant]
    spec fn valid(self) -> bool {
        self.state.pred() == CoordinatorInvariant
    }

    /// A coordinator that has never run a scan.
    pub fn new() -> (res: Self) {
        ScanCoordinator {
            next_job_id: AtomicU64::new(1),
            state: RwLock::new(CoordinatorState::new(), Ghost(CoordinatorInvariant)),
        }
    }

    /// The next job sequence number.
    fn take_sequence(&self) -> u64 {
        self.next_job_id.fetch_add(1, std::sync::atomic::Ordering::Relaxed)
    }

    /// Releases the coordinator when the active job's lease was dropped unfinished.
    fn reap_abandoned(state: &mut CoordinatorState)
        requires
            coordinator_wf(*old(state)),
        ensures
            coordinator_wf(*final(state)),
            final(state).active is None || *final(state) == *old(state),
    {
        let abandoned_id = match &state.active {
            Some(active) => {
                if active.abandoned.load(std::sync::atomic::Ordering::Acquire) {
                    Some(copy_string(&active.job_id))
                } else {
                    None
                }
            },
            None => None,
        };
        if let Some(id) = abandoned_id {
            state.finish(id.as_str(), ScanJobStatus::Failed, "扫描任务意外终止，互斥已释放");
        }
    }

    /// Starts a new job unless one is active; the conflict names the active job.
    pub fn begin(self: &Arc<Self>) -> (res: Result<ScanJobLease, AlreadyRunning>)
        ensures
            res is Ok ==> is_scan_job_id(res->Ok_0.id()),
            res is Err ==> is_scan_job_id(res->Err_0.job_id@),
    {
        proof {
            use_type_invariant(&**self);
        }
        let (mut state, handle) = self.state.acquire_write();
        let ghost held = state;
        assert(active_id_is_job_id(held));
        Self::reap_abandoned(&mut state);
        if let Some(active) = &state.active {
            let conflict = AlreadyRunning { job_id: copy_string(&active.job_id) };
            assert(active_job(held) == Some(conflict.job_id@));
            handle.release_write(state);
            return Err(conflict);
        }
        let sequence = self.take_sequence();
        let millis = unix_millis();
        let job_id = format_job_id(millis, sequence);
        assert(is_job_id(job_id@, millis as nat, sequence as nat));
        let cancellation = Arc::new(AtomicBool::new(false));
        let abandoned = Arc::new(AtomicBool::new(false));
        let admitted = state.begin(copy_string(&job_id), cancellation.clone(), abandoned.clone());
        proof {
            lemma_scan_job_id(job_id@, millis as nat, sequence as nat);
        }
        assert(active_job(state) == Some(job_id@));
        handle.release_write(state);
        let lease = ScanJobLease {
            coordinator: self.clone(),
            job_id,
            cancellation,
            abandoned,
            finished: false,
        };
        let res = Ok(lease);
        assert(res->Ok_0.id() == lease.id());
        res
    }

    /// A copy of the latest snapshot.
    pub fn status(&self) -> (res: ScanStatus)
    {
        proof {
            use_type_invariant(self);
        }
        let (mut state, handle) = self.state.acquire_write();
        Self::reap_abandoned(&mut state);
        let snapshot = state.latest.snapshot();
        handle.release_write(state);
        snapshot
    }

    /// Records `event` when it belongs to the active job.
    pub fn record_event(&self, event: &ScanProgressEvent) -> (accepted: bool)
    {
        proof {
            use_type_invariant(self);
        }
        let (mut state, handle) = self.state.acquire_write();
        Self::reap_abandoned(&mut state);
        let accepted = state.record_event(event);
        handle.release_write(state);
        accepted
    }

    /// Asks the active job to stop when `job_id` names it.
    pub fn request_cancel(&self, job_id: &str) -> (outcome: CancelRequestOutcome)
        ensures
            outcome.accepted ==> {
                &&& outcome.reason@ == "accepted"@
                &&& opt_string(outcome.active_job_id) == Some(job_id@)
                &&& outcome.status.status == ScanJobStatus::Cancelling
            },
            !outcome.accepted ==> {
                ||| outcome.reason@ == "not-running"@ && outcome.active_job_id is None
                ||| {
                    &&& outcome.reason@ == "job-mismatch"@
                    &&& outcome.active_job_id is Some
                    &&& outcome.active_job_id->Some_0@ != job_id@
                    &&& is_scan_job_id(outcome.active_job_id->Some_0@)
                }
            },
    {
        proof {
            use_type_invariant(self);
        }
        let (mut state, handle) = self.state.acquire_write();
        Self::reap_abandoned(&mut state);
        let outcome = state.request_cancel(job_id);
        handle.release_write(state);
        outcome
    }

    fn finish(&self, job_id: &str, status: ScanJobStatus, message: &str)
        requires
            status_is_terminal(status),
    {
        proof {
            use_type_invariant(self);
        }
        let (mut state, handle) = self.state.acquire_write();
        state.finish(job_id, status, message);
        handle.release_write(state);
    }
}

impl Default for ScanCoordinator {
    fn default() -> (res: Self) {
        ScanCoordinator::new()
    }
}

/// The right to run the active job; finishing it, or dropping it unfinished, releases the
/// coordinator.
pub struct ScanJobLease {
    coordinator: Arc<ScanCoordinator>,
    job_id: String,
    cancellation: Arc<AtomicBool>,
    abandoned: Arc<AtomicBool>,
    finished: bool,
}

impl ScanJobLease {
    pub closed spec fn id(&self) -> Seq<char> {
        self.job_id@
    }

    pub fn job_id(&self) -> (res: &str)
        ensures
            res@ == self.id(),
    {
        self.job_id.as_str()
    }

    /// The lease's own cancellation flag, the one the coordinator raises when a cancel request
    /// for this job is accepted.
    pub closed spec fn cancellation_flag(&self) -> Arc<AtomicBool> {
        self.cancellation
    }

    /// The flag that a cancellation request raises: the lease's own, shared, not a new one.
    pub fn cancellation(&self) -> (res: Arc<AtomicBool>)
        ensures
            res == self.cancellation_flag(),
    {
        self.cancellation.clone()
    }

    /// Ends the job with a terminal `status` and releases the coordinator.
    pub fn finish(self, status: ScanJobStatus, message: &str)
        requires
            status_is_terminal(status),
    {
        let mut lease = self;
        lease.coordinator.finish(lease.job_id.as_str(), status, message);
        lease.finished = true;
    }
}

impl Drop for ScanJobLease {
    fn drop(&mut self)
        opens_invariants none
        no_unwind
    {
        if !self.finished {
            raise_flag(&self.abandoned);
        }
    }
}

} // verus!

//! The dispatch protocol of a job, as decisions.
//!
//! Two parties share one tracker under a lock. A worker looks at the job
//! once per tick and hands fire events to a dispatcher; the dispatcher
//! claims the job, runs the callback and releases the job again. What each
//! of them does at one look is decided here; waiting, sending and the
//! callback itself are the caller's.

use crate::calendar::Instant;
use crate::calendar::Timestamp;
use crate::clock::local_now;
use crate::job::CronJob;
use crate::job::JobStatus;
use crate::job::JobView;
use vstd::prelude::*;

verus! {

/// What the worker hands to the dispatcher: an instant that came due, or the
/// word that the worker is leaving.
#[derive(Clone, Copy, Debug, PartialEq, Eq, Structural)]
pub enum FireEvent {
    Due(Timestamp),
    Stop,
}

/// What the worker does after one look at the job: the event to send, if
/// any, and whether to sleep and look again or to leave.
#[derive(Clone, Copy, Debug, PartialEq, Eq, Structural)]
pub struct WorkerStep {
    pub event: Option<FireEvent>,
    pub proceed: bool,
}

/// What the dispatcher does with an event that it received.
#[derive(Clone, Copy, Debug, PartialEq, Eq, Structural)]
pub enum DispatchStep {
    /// The job is claimed: run the callback for this instant, then release
    /// the job with the callback's answer.
    Invoke(Timestamp),
    /// Nothing to do for this event.
    Skip,
    /// The job is stopped: leave.
    Exit,
}

impl JobView {
    /// The job after the dispatcher has looked at it, and what the
    /// dispatcher is to do with `event`: an idle job is claimed for an
    /// instant that came due and is running from then on; a stopped job
    /// sends the dispatcher away; in every other case nothing happens.
    pub open spec fn dispatched(self, event: FireEvent) -> (JobView, DispatchStep) {
        match (self.status, event) {
            (JobStatus::Idle, FireEvent::Due(t)) => (
                JobView { status: JobStatus::Running, ..self },
                DispatchStep::Invoke(t),
            ),
            (JobStatus::Stopped, _) => (self, DispatchStep::Exit),
            _ => (self, DispatchStep::Skip),
        }
    }

    /// The job after the worker has looked at it at `now`: an idle job was
    /// asked for a due candidate; a job in any other status is as it was.
    pub open spec fn looked_at(self, now: Instant) -> JobView {
        if self.status == JobStatus::Idle {
            self.polled(now)
        } else {
            self
        }
    }

    /// Whether `step` and `after` are what one look of the worker at `now`
    /// decides and leaves. Only at an idle job the worker goes on, and it
    /// sends the candidate if that is due. At a stopped job it sends the word
    /// that it leaves; at a job inside the callback it sends nothing.
    pub open spec fn look_outcome(self, now: Instant, step: WorkerStep, after: JobView) -> bool {
        &&& after == self.looked_at(now)
        &&& step.proceed <==> self.status == JobStatus::Idle
        &&& match self.status {
            JobStatus::Idle => if self.due(now) {
                step.event matches Some(FireEvent::Due(t)) && t@ == self.candidate()
            } else {
                step.event is None
            },
            JobStatus::Stopped => step.event == Some(FireEvent::Stop),
            JobStatus::Running => step.event is None,
        }
    }

    /// The job after the callback has answered: stopped if it was stopped
    /// in the meantime or the callback asked for the end, else idle again.
    pub open spec fn released(self, keep_going: bool) -> JobView {
        JobView {
            status: if self.status == JobStatus::Stopped || !keep_going {
                JobStatus::Stopped
            } else {
                JobStatus::Idle
            },
            ..self
        }
    }
}

/// A job in the hands of the dispatch protocol.
pub struct JobTracker {
    job: CronJob,
}

impl View for JobTracker {
    type V = JobView;

    closed spec fn view(&self) -> JobView {
        self.job@
    }
}

impl JobTracker {
    /// Takes the job and moves its cursor to the first candidate that is not
    /// before the job's start.
    pub fn new(job: CronJob) -> (r: JobTracker)
        requires
            job@.wf(),
            job@.start.year < i32::MAX,
        ensures
            r@.sought(job@, job@.start),
    {
        let mut job = job;
        job.to_right_position();
        JobTracker { job }
    }

    /// The job.
    pub fn job(&self) -> (r: &CronJob)
        ensures
            r@ == self@,
    {
        &self.job
    }

    /// The job, to be changed in place: what the callback is given.
    pub fn job_mut(&mut self) -> (r: &mut CronJob)
        ensures
            r@ == old(self)@,
            final(self)@ == final(r)@,
    {
        &mut self.job
    }

    /// One look of the worker at the job, at the time `now`.
    ///
    /// An idle job hands out its candidate if it is due, and the worker goes
    /// on. A stopped job makes the worker send the word that it leaves, and
    /// leave. A job inside the callback makes the worker leave without a
    /// word.
    pub fn worker_step(&mut self, now: &Timestamp) -> (r: WorkerStep)
        requires
            old(self)@.wf(),
            old(self)@.status == JobStatus::Idle && old(self)@.due(now@)
                ==> old(self)@.next_tick().year <= i32::MAX,
        ensures
            final(self)@.wf(),
            old(self)@.look_outcome(now@, r, final(self)@),
    {
        match self.job.get_status() {
            JobStatus::Idle => match self.job.poll_due(now) {
                Some(t) => WorkerStep { event: Some(FireEvent::Due(t)), proceed: true },
                None => WorkerStep { event: None, proceed: true },
            },
            JobStatus::Stopped => WorkerStep { event: Some(FireEvent::Stop), proceed: false },
            JobStatus::Running => WorkerStep { event: None, proceed: false },
        }
    }

    /// One look of the worker at the job, at the time of the machine's
    /// clock. The outcome is that of [`JobTracker::worker_step`] at some
    /// instant of the calendar: the one that the clock showed.
    pub fn worker_tick(&mut self) -> (r: WorkerStep)
        requires
            old(self)@.wf(),
            old(self)@.status == JobStatus::Idle ==> old(self)@.next_tick().year <= i32::MAX,
        ensures
            final(self)@.wf(),
            exists|now: Instant|
                now.valid() && #[trigger] old(self)@.look_outcome(now, r, final(self)@),
    {
        let now = local_now();
        let r = self.worker_step(&now);
        assert(old(self)@.look_outcome(now@, r, self@));
        r
    }

    /// The dispatcher's decision on an event that it received.
    ///
    /// An idle job is claimed for an instant that came due: it is running
    /// from now on, until it is released. A stopped job makes the dispatcher
    /// leave. In every other case nothing happens.
    pub fn begin_dispatch(&mut self, event: FireEvent) -> (r: DispatchStep)
        ensures
            (final(self)@, r) == old(self)@.dispatched(event),
    {
        match self.job.get_status() {
            JobStatus::Idle => match event {
                FireEvent::Due(t) => {
                    self.job.set_status(JobStatus::Running);
                    DispatchStep::Invoke(t)
                },
                FireEvent::Stop => DispatchStep::Skip,
            },
            JobStatus::Stopped => DispatchStep::Exit,
            JobStatus::Running => DispatchStep::Skip,
        }
    }

    /// Releases the job after the callback has answered `keep_going`: the
    /// job is idle again, unless the callback asked for the end or the job
    /// was stopped in the meantime. A stopped job stays stopped.
    pub fn end_dispatch(&mut self, keep_going: bool)
        ensures
            final(self)@ == old(self)@.released(keep_going),
    {
        match self.job.get_status() {
            JobStatus::Stopped => {},
            _ => {
                if keep_going {
                    self.job.set_status(JobStatus::Idle);
                } else {
                    self.job.set_status(JobStatus::Stopped);
                }
            },
        }
    }
}

/// A job that the dispatcher has claimed is not claimed again before it is
/// released: whatever event comes next, the dispatcher skips it. So of the
/// callbacks that one tracker's claims start, no two run at a time.
pub proof fn lemma_claimed_job_is_not_claimed_again(
    job: JobView,
    first: FireEvent,
    second: FireEvent,
)
    requires
        job.dispatched(first).1 is Invoke,
    ensures
        job.dispatched(first).0.status == JobStatus::Running,
        job.dispatched(first).0.dispatched(second) == (job.dispatched(first).0, DispatchStep::Skip),
{
}

/// A stopped job stays stopped through every decision of the protocol: the
/// worker and the dispatcher leave it as it is, and a release does not
/// revive it.
pub proof fn lemma_stopped_is_absorbing(
    job: JobView,
    now: Instant,
    event: FireEvent,
    keep_going: bool,
)
    requires
        job.status == JobStatus::Stopped,
    ensures
        job.looked_at(now) == job,
        job.dispatched(event) == (job, DispatchStep::Exit),
        job.released(keep_going) == job,
{
}

/// A callback that asks for the end stops the job, whatever its status was.
pub proof fn lemma_refusal_stops_the_job(job: JobView)
    ensures
        job.released(false).status == JobStatus::Stopped,
{
}

} // verus!

//! The cron job: field sets, the cursor on the next instant to fire, and the
//! life-cycle status.

use crate::calendar::day_after;
use crate::calendar::days_in_month;
use crate::calendar::lemma_day_after_is_successor;
use crate::calendar::valid_date;
use crate::calendar::Instant;
use crate::calendar::Timestamp;
use crate::clock::local_now;
use crate::field::chars_of;
use crate::field::expression_fields;
use crate::field::ints;
use crate::field::is_field_set;
use crate::field::lists;
use crate::field::parse_expression;
use crate::field::strictly_increasing;
use crate::field::CronError;
use crate::field::Schedule;
use crate::field::Unit;
use vstd::prelude::*;

verus! {

/// Where a job stands in its life: waiting for its next instant, inside the
/// callback, or stopped for good.
#[derive(Clone, Copy, Debug, PartialEq, Eq, Structural)]
pub enum JobStatus {
    Idle,
    Running,
    Stopped,
}

/// The mathematical value of a [`CronJob`].
///
/// `seconds`, `minutes` and `hours` are the field sets. `cur_second`,
/// `cur_minute` and `cur_hour` are the cursor's indices into them, and
/// `day`, `month`, `year` its calendar day. `start` is the instant before
/// which the job does not fire.
pub struct JobView {
    pub expression: Seq<char>,
    pub status: JobStatus,
    pub seconds: Seq<int>,
    pub minutes: Seq<int>,
    pub hours: Seq<int>,
    pub cur_second: int,
    pub cur_minute: int,
    pub cur_hour: int,
    pub day: int,
    pub month: int,
    pub year: int,
    pub start: Instant,
}

impl JobView {
    /// The field sets are field sets of their units, each index of the cursor
    /// lies inside its field set, and the cursor's day and the start are on
    /// the calendar.
    pub open spec fn wf(self) -> bool {
        &&& is_field_set(self.seconds, Unit::Second.span())
        &&& is_field_set(self.minutes, Unit::Minute.span())
        &&& is_field_set(self.hours, Unit::Hour.span())
        &&& 0 <= self.cur_second < self.seconds.len()
        &&& 0 <= self.cur_minute < self.minutes.len()
        &&& 0 <= self.cur_hour < self.hours.len()
        &&& valid_date(self.year, self.month, self.day)
        &&& self.start.valid()
    }

    /// The instant that the cursor points at: the next one to fire.
    pub open spec fn candidate(self) -> Instant {
        Instant {
            year: self.year,
            month: self.month,
            day: self.day,
            hour: self.hours[self.cur_hour],
            minute: self.minutes[self.cur_minute],
            second: self.seconds[self.cur_second],
        }
    }

    /// Whether the schedule matches the instant `t`: a day of the calendar,
    /// at an hour, a minute and a second of the field sets.
    pub open spec fn fires_at(self, t: Instant) -> bool {
        &&& t.valid()
        &&& self.hours.contains(t.hour)
        &&& self.minutes.contains(t.minute)
        &&& self.seconds.contains(t.second)
    }

    /// Whether the candidate is due at `now`: it is not later than `now`.
    pub open spec fn due(self, now: Instant) -> bool {
        !now.lt(self.candidate())
    }

    /// The job with the cursor's day moved on by one day.
    pub open spec fn next_day(self) -> JobView {
        let d = day_after(self.year, self.month, self.day);
        JobView { year: d.0, month: d.1, day: d.2, ..self }
    }

    /// The job with the cursor moved on by one step: the second moves on;
    /// from the last second the minute does and the second starts again; from
    /// the last minute the hour does; from the last hour the day does.
    pub open spec fn next_tick(self) -> JobView {
        if self.cur_second != self.seconds.len() - 1 {
            JobView { cur_second: self.cur_second + 1, ..self }
        } else if self.cur_minute != self.minutes.len() - 1 {
            JobView { cur_second: 0, cur_minute: self.cur_minute + 1, ..self }
        } else if self.cur_hour != self.hours.len() - 1 {
            JobView { cur_second: 0, cur_minute: 0, cur_hour: self.cur_hour + 1, ..self }
        } else {
            JobView { cur_second: 0, cur_minute: 0, cur_hour: 0, ..self.next_day() }
        }
    }

    /// The job after it was asked at `now` for a due candidate: one step on
    /// if the candidate was due, else as it was.
    pub open spec fn polled(self, now: Instant) -> JobView {
        if self.due(now) {
            self.next_tick()
        } else {
            self
        }
    }

    /// Whether `handed` and `after` are what a poll at `now` hands out and
    /// leaves: the candidate if and only if it is due, and the job one step
    /// on in that case, else as it was.
    pub open spec fn poll_outcome(
        self,
        now: Instant,
        handed: Option<Timestamp>,
        after: JobView,
    ) -> bool {
        &&& handed is Some <==> self.due(now)
        &&& handed matches Some(t) ==> t@ == self.candidate()
        &&& after == self.polled(now)
    }

    /// Whether this is the job `from` with the cursor moved forward to the
    /// first candidate that is not before `anchor`: the candidate is at or
    /// after `anchor` and after no instant at or after `anchor` at which the
    /// schedule fires from the candidate of `from` on.
    pub open spec fn sought(self, from: JobView, anchor: Instant) -> bool {
        &&& self.wf()
        &&& from.same_job(self)
        &&& anchor.le(self.candidate())
        &&& from.candidate().le(self.candidate())
        &&& forall|t: Instant|
            #[trigger] from.fires_at(t) && from.candidate().le(t) && anchor.le(t)
                ==> self.candidate().le(t)
    }

    /// Whether `other` is this job with the cursor somewhere else.
    pub open spec fn same_job(self, other: JobView) -> bool {
        other == (JobView {
            cur_second: other.cur_second,
            cur_minute: other.cur_minute,
            cur_hour: other.cur_hour,
            day: other.day,
            month: other.month,
            year: other.year,
            ..self
        })
    }

    /// Whether this is the job as it is built from the expression `exp`:
    /// idle, with the field sets that `exp` selects, and the cursor on the
    /// first candidate of the day of the start.
    pub open spec fn fresh(self, exp: Seq<char>) -> bool {
        &&& self.expression == exp
        &&& self.status == JobStatus::Idle
        &&& expression_fields(exp) matches Some(fields) && lists(self.seconds, fields.seconds)
            && lists(self.minutes, fields.minutes) && lists(self.hours, fields.hours)
        &&& self.cur_second == 0
        &&& self.cur_minute == 0
        &&& self.cur_hour == 0
        &&& self.day == self.start.day
        &&& self.month == self.start.month
        &&& self.year == self.start.year
    }
}

/// In a strictly increasing sequence that holds `v`, `v` lies between the
/// first and the last value, and if it is greater than the value at `i`, it
/// is at least the one that follows.
pub proof fn lemma_increasing_neighbours(s: Seq<int>, i: int, v: int)
    requires
        strictly_increasing(s),
        0 <= i < s.len(),
        s.contains(v),
    ensures
        s[0] <= v <= s[s.len() - 1],
        v > s[i] ==> i + 1 < s.len() && s[i + 1] <= v,
{
    let k = choose|k: int| 0 <= k < s.len() && s[k] == v;
    if 0 < k {
        assert(s[0] < s[k]);
    }
    if k < s.len() - 1 {
        assert(s[k] < s[s.len() - 1]);
    }
    if v > s[i] {
        if k < i {
            assert(s[k] < s[i]);
        }
        if i + 1 < k {
            assert(s[i + 1] < s[k]);
        }
    }
}

/// A step of the cursor leaves a well-formed job well-formed, with its
/// candidate an instant at which the schedule fires.
pub proof fn lemma_next_tick_wf(job: JobView)
    requires
        job.wf(),
    ensures
        job.next_tick().wf(),
        job.same_job(job.next_tick()),
        job.fires_at(job.candidate()),
        job.fires_at(job.next_tick().candidate()),
{
    lemma_day_after_is_successor(job.year, job.month, job.day);
    let next = job.next_tick();
    assert(job.hours[job.cur_hour] == job.candidate().hour);
    assert(job.minutes[job.cur_minute] == job.candidate().minute);
    assert(job.seconds[job.cur_second] == job.candidate().second);
    assert(next.hours[next.cur_hour] == next.candidate().hour);
    assert(next.minutes[next.cur_minute] == next.candidate().minute);
    assert(next.seconds[next.cur_second] == next.candidate().second);
}

/// A step of the cursor moves the candidate to a strictly later instant.
pub proof fn lemma_next_tick_later(job: JobView)
    requires
        job.wf(),
    ensures
        job.candidate().lt(job.next_tick().candidate()),
{
    lemma_day_after_is_successor(job.year, job.month, job.day);
}

/// A step of the cursor skips nothing: no instant at which the schedule
/// fires lies strictly between the candidate and the one after the step.
pub proof fn lemma_next_tick_skips_nothing(job: JobView, t: Instant)
    requires
        job.wf(),
        job.fires_at(t),
        job.candidate().lt(t),
    ensures
        job.next_tick().candidate().le(t),
{
    lemma_day_after_is_successor(job.year, job.month, job.day);
    lemma_increasing_neighbours(job.seconds, job.cur_second, t.second);
    lemma_increasing_neighbours(job.minutes, job.cur_minute, t.minute);
    lemma_increasing_neighbours(job.hours, job.cur_hour, t.hour);
    assert(valid_date(t.year, t.month, t.day));
}

/// The candidate tells where the cursor stands: two positions of the cursor
/// of one job with the same candidate are the same position.
pub proof fn lemma_candidate_fixes_cursor(a: JobView, b: JobView)
    requires
        a.wf(),
        b.wf(),
        a.same_job(b),
        a.candidate() == b.candidate(),
    ensures
        a == b,
{
    lemma_index_of_value(a.seconds, a.cur_second, b.cur_second);
    lemma_index_of_value(a.minutes, a.cur_minute, b.cur_minute);
    lemma_index_of_value(a.hours, a.cur_hour, b.cur_hour);
}

/// There is one first candidate at or after an anchor: two jobs that were
/// both sought from the same job to the same anchor are the same.
pub proof fn lemma_sought_is_unique(a: JobView, b: JobView, from: JobView, anchor: Instant)
    requires
        from.wf(),
        a.sought(from, anchor),
        b.sought(from, anchor),
    ensures
        a == b,
{
    lemma_next_tick_wf(a);
    lemma_next_tick_wf(b);
    assert(from.fires_at(a.candidate()));
    assert(from.fires_at(b.candidate()));
    assert(a.candidate().le(b.candidate()));
    assert(b.candidate().le(a.candidate()));
    lemma_candidate_fixes_cursor(a, b);
}

/// A cursor that is not before the anchor is where a search for the anchor
/// ends: the search does not move it.
pub proof fn lemma_sought_stays(job: JobView, anchor: Instant)
    requires
        job.wf(),
        anchor.le(job.candidate()),
    ensures
        job.sought(job, anchor),
{
}

/// A strictly increasing sequence holds each value at one index only.
pub proof fn lemma_index_of_value(s: Seq<int>, i: int, j: int)
    requires
        strictly_increasing(s),
        0 <= i < s.len(),
        0 <= j < s.len(),
        s[i] == s[j],
    ensures
        i == j,
{
    if i < j {
        assert(s[i] < s[j]);
    }
    if j < i {
        assert(s[j] < s[i]);
    }
}

/// A job of a schedule: the expression it was built from, its field sets,
/// the cursor on the next instant to fire, its status, and the start before
/// which it does not fire.
pub struct CronJob {
    expression: String,
    status: JobStatus,
    schedule: Schedule,
    cur_second: usize,
    cur_minute: usize,
    cur_hour: usize,
    cur_day: u32,
    cur_month: u32,
    cur_year: i32,
    start_time: Timestamp,
}

impl View for CronJob {
    type V = JobView;

    closed spec fn view(&self) -> JobView {
        JobView {
            expression: self.expression@,
            status: self.status,
            seconds: ints(self.schedule.second@),
            minutes: ints(self.schedule.minute@),
            hours: ints(self.schedule.hour@),
            cur_second: self.cur_second as int,
            cur_minute: self.cur_minute as int,
            cur_hour: self.cur_hour as int,
            day: self.cur_day as int,
            month: self.cur_month as int,
            year: self.cur_year as int,
            start: self.start_time@,
        }
    }
}

impl CronJob {
    /// Builds the job of the expression `exp`, started now: the start is the
    /// local time of the machine's clock.
    ///
    /// Fails exactly if `exp` is no schedule expression.
    pub fn new(exp: String) -> (r: Result<CronJob, CronError>)
        ensures
            r is Ok <==> expression_fields(exp@) is Some,
            r matches Ok(job) ==> job@.wf() && job@.fresh(exp@) && -262144 <= job@.start.year
                <= 262143,
    {
        let now = local_now();
        CronJob::with_start(exp, now)
    }

    /// Builds the job of the expression `exp` with the start `start`.
    ///
    /// Fails exactly if `exp` is no schedule expression.
    pub fn with_start(exp: String, start: Timestamp) -> (r: Result<CronJob, CronError>)
        ensures
            r is Ok <==> expression_fields(exp@) is Some,
            r matches Ok(job) ==> job@.wf() && job@.fresh(exp@) && job@.start == start@,
    {
        proof {
            use_type_invariant(&start);
        }
        let chars = chars_of(exp.as_str());
        match parse_expression(chars.as_slice()) {
            Err(e) => Err(e),
            Ok(schedule) => Ok(
                CronJob {
                    expression: exp,
                    status: JobStatus::Idle,
                    schedule,
                    cur_second: 0,
                    cur_minute: 0,
                    cur_hour: 0,
                    cur_day: start.day(),
                    cur_month: start.month(),
                    cur_year: start.year(),
                    start_time: start,
                },
            ),
        }
    }

    /// The expression that the job was built from.
    pub fn get_expression(&self) -> (r: String)
        ensures
            r@ == self@.expression,
    {
        self.expression.clone()
    }

    /// The field sets of the job.
    pub fn schedule(&self) -> (r: &Schedule)
        ensures
            ints(r.second@) == self@.seconds,
            ints(r.minute@) == self@.minutes,
            ints(r.hour@) == self@.hours,
    {
        &self.schedule
    }

    /// The start of the job: no instant before it fires.
    pub fn start_time(&self) -> (r: Timestamp)
        ensures
            r@ == self@.start,
    {
        self.start_time
    }

    /// The instant that the cursor points at.
    pub fn render(&self) -> (r: Timestamp)
        requires
            self@.wf(),
        ensures
            r@ == self@.candidate(),
    {
        let hour: u32 = self.schedule.hour[self.cur_hour];
        let minute: u32 = self.schedule.minute[self.cur_minute];
        let second: u32 = self.schedule.second[self.cur_second];
        assert(self@.hours[self@.cur_hour] == hour);
        assert(self@.minutes[self@.cur_minute] == minute);
        assert(self@.seconds[self@.cur_second] == second);
        Timestamp::new(self.cur_year, self.cur_month, self.cur_day, hour, minute, second).unwrap()
    }

    /// Whether the cursor can take one more step: the step would not leave
    /// the years that the machine can count.
    pub fn can_advance(&self) -> (r: bool)
        requires
            self@.wf(),
        ensures
            r == (self@.next_tick().year <= i32::MAX),
    {
        self.cur_year < i32::MAX || self.cur_second != self.schedule.second.len() - 1
            || self.cur_minute != self.schedule.minute.len() - 1 || self.cur_hour
            != self.schedule.hour.len() - 1 || self.cur_month < 12 || self.cur_day < days_in_month(
            self.cur_month,
            self.cur_year,
        )
    }

    /// Moves the cursor's day on by one day: into the next month after the
    /// last day of a month, into the next year after the last day of a year.
    pub fn next_day(&mut self)
        requires
            old(self)@.wf(),
            old(self)@.next_day().year <= i32::MAX,
        ensures
            final(self)@ == old(self)@.next_day(),
            final(self)@.wf(),
    {
        proof {
            lemma_day_after_is_successor(self@.year, self@.month, self@.day);
        }
        if self.cur_day >= days_in_month(self.cur_month, self.cur_year) {
            if self.cur_month >= 12 {
                self.cur_year += 1;
                self.cur_month = 1;
                self.cur_day = 1;
            } else {
                self.cur_month += 1;
                self.cur_day = 1;
            }
        } else {
            self.cur_day += 1;
        }
    }

    /// Moves the cursor to the next candidate: the next instant at which the
    /// schedule fires. The candidate becomes strictly later.
    pub fn next_tick(&mut self)
        requires
            old(self)@.wf(),
            old(self)@.next_tick().year <= i32::MAX,
        ensures
            final(self)@ == old(self)@.next_tick(),
            final(self)@.wf(),
            old(self)@.candidate().lt(final(self)@.candidate()),
            forall|t: Instant|
                #[trigger] old(self)@.fires_at(t) && old(self)@.candidate().lt(t)
                    ==> final(self)@.candidate().le(t),
    {
        proof {
            lemma_next_tick_wf(self@);
            lemma_next_tick_later(self@);
            let next = self@.next_tick();
            assert forall|t: Instant|
                #[trigger] self@.fires_at(t) && self@.candidate().lt(t) implies next.candidate().le(
                t,
            ) by {
                lemma_next_tick_skips_nothing(self@, t);
            }
        }
        if self.cur_second == self.schedule.second.len() - 1 {
            if self.cur_minute == self.schedule.minute.len() - 1 {
                if self.cur_hour == self.schedule.hour.len() - 1 {
                    self.next_day();
                    self.cur_hour = 0;
                    self.cur_minute = 0;
                    self.cur_second = 0;
                } else {
                    self.cur_hour += 1;
                    self.cur_minute = 0;
                    self.cur_second = 0;
                }
            } else {
                self.cur_minute += 1;
                self.cur_second = 0;
            }
        } else {
            self.cur_second += 1;
        }
    }

    /// Hands out the candidate if it is due at `now`, and moves the cursor
    /// on by one step; if the candidate is later than `now`, nothing changes.
    ///
    /// Each call hands out one candidate at most. After a pause in which
    /// several candidates came due, repeated calls hand them out one by one,
    /// in order, and skip none.
    pub fn poll_due(&mut self, now: &Timestamp) -> (r: Option<Timestamp>)
        requires
            old(self)@.wf(),
            old(self)@.due(now@) ==> old(self)@.next_tick().year <= i32::MAX,
        ensures
            final(self)@.wf(),
            old(self)@.poll_outcome(now@, r, final(self)@),
    {
        let dt = self.render();
        if now.is_before(&dt) {
            None
        } else {
            self.next_tick();
            Some(dt)
        }
    }

    /// Hands out the candidate if it is due by the machine's clock, and moves
    /// the cursor on by one step; else nothing changes. The outcome is that
    /// of [`CronJob::poll_due`] at some instant of the calendar: the one that
    /// the clock showed.
    pub fn next(&mut self) -> (r: Option<Timestamp>)
        requires
            old(self)@.wf(),
            old(self)@.next_tick().year <= i32::MAX,
        ensures
            final(self)@.wf(),
            exists|now: Instant|
                now.valid() && #[trigger] old(self)@.poll_outcome(now, r, final(self)@),
    {
        let now = local_now();
        let r = self.poll_due(&now);
        assert(old(self)@.poll_outcome(now@, r, self@));
        r
    }

    /// Moves the cursor to the first candidate that is not before the start:
    /// the job will not fire for an instant that had passed when it began. A
    /// cursor that is there already stays.
    pub fn to_right_position(&mut self)
        requires
            old(self)@.wf(),
            old(self)@.start.year < i32::MAX,
        ensures
            final(self)@.sought(old(self)@, old(self)@.start),
    {
        let start = self.start_time;
        let mut dt = self.render();
        while dt.is_before(&start)
            invariant
                self@.wf(),
                old(self)@.same_job(self@),
                start@ == self@.start,
                start@.year < i32::MAX,
                dt@ == self@.candidate(),
                old(self)@.candidate().le(self@.candidate()),
                forall|t: Instant|
                    #[trigger] old(self)@.fires_at(t) && old(self)@.candidate().le(t)
                        && start@.le(t) ==> self@.candidate().le(t),
            decreases
                start@.year + 1 - self@.year,
                12 - self@.month,
                31 - self@.day,
                self@.hours.len() - self@.cur_hour,
                self@.minutes.len() - self@.cur_minute,
                self@.seconds.len() - self@.cur_second,
        {
            let ghost before = self@;
            proof {
                lemma_next_tick_wf(before);
            }
            self.next_tick();
            dt = self.render();
            proof {
                assert forall|t: Instant|
                    #[trigger] old(self)@.fires_at(t) && old(self)@.candidate().le(t) && start@.le(
                        t,
                    ) implies self@.candidate().le(t) by {
                    assert(before.candidate().le(t));
                    assert(before.fires_at(t));
                    assert(before.candidate().lt(t));
                }
            }
        }
    }

    /// Requests the end of the job.
    pub fn stop(&mut self)
        ensures
            final(self)@ == (JobView { status: JobStatus::Stopped, ..old(self)@ }),
    {
        self.status = JobStatus::Stopped;
    }

    /// The status of the job.
    pub fn get_status(&self) -> (r: JobStatus)
        ensures
            r == self@.status,
    {
        self.status
    }

    /// Sets the status of the job.
    pub fn set_status(&mut self, status: JobStatus)
        ensures
            final(self)@ == (JobView { status: status, ..old(self)@ }),
    {
        self.status = status;
    }
}

} // verus!

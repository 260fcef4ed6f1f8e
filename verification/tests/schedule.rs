use cronjob::CronError;
use cronjob::CronJob;
use cronjob::JobStatus;
use cronjob::JobTracker;
use cronjob::Timestamp;

fn at(year: i32, month: u32, day: u32, hour: u32, minute: u32, second: u32) -> Timestamp {
    Timestamp::new(year, month, day, hour, minute, second).unwrap()
}

fn job(exp: &str, start: Timestamp) -> CronJob {
    CronJob::with_start(String::from(exp), start).unwrap()
}

#[test]
fn new_job_is_idle_on_the_first_candidate_of_the_start_day() {
    let start = at(2024, 3, 15, 10, 20, 30);
    let j = job("02,59 39 17", start);
    assert_eq!(j.get_status(), JobStatus::Idle);
    assert_eq!(j.get_expression(), "02,59 39 17");
    assert_eq!(j.start_time(), start);
    assert_eq!(j.schedule().second, vec![2, 59]);
    assert_eq!(j.schedule().minute, vec![39]);
    assert_eq!(j.schedule().hour, vec![17]);
    assert_eq!(j.render(), at(2024, 3, 15, 17, 39, 2));
}

#[test]
fn new_job_sorts_its_field_sets() {
    let j = job("59,02,02 5,4 23,0", at(2024, 3, 15, 0, 0, 0));
    assert_eq!(j.schedule().second, vec![2, 59]);
    assert_eq!(j.schedule().minute, vec![4, 5]);
    assert_eq!(j.schedule().hour, vec![0, 23]);
    assert_eq!(j.render(), at(2024, 3, 15, 0, 4, 2));
}

#[test]
fn malformed_expression_builds_no_job() {
    let start = at(2024, 3, 15, 0, 0, 0);
    for exp in ["", "0 0", "x 0 0", "0 0 24", "60 * *", "1,,2 * *"] {
        assert!(matches!(
            CronJob::with_start(String::from(exp), start),
            Err(CronError::InvalidExpression)
        ));
        assert!(matches!(CronJob::new(String::from(exp)), Err(CronError::InvalidExpression)));
    }
}

#[test]
fn new_job_starts_at_the_clock() {
    let j = CronJob::new(String::from("* * *")).unwrap();
    let start = j.start_time();
    assert!(start.year() >= 2024);
    assert!(1 <= start.month() && start.month() <= 12);
    assert!(1 <= start.day() && start.day() <= 31);
    assert!(start.hour() < 24 && start.minute() < 60 && start.second() < 60);
    assert_eq!(j.get_status(), JobStatus::Idle);
    assert_eq!(j.render(), at(start.year(), start.month(), start.day(), 0, 0, 0));
}

#[test]
fn next_day_rolls_over_february_in_a_common_year() {
    let mut j = job("0 0 0", at(2023, 2, 28, 0, 0, 0));
    j.next_day();
    assert_eq!(j.render(), at(2023, 3, 1, 0, 0, 0));
}

#[test]
fn next_day_keeps_february_in_a_leap_year() {
    let mut j = job("0 0 0", at(2024, 2, 28, 0, 0, 0));
    j.next_day();
    assert_eq!(j.render(), at(2024, 2, 29, 0, 0, 0));
    j.next_day();
    assert_eq!(j.render(), at(2024, 3, 1, 0, 0, 0));
}

#[test]
fn next_day_rolls_over_the_year() {
    let mut j = job("0 0 0", at(2023, 12, 31, 0, 0, 0));
    j.next_day();
    assert_eq!(j.render(), at(2024, 1, 1, 0, 0, 0));
}

#[test]
fn next_day_rolls_over_each_month() {
    let ends = [(1, 31), (3, 31), (4, 30), (5, 31), (6, 30), (7, 31), (8, 31), (9, 30), (10, 31),
        (11, 30)];
    for (month, last) in ends {
        let mut j = job("0 0 0", at(2023, month, last - 1, 0, 0, 0));
        j.next_day();
        assert_eq!(j.render(), at(2023, month, last, 0, 0, 0));
        j.next_day();
        assert_eq!(j.render(), at(2023, month + 1, 1, 0, 0, 0));
    }
}

#[test]
fn next_day_walks_a_whole_year() {
    let mut j = job("0 0 0", at(2024, 1, 1, 0, 0, 0));
    for _ in 0..366 {
        j.next_day();
    }
    assert_eq!(j.render(), at(2025, 1, 1, 0, 0, 0));
    for _ in 0..365 {
        j.next_day();
    }
    assert_eq!(j.render(), at(2026, 1, 1, 0, 0, 0));
}

#[test]
fn next_tick_carries_from_seconds_to_minutes_to_hours_to_days() {
    let mut j = job("10,20 5,6 7,8", at(2024, 2, 29, 0, 0, 0));
    let expected = [
        at(2024, 2, 29, 7, 5, 10),
        at(2024, 2, 29, 7, 5, 20),
        at(2024, 2, 29, 7, 6, 10),
        at(2024, 2, 29, 7, 6, 20),
        at(2024, 2, 29, 8, 5, 10),
        at(2024, 2, 29, 8, 5, 20),
        at(2024, 2, 29, 8, 6, 10),
        at(2024, 2, 29, 8, 6, 20),
        at(2024, 3, 1, 7, 5, 10),
    ];
    for t in expected {
        assert_eq!(j.render(), t);
        j.next_tick();
    }
}

#[test]
fn next_tick_makes_the_candidate_strictly_later() {
    let mut j = job("0,30 0,15,30,45 0,6,12,18", at(2023, 12, 30, 0, 0, 0));
    let mut before = j.render();
    for _ in 0..200 {
        j.next_tick();
        let after = j.render();
        assert!(before.is_before(&after));
        assert!(before < after);
        before = after;
    }
    assert_eq!(before.year(), 2024);
}

#[test]
fn next_tick_visits_every_second_with_stars() {
    let mut j = job("* * *", at(2023, 12, 31, 0, 0, 0));
    for _ in 0..86399 {
        j.next_tick();
    }
    assert_eq!(j.render(), at(2023, 12, 31, 23, 59, 59));
    j.next_tick();
    assert_eq!(j.render(), at(2024, 1, 1, 0, 0, 0));
}

#[test]
fn two_fires_a_day_in_order() {
    let mut j = job("02,59 39 17", at(2024, 5, 1, 0, 0, 0));
    let mut fired = Vec::new();
    let end_of_second_day = at(2024, 5, 2, 23, 59, 59);
    while let Some(t) = j.poll_due(&end_of_second_day) {
        fired.push(t);
    }
    assert_eq!(
        fired,
        vec![
            at(2024, 5, 1, 17, 39, 2),
            at(2024, 5, 1, 17, 39, 59),
            at(2024, 5, 2, 17, 39, 2),
            at(2024, 5, 2, 17, 39, 59),
        ]
    );
    assert_eq!(j.render(), at(2024, 5, 3, 17, 39, 2));
}

#[test]
fn midnight_schedule_fires_once_a_day_over_three_days() {
    let mut j = job("0 0 0", at(2024, 2, 28, 0, 0, 0));
    let mut fired = Vec::new();
    for day in [(2, 28), (2, 29), (3, 1)] {
        for hour in 0..24 {
            for minute in [0, 30] {
                let now = at(2024, day.0, day.1, hour, minute, 0);
                while let Some(t) = j.poll_due(&now) {
                    fired.push(t);
                }
            }
        }
    }
    assert_eq!(
        fired,
        vec![at(2024, 2, 28, 0, 0, 0), at(2024, 2, 29, 0, 0, 0), at(2024, 3, 1, 0, 0, 0)]
    );
    assert!(fired.windows(2).all(|w| w[0] < w[1]));
}

#[test]
fn poll_before_the_candidate_changes_nothing() {
    let mut j = job("02,59 39 17", at(2024, 5, 1, 0, 0, 0));
    assert_eq!(j.poll_due(&at(2024, 5, 1, 17, 39, 1)), None);
    assert_eq!(j.poll_due(&at(2024, 4, 30, 23, 59, 59)), None);
    assert_eq!(j.poll_due(&at(1999, 1, 1, 0, 0, 0)), None);
    assert_eq!(j.render(), at(2024, 5, 1, 17, 39, 2));
    assert_eq!(j.get_status(), JobStatus::Idle);
}

#[test]
fn poll_at_the_candidate_hands_it_out_and_steps_once() {
    let mut j = job("02,59 39 17", at(2024, 5, 1, 0, 0, 0));
    assert_eq!(j.poll_due(&at(2024, 5, 1, 17, 39, 2)), Some(at(2024, 5, 1, 17, 39, 2)));
    assert_eq!(j.render(), at(2024, 5, 1, 17, 39, 59));
    assert_eq!(j.poll_due(&at(2024, 5, 1, 17, 39, 2)), None);
    assert_eq!(j.render(), at(2024, 5, 1, 17, 39, 59));
}

#[test]
fn poll_after_a_stall_catches_up_one_candidate_at_a_time() {
    let mut j = job("0 0 12", at(2024, 1, 1, 0, 0, 0));
    let now = at(2024, 1, 4, 12, 0, 0);
    assert_eq!(j.poll_due(&now), Some(at(2024, 1, 1, 12, 0, 0)));
    assert_eq!(j.poll_due(&now), Some(at(2024, 1, 2, 12, 0, 0)));
    assert_eq!(j.poll_due(&now), Some(at(2024, 1, 3, 12, 0, 0)));
    assert_eq!(j.poll_due(&now), Some(at(2024, 1, 4, 12, 0, 0)));
    assert_eq!(j.poll_due(&now), None);
    assert_eq!(j.render(), at(2024, 1, 5, 12, 0, 0));
}

#[test]
fn next_uses_the_clock() {
    let mut past = job("0 0 0", at(2020, 1, 1, 0, 0, 0));
    assert_eq!(past.next(), Some(at(2020, 1, 1, 0, 0, 0)));
    assert_eq!(past.render(), at(2020, 1, 2, 0, 0, 0));
    let mut future = job("0 0 0", at(200000, 1, 1, 0, 0, 0));
    assert_eq!(future.next(), None);
    assert_eq!(future.render(), at(200000, 1, 1, 0, 0, 0));
}

#[test]
fn seek_moves_to_the_first_candidate_at_or_after_the_start() {
    let mut j = job("02,59 39 17", at(2024, 5, 1, 17, 39, 30));
    j.to_right_position();
    assert_eq!(j.render(), at(2024, 5, 1, 17, 39, 59));

    let mut j = job("02,59 39 17", at(2024, 5, 1, 17, 39, 59));
    j.to_right_position();
    assert_eq!(j.render(), at(2024, 5, 1, 17, 39, 59));

    let mut j = job("02,59 39 17", at(2024, 5, 1, 17, 40, 0));
    j.to_right_position();
    assert_eq!(j.render(), at(2024, 5, 2, 17, 39, 2));

    let mut j = job("02,59 39 17", at(2024, 5, 1, 3, 0, 0));
    j.to_right_position();
    assert_eq!(j.render(), at(2024, 5, 1, 17, 39, 2));
}

#[test]
fn seek_crosses_the_end_of_the_year() {
    let mut j = job("0 0 0", at(2023, 12, 31, 0, 0, 1));
    j.to_right_position();
    assert_eq!(j.render(), at(2024, 1, 1, 0, 0, 0));
}

#[test]
fn seek_is_the_tightest_fast_forward() {
    let start = at(2024, 5, 1, 13, 37, 11);
    let mut j = job("0,20,40 0,30 *", start);
    let mut probe = job("0,20,40 0,30 *", start);
    j.to_right_position();
    let found = j.render();
    assert!(!found.is_before(&start));
    assert_eq!(found, at(2024, 5, 1, 14, 0, 0));
    while probe.render().is_before(&found) {
        assert!(probe.render().is_before(&start));
        probe.next_tick();
    }
    assert_eq!(probe.render(), found);
}

#[test]
fn seek_twice_is_seek_once() {
    let mut j = job("* * *", at(2024, 5, 1, 13, 37, 11));
    j.to_right_position();
    assert_eq!(j.render(), at(2024, 5, 1, 13, 37, 11));
    j.to_right_position();
    assert_eq!(j.render(), at(2024, 5, 1, 13, 37, 11));
}

#[test]
fn tracker_seeks_on_construction() {
    let t = JobTracker::new(job("02,59 39 17", at(2024, 5, 1, 18, 0, 0)));
    assert_eq!(t.job().render(), at(2024, 5, 2, 17, 39, 2));
    assert_eq!(t.job().get_status(), JobStatus::Idle);
    assert_eq!(t.job().get_expression(), "02,59 39 17");
}

#[test]
fn status_can_be_set_and_read() {
    let mut j = job("0 0 0", at(2024, 5, 1, 0, 0, 0));
    j.set_status(JobStatus::Running);
    assert_eq!(j.get_status(), JobStatus::Running);
    j.set_status(JobStatus::Idle);
    assert_eq!(j.get_status(), JobStatus::Idle);
    j.stop();
    assert_eq!(j.get_status(), JobStatus::Stopped);
    assert_eq!(j.render(), at(2024, 5, 1, 0, 0, 0));
}

#[test]
fn cursor_can_advance_up_to_the_last_year() {
    let mut j = job("0 0 0,12", at(i32::MAX, 12, 30, 0, 0, 0));
    assert!(j.can_advance());
    j.next_tick();
    assert!(j.can_advance());
    j.next_tick();
    assert_eq!(j.render(), at(i32::MAX, 12, 31, 0, 0, 0));
    assert!(j.can_advance());
    j.next_tick();
    assert_eq!(j.render(), at(i32::MAX, 12, 31, 12, 0, 0));
    assert!(!j.can_advance());
    assert_eq!(j.poll_due(&at(i32::MAX, 12, 31, 11, 0, 0)), None);
}

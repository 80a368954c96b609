use taskman::{notify_step, Duration, Notice, NotifyStatus, Pomodoro, PomodoroStatus, Timestamp};

fn start() -> Timestamp {
    Timestamp { secs: 1_700_000_000, nanos: 0 }
}

fn after(secs: i64) -> Timestamp {
    Timestamp { secs: start().secs + secs, nanos: 0 }
}

fn classic() -> Pomodoro {
    Pomodoro::new_at(start(), Duration::from_minutes(25), Duration::from_minutes(5))
}

#[test]
fn work_phase_at_ten_minutes() {
    assert_eq!(
        classic().status_at(after(10 * 60)),
        PomodoroStatus::Work(Duration::from_minutes(10))
    );
}

#[test]
fn break_phase_begins_exactly_at_work_end() {
    assert_eq!(
        classic().status_at(after(25 * 60)),
        PomodoroStatus::Break(Duration::from_minutes(0))
    );
}

#[test]
fn break_phase_just_before_end() {
    assert_eq!(
        classic().status_at(after(29 * 60 + 59)),
        PomodoroStatus::Break(Duration::from_seconds(4 * 60 + 59))
    );
}

#[test]
fn done_exactly_at_total() {
    assert_eq!(classic().status_at(after(30 * 60)), PomodoroStatus::Done);
    assert_eq!(classic().status_at(after(90 * 60)), PomodoroStatus::Done);
}

#[test]
fn work_phase_at_start_and_just_before_break() {
    assert_eq!(classic().status_at(start()), PomodoroStatus::Work(Duration { nanos: 0 }));
    let almost = Timestamp { secs: start().secs + 25 * 60 - 1, nanos: 999_999_999 };
    assert_eq!(
        classic().status_at(almost),
        PomodoroStatus::Work(Duration { nanos: 25 * 60_000_000_000 - 1 })
    );
}

#[test]
fn default_pomodoro_is_twenty_five_and_five() {
    let p = Pomodoro::default();
    assert_eq!(p.work_time, Duration::from_minutes(25));
    assert_eq!(p.break_time, Duration::from_minutes(5));
    assert!(matches!(p.status(), PomodoroStatus::Work(_)));
}

#[test]
fn notices_follow_phase_changes() {
    let work = PomodoroStatus::Work(Duration { nanos: 1 });
    let brk = PomodoroStatus::Break(Duration { nanos: 1 });
    let done = PomodoroStatus::Done;
    assert_eq!(notify_step(NotifyStatus::Nothing, work), (NotifyStatus::SentWork, Some(Notice::StartWorking)));
    assert_eq!(notify_step(NotifyStatus::SentWork, work), (NotifyStatus::SentWork, None));
    assert_eq!(notify_step(NotifyStatus::SentWork, brk), (NotifyStatus::SentBreak, Some(Notice::TakeABreak)));
    assert_eq!(notify_step(NotifyStatus::Nothing, brk), (NotifyStatus::SentBreak, Some(Notice::TakeABreak)));
    assert_eq!(notify_step(NotifyStatus::SentBreak, brk), (NotifyStatus::SentBreak, None));
    assert_eq!(notify_step(NotifyStatus::SentBreak, work), (NotifyStatus::SentWork, Some(Notice::StartWorking)));
    assert_eq!(notify_step(NotifyStatus::SentBreak, done), (NotifyStatus::Nothing, Some(Notice::PomodoroDone)));
    assert_eq!(notify_step(NotifyStatus::SentWork, done), (NotifyStatus::Nothing, Some(Notice::PomodoroDone)));
    assert_eq!(notify_step(NotifyStatus::Nothing, done), (NotifyStatus::Nothing, None));
}

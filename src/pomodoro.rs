//! A work interval followed by a break, classified by the time elapsed
//! since it began, and the notices that a change of phase calls for.
use vstd::prelude::*;
use crate::time::{now, Duration, Timestamp};

verus! {

pub struct Pomodoro {
    pub start: Timestamp,
    pub work_time: Duration,
    pub break_time: Duration,
}

/// The phase of a Pomodoro, with the time spent in it so far.
#[derive(Clone, Copy, Debug, PartialEq, Eq, Structural)]
pub enum PomodoroStatus {
    Work(Duration),
    Break(Duration),
    Done,
}

impl Pomodoro {
    /// A valid start, positive intervals, and a total that fits.
    pub open spec fn wf(&self) -> bool {
        &&& self.start.wf()
        &&& self.work_time.nanos > 0
        &&& self.break_time.nanos > 0
        &&& self.work_time.nanos + self.break_time.nanos <= i128::MAX
    }

    /// The phase at instant `now`: work strictly before the work interval
    /// has passed, then the break strictly before both have passed, then
    /// done.
    pub open spec fn phase_at(&self, now: Timestamp) -> PomodoroStatus {
        let e = now.ns() - self.start.ns();
        if e < self.work_time.nanos {
            PomodoroStatus::Work(Duration { nanos: e as i128 })
        } else if e < self.work_time.nanos + self.break_time.nanos {
            PomodoroStatus::Break(Duration { nanos: (e - self.work_time.nanos) as i128 })
        } else {
            PomodoroStatus::Done
        }
    }

    /// A Pomodoro that began at `start`.
    pub fn new_at(start: Timestamp, work_time: Duration, break_time: Duration) -> (r: Pomodoro)
        requires
            start.wf(),
            work_time.nanos > 0,
            break_time.nanos > 0,
            work_time.nanos + break_time.nanos <= i128::MAX,
        ensures
            r.wf(),
            r.start == start,
            r.work_time == work_time,
            r.break_time == break_time,
    {
        Pomodoro { start, work_time, break_time }
    }

    /// A Pomodoro that begins now.
    pub fn new(work_time: Duration, break_time: Duration) -> (r: Pomodoro)
        requires
            work_time.nanos > 0,
            break_time.nanos > 0,
            work_time.nanos + break_time.nanos <= i128::MAX,
        ensures
            r.wf(),
            r.work_time == work_time,
            r.break_time == break_time,
    {
        Pomodoro::new_at(now(), work_time, break_time)
    }

    /// The phase at instant `now`.
    pub fn status_at(&self, now: Timestamp) -> (r: PomodoroStatus)
        requires
            self.wf(),
            now.wf(),
        ensures
            r == self.phase_at(now),
    {
        let elapsed = now.since(self.start);
        if elapsed.nanos < self.work_time.nanos {
            PomodoroStatus::Work(elapsed)
        } else if elapsed.nanos < self.work_time.nanos + self.break_time.nanos {
            PomodoroStatus::Break(Duration { nanos: elapsed.nanos - self.work_time.nanos })
        } else {
            PomodoroStatus::Done
        }
    }

    /// The phase now.
    pub fn status(&self) -> (r: PomodoroStatus)
        requires
            self.wf(),
        ensures
            exists|t: Timestamp| t.wf() && r == self.phase_at(t),
    {
        self.status_at(now())
    }
}

impl Default for Pomodoro {
    /// Twenty-five minutes of work, then five of break, from now.
    fn default() -> (r: Pomodoro)
        ensures
            r.wf(),
            r.work_time.nanos == 25 * 60_000_000_000,
            r.break_time.nanos == 5 * 60_000_000_000,
    {
        Pomodoro::new(Duration::from_minutes(25), Duration::from_minutes(5))
    }
}

/// The last notice given for the running Pomodoro.
#[derive(Clone, Copy, Debug, PartialEq, Eq, Structural)]
pub enum NotifyStatus {
    SentBreak,
    SentWork,
    Nothing,
}

/// A notice to show the user.
#[derive(Clone, Copy, Debug, PartialEq, Eq, Structural)]
pub enum Notice {
    StartWorking,
    TakeABreak,
    PomodoroDone,
}

/// On entering a phase, one notice: work after a break or at the outset,
/// a break after work or at the outset, and the end after either.
pub open spec fn next_notice(last: NotifyStatus, phase: PomodoroStatus) -> (
    NotifyStatus,
    Option<Notice>,
) {
    match phase {
        PomodoroStatus::Work(_) => if last == NotifyStatus::SentWork {
            (last, None)
        } else {
            (NotifyStatus::SentWork, Some(Notice::StartWorking))
        },
        PomodoroStatus::Break(_) => if last == NotifyStatus::SentBreak {
            (last, None)
        } else {
            (NotifyStatus::SentBreak, Some(Notice::TakeABreak))
        },
        PomodoroStatus::Done => if last == NotifyStatus::Nothing {
            (last, None)
        } else {
            (NotifyStatus::Nothing, Some(Notice::PomodoroDone))
        },
    }
}

/// What to notify, given the last notice and the current phase.
pub fn notify_step(last: NotifyStatus, phase: PomodoroStatus) -> (r: (NotifyStatus, Option<Notice>))
    ensures
        r == next_notice(last, phase),
{
    match phase {
        PomodoroStatus::Work(_) => match last {
            NotifyStatus::SentWork => (last, None),
            _ => (NotifyStatus::SentWork, Some(Notice::StartWorking)),
        },
        PomodoroStatus::Break(_) => match last {
            NotifyStatus::SentBreak => (last, None),
            _ => (NotifyStatus::SentBreak, Some(Notice::TakeABreak)),
        },
        PomodoroStatus::Done => match last {
            NotifyStatus::Nothing => (last, None),
            _ => (NotifyStatus::Nothing, Some(Notice::PomodoroDone)),
        },
    }
}

} // verus!

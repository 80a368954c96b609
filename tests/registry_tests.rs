use taskman::{
    encode_all, DecodeError, Doc, MergePolicy, Notice, NotifyStatus, PomodoroStatus, Task,
    TaskManager, Timestamp,
};

fn at(secs: i64) -> Timestamp {
    Timestamp { secs, nanos: 0 }
}

fn task_at(id: u128, secs: i64, name: &str) -> Task {
    Task::with_parts(id, at(secs), name.to_string(), String::new())
}

fn ids(tm: &TaskManager) -> Vec<u128> {
    tm.list().iter().map(|t| t.id).collect()
}

#[test]
fn new_registry_is_empty_with_default_minutes() {
    let tm = TaskManager::new();
    assert!(tm.list().is_empty());
    assert_eq!((tm.pomo_work, tm.pomo_break), (25, 5));
    assert!(tm.pomodoro.is_none());
    assert_eq!(tm.notified, NotifyStatus::Nothing);
    assert_eq!(tm.import_policy(), MergePolicy::SkipExisting);
}

#[test]
fn list_is_ordered_by_creation_time() {
    let mut tm = TaskManager::new();
    tm.add_task(task_at(1, 300, "c"));
    tm.add_task(task_at(2, 100, "a"));
    tm.add_task(task_at(3, 200, "b"));
    tm.add_task(task_at(4, 200, "b2"));
    assert_eq!(ids(&tm), vec![2, 3, 4, 1]);
}

#[test]
fn add_with_known_id_replaces() {
    let mut tm = TaskManager::new();
    tm.add_task(task_at(1, 100, "old"));
    tm.add_task(task_at(2, 200, "other"));
    tm.add_task(task_at(1, 300, "new"));
    assert_eq!(ids(&tm), vec![2, 1]);
    assert_eq!(tm.get(1).unwrap().name, "new");
    assert!(tm.contains(2));
    assert!(!tm.contains(3));
    assert!(tm.get(3).is_none());
}

#[test]
fn remove_sweeps_links_to_the_removed_task() {
    let mut tm = TaskManager::new();
    let a = task_at(1, 100, "A");
    let mut b = task_at(2, 200, "B");
    b.add_subtask(1, "A".to_string());
    tm.add_task(a);
    tm.add_task(b);
    tm.remove(1);
    assert_eq!(ids(&tm), vec![2]);
    let b = tm.get(2).unwrap();
    assert_eq!(b.subtasks.as_ref().map(|v| v.len()), Some(0));
    assert!(!b.has_subtask(1));
}

#[test]
fn remove_keeps_other_links_and_unknown_id_changes_nothing() {
    let mut tm = TaskManager::new();
    let mut c = task_at(3, 300, "C");
    c.add_subtask(1, "A".to_string());
    c.add_subtask(2, "B".to_string());
    tm.add_task(task_at(1, 100, "A"));
    tm.add_task(task_at(2, 200, "B"));
    tm.add_task(c);
    tm.remove(99);
    assert_eq!(ids(&tm), vec![1, 2, 3]);
    tm.remove(1);
    let c = tm.get(3).unwrap();
    let links: Vec<u128> = c.subtasks.as_ref().unwrap().iter().map(|s| s.id).collect();
    assert_eq!(links, vec![2]);
}

#[test]
fn import_skip_existing_keeps_registered_task() {
    let mut tm = TaskManager::new();
    let mut mine = task_at(1, 100, "mine");
    mine.description = "keep".to_string();
    mine.start_at(at(150));
    tm.add_task(mine.clone());
    let mut theirs = task_at(1, 500, "theirs");
    theirs.description = "drop".to_string();
    let incoming = vec![theirs, task_at(2, 600, "new")];
    tm.merge(incoming, MergePolicy::SkipExisting);
    assert_eq!(tm.get(1).unwrap(), &mine);
    assert_eq!(tm.get(2).unwrap().name, "new");
}

#[test]
fn import_overwrite_replaces_registered_task() {
    let mut tm = TaskManager::new();
    let mut mine = task_at(1, 100, "mine");
    mine.start_at(at(150));
    tm.add_task(mine);
    let mut theirs = task_at(1, 500, "theirs");
    theirs.description = "new text".to_string();
    tm.merge(vec![theirs.clone()], MergePolicy::Overwrite);
    assert_eq!(tm.get(1).unwrap(), &theirs);
    assert_eq!(tm.get(1).unwrap().started, None);
}

#[test]
fn import_skip_existing_within_one_import_keeps_first() {
    let mut tm = TaskManager::new();
    tm.merge(vec![task_at(5, 1, "first"), task_at(5, 2, "second")], MergePolicy::SkipExisting);
    assert_eq!(tm.get(5).unwrap().name, "first");
    tm.merge(vec![task_at(6, 1, "first"), task_at(6, 2, "second")], MergePolicy::Overwrite);
    assert_eq!(tm.get(6).unwrap().name, "second");
}

#[test]
fn import_document_that_fails_changes_nothing() {
    let mut tm = TaskManager::new();
    tm.add_task(task_at(1, 100, "mine"));
    let bad = Doc::Array(vec![Doc::Null]);
    assert_eq!(tm.import_at(&bad, at(0), MergePolicy::Overwrite), Err(DecodeError::NotATask));
    assert_eq!(ids(&tm), vec![1]);
    assert_eq!(tm.import(&Doc::Null, MergePolicy::Overwrite), Err(DecodeError::NotAList));
    assert_eq!(ids(&tm), vec![1]);
}

#[test]
fn export_then_import_restores_the_registry() {
    let mut tm = TaskManager::new();
    let mut b = task_at(2, 200, "B");
    b.add_subtask(1, String::new());
    tm.add_task(task_at(1, 100, "A"));
    tm.add_task(b);
    let doc = tm.export();
    let mut other = TaskManager::new();
    other.import(&doc, MergePolicy::Overwrite).unwrap();
    assert_eq!(other.list(), tm.list());
    let direct = encode_all(tm.list());
    assert!(matches!(direct, Doc::Array(ref v) if v.len() == 2));
}

#[test]
fn toggle_pomodoro_uses_configured_minutes() {
    let mut tm = TaskManager::new();
    tm.set_pomodoro_minutes(50, 10);
    tm.toggle_pomodoro();
    let p = tm.pomodoro.as_ref().unwrap();
    assert_eq!(p.work_time.nanos, 50 * 60_000_000_000);
    assert_eq!(p.break_time.nanos, 10 * 60_000_000_000);
    tm.toggle_pomodoro();
    assert!(tm.pomodoro.is_none());
}

#[test]
fn poll_pomodoro_notifies_once_per_phase() {
    let mut tm = TaskManager::new();
    assert_eq!(tm.poll_pomodoro(), None);
    tm.toggle_pomodoro();
    let start = tm.pomodoro.as_ref().unwrap().start;
    let minute = |m: i64| Timestamp { secs: start.secs + 60 * m, nanos: start.nanos };
    let (phase, notice) = tm.poll_pomodoro_at(minute(1)).unwrap();
    assert!(matches!(phase, PomodoroStatus::Work(_)));
    assert_eq!(notice, Some(Notice::StartWorking));
    assert_eq!(tm.poll_pomodoro_at(minute(2)).unwrap().1, None);
    let (phase, notice) = tm.poll_pomodoro_at(minute(26)).unwrap();
    assert!(matches!(phase, PomodoroStatus::Break(_)));
    assert_eq!(notice, Some(Notice::TakeABreak));
    assert_eq!(tm.poll_pomodoro_at(minute(27)).unwrap().1, None);
    let (phase, notice) = tm.poll_pomodoro_at(minute(31)).unwrap();
    assert_eq!(phase, PomodoroStatus::Done);
    assert_eq!(notice, Some(Notice::PomodoroDone));
    assert_eq!(tm.poll_pomodoro_at(minute(32)).unwrap().1, None);
    assert_eq!(tm.notified, NotifyStatus::Nothing);
}

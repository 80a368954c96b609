//! The registry of all tasks, keyed by id and listed by creation time,
//! with the Pomodoro settings that go with it.
use vstd::prelude::*;
use crate::codec::{decode_all_at, decode_list, encode_all, unnamed, DecodeError, Doc};
use crate::pomodoro::{next_notice, notify_step, Notice, NotifyStatus, Pomodoro, PomodoroStatus};
use crate::task::{lemma_unlinked, Task, TaskView};
use crate::time::{Duration, Timestamp};

verus! {

/// What an import does with a task whose id is already registered.
#[derive(Clone, Copy, Debug, PartialEq, Eq, Structural)]
pub enum MergePolicy {
    /// The incoming task replaces the registered one.
    Overwrite,
    /// The registered task stays; the incoming one is dropped.
    SkipExisting,
}

pub struct TaskManager {
    /// Every task, ordered by creation time, no id twice.
    pub tasks: Vec<Task>,
    pub pomodoro: Option<Pomodoro>,
    pub notified: NotifyStatus,
    /// Minutes of work for the next Pomodoro.
    pub pomo_work: u32,
    /// Minutes of break for the next Pomodoro.
    pub pomo_break: u32,
    /// The policy that imports use.
    pub squash_import: bool,
}

pub open spec fn views(s: Seq<Task>) -> Seq<TaskView> {
    s.map_values(|t: Task| t@)
}

pub open spec fn ids_unique(s: Seq<TaskView>) -> bool {
    forall|i: int, j: int| 0 <= i < s.len() && 0 <= j < s.len() && i != j ==> s[i].id != s[j].id
}

pub open spec fn time_sorted(s: Seq<TaskView>) -> bool {
    forall|i: int, j: int|
        0 <= i <= j < s.len() ==> s[i].creation_time.ns() <= s[j].creation_time.ns()
}

pub open spec fn all_wf(s: Seq<TaskView>) -> bool {
    forall|i: int| 0 <= i < s.len() ==> (#[trigger] s[i]).wf()
}

/// Whether some task of the list has id `id`.
pub open spec fn has_id(s: Seq<TaskView>, id: u128) -> bool {
    exists|i: int| 0 <= i < s.len() && #[trigger] s[i].id == id
}

/// The tasks of a list by id.
pub open spec fn by_id(s: Seq<TaskView>) -> Map<u128, TaskView> {
    Map::new(
        |id: u128| has_id(s, id),
        |id: u128| s[choose|i: int| 0 <= i < s.len() && #[trigger] s[i].id == id],
    )
}

/// In a list without repeated ids, each task is found under its id.
pub proof fn lemma_by_id(s: Seq<TaskView>)
    requires
        ids_unique(s),
    ensures
        forall|i: int|
            0 <= i < s.len() ==> by_id(s).contains_key(#[trigger] s[i].id) && by_id(s)[s[i].id]
                == s[i],
        forall|id: u128| by_id(s).contains_key(id) <==> has_id(s, id),
{
    assert forall|i: int| 0 <= i < s.len() implies by_id(s).contains_key(#[trigger] s[i].id)
        && by_id(s)[s[i].id] == s[i] by {
        assert(has_id(s, s[i].id));
        let j = choose|j: int| 0 <= j < s.len() && #[trigger] s[j].id == s[i].id;
        assert(j == i);
    }
}

/// Removing the element at `k` removes its id from the map.
proof fn lemma_by_id_remove(s: Seq<TaskView>, k: int)
    requires
        ids_unique(s),
        0 <= k < s.len(),
    ensures
        ids_unique(s.remove(k)),
        by_id(s.remove(k)) == by_id(s).remove(s[k].id),
{
    let r = s.remove(k);
    s.remove_ensures(k);
    assert(ids_unique(r)) by {
        assert forall|i: int, j: int|
            0 <= i < r.len() && 0 <= j < r.len() && i != j implies r[i].id != r[j].id by {
            let a = if i < k { i } else { i + 1 };
            let b = if j < k { j } else { j + 1 };
            assert(r[i] == s[a] && r[j] == s[b]);
        }
    }
    lemma_by_id(s);
    lemma_by_id(r);
    assert forall|id: u128| #[trigger] has_id(r, id) <==> (has_id(s, id) && id != s[k].id) by {
        if has_id(r, id) {
            let i = choose|i: int| 0 <= i < r.len() && #[trigger] r[i].id == id;
            let a = if i < k { i } else { i + 1 };
            assert(r[i] == s[a]);
            assert(s[a].id == id);
        }
        if has_id(s, id) && id != s[k].id {
            let a = choose|a: int| 0 <= a < s.len() && #[trigger] s[a].id == id;
            let i = if a < k { a } else { a - 1 };
            assert(r[i] == s[a]);
        }
    }
    assert forall|id: u128| #[trigger] by_id(r).contains_key(id) implies by_id(r)[id] == by_id(
        s,
    )[id] by {
        let i = choose|i: int| 0 <= i < r.len() && #[trigger] r[i].id == id;
        let a = if i < k { i } else { i + 1 };
        assert(r[i] == s[a]);
    }
    assert(by_id(r) =~= by_id(s).remove(s[k].id));
}

/// Inserting a task whose id is new adds it to the map.
proof fn lemma_by_id_insert(s: Seq<TaskView>, k: int, t: TaskView)
    requires
        ids_unique(s),
        0 <= k <= s.len(),
        !has_id(s, t.id),
    ensures
        ids_unique(s.insert(k, t)),
        by_id(s.insert(k, t)) == by_id(s).insert(t.id, t),
{
    let r = s.insert(k, t);
    s.insert_ensures(k, t);
    assert forall|i: int| 0 <= i < r.len() && i != k implies #[trigger] r[i] == s[
        if i < k { i } else { i - 1 }
    ] by {
        if i > k {
            assert(r[(i - 1) + 1] == s[i - 1]);
        }
    }
    assert(ids_unique(r)) by {
        assert forall|i: int, j: int|
            0 <= i < r.len() && 0 <= j < r.len() && i != j implies r[i].id != r[j].id by {
            if i == k {
                let b = if j < k { j } else { j - 1 };
                assert(r[j] == s[b]);
            } else if j == k {
                let a = if i < k { i } else { i - 1 };
                assert(r[i] == s[a]);
            } else {
                let a = if i < k { i } else { i - 1 };
                let b = if j < k { j } else { j - 1 };
                assert(r[i] == s[a] && r[j] == s[b]);
            }
        }
    }
    lemma_by_id(s);
    lemma_by_id(r);
    assert forall|id: u128| #[trigger] has_id(r, id) <==> (has_id(s, id) || id == t.id) by {
        if has_id(r, id) {
            let i = choose|i: int| 0 <= i < r.len() && #[trigger] r[i].id == id;
            if i != k {
                let a = if i < k { i } else { i - 1 };
                assert(r[i] == s[a]);
            }
        }
        if has_id(s, id) {
            let a = choose|a: int| 0 <= a < s.len() && #[trigger] s[a].id == id;
            let i = if a < k { a } else { a + 1 };
            assert(r[i] == s[a]);
        }
        if id == t.id {
            assert(r[k].id == id);
        }
    }
    assert forall|id: u128| #[trigger] by_id(r).contains_key(id) implies by_id(r)[id] == by_id(
        s,
    ).insert(t.id, t)[id] by {
        let i = choose|i: int| 0 <= i < r.len() && #[trigger] r[i].id == id;
        if i != k {
            let a = if i < k { i } else { i - 1 };
            assert(r[i] == s[a]);
        }
    }
    assert(by_id(r) =~= by_id(s).insert(t.id, t));
}

/// A list without repeated ids has as many tasks as its map.
pub proof fn lemma_by_id_len(s: Seq<TaskView>)
    requires
        ids_unique(s),
    ensures
        by_id(s).dom().finite(),
        by_id(s).len() == s.len(),
    decreases s.len(),
{
    if s.len() == 0 {
        assert(by_id(s).dom() =~= Set::<u128>::empty());
    } else {
        let k = s.len() - 1;
        lemma_by_id_remove(s, k);
        assert(s.remove(k) =~= s.drop_last());
        lemma_by_id_len(s.drop_last());
        lemma_by_id(s);
        assert(by_id(s).dom() =~= by_id(s.drop_last()).dom().insert(s[k].id));
    }
}

/// A list the registry can hold: ids unique, creation order, valid tasks.
pub open spec fn sound(s: Seq<TaskView>) -> bool {
    ids_unique(s) && time_sorted(s) && all_wf(s)
}

/// The index of the task with id `id`.
fn position(v: &Vec<Task>, id: u128) -> (r: Option<usize>)
    ensures
        match r {
            Some(i) => i < v@.len() && v@[i as int].id == id && views(v@)[i as int].id == id,
            None => !has_id(views(v@), id),
        },
{
    let mut i: usize = 0;
    while i < v.len()
        invariant
            i <= v@.len(),
            forall|j: int| 0 <= j < i ==> v@[j].id != id,
        decreases v@.len() - i,
    {
        if v[i].id == id {
            assert(views(v@)[i as int].id == id);
            return Some(i);
        }
        i += 1;
    }
    assert forall|j: int| 0 <= j < v@.len() implies views(v@)[j].id != id by {
        assert(v@[j].id != id);
    }
    None
}

/// Removing one element keeps a sound list sound.
proof fn lemma_remove_sound(s: Seq<TaskView>, k: int)
    requires
        sound(s),
        0 <= k < s.len(),
    ensures
        sound(s.remove(k)),
        by_id(s.remove(k)) == by_id(s).remove(s[k].id),
{
    lemma_by_id_remove(s, k);
    s.remove_ensures(k);
    let r = s.remove(k);
    assert forall|a: int, b: int| 0 <= a <= b < r.len() implies r[a].creation_time.ns()
        <= r[b].creation_time.ns() by {
        let x = if a < k { a } else { a + 1 };
        let y = if b < k { b } else { b + 1 };
        assert(r[a] == s[x] && r[b] == s[y]);
    }
    assert forall|a: int| 0 <= a < r.len() implies (#[trigger] r[a]).wf() by {
        let x = if a < k { a } else { a + 1 };
        assert(r[a] == s[x]);
    }
}

/// Takes the task with id `id` out of the list, if it is there.
fn take_out(v: &mut Vec<Task>, id: u128)
    requires
        sound(views(old(v)@)),
    ensures
        sound(views(final(v)@)),
        by_id(views(final(v)@)) == by_id(views(old(v)@)).remove(id),
        !has_id(views(final(v)@), id),
{
    let ghost s0 = views(v@);
    proof {
        lemma_by_id(s0);
    }
    match position(v, id) {
        Some(i) => {
            proof {
                lemma_remove_sound(s0, i as int);
            }
            v.remove(i);
            assert(views(v@) =~= s0.remove(i as int));
        },
        None => {
            assert(by_id(s0).remove(id) =~= by_id(s0));
        },
    }
    proof {
        lemma_by_id(views(v@));
        if has_id(views(v@), id) {
            assert(by_id(views(v@)).contains_key(id));
        }
    }
}

/// The first index whose task was created after `t`.
fn insert_position(v: &Vec<Task>, t: Timestamp) -> (k: usize)
    requires
        sound(views(v@)),
        t.wf(),
    ensures
        k <= v@.len(),
        forall|j: int| 0 <= j < k ==> views(v@)[j].creation_time.ns() <= t.ns(),
        k < v@.len() ==> t.ns() < views(v@)[k as int].creation_time.ns(),
{
    let mut k: usize = 0;
    while k < v.len()
        invariant
            sound(views(v@)),
            t.wf(),
            k <= v@.len(),
            forall|j: int| 0 <= j < k ==> views(v@)[j].creation_time.ns() <= t.ns(),
        decreases v@.len() - k,
    {
        assert(views(v@)[k as int].wf());
        if t.is_before(v[k].creation_time) {
            return k;
        }
        k += 1;
    }
    k
}

/// Puts a task with a new id into the list, after every task created no
/// later.
fn insert_in_order(v: &mut Vec<Task>, task: Task)
    requires
        sound(views(old(v)@)),
        task.wf(),
        !has_id(views(old(v)@), task.id),
    ensures
        sound(views(final(v)@)),
        by_id(views(final(v)@)) == by_id(views(old(v)@)).insert(task.id, task@),
{
    let ghost s1 = views(v@);
    let k = insert_position(v, task.creation_time);
    proof {
        lemma_by_id_insert(s1, k as int, task@);
        s1.insert_ensures(k as int, task@);
    }
    let ghost tv = task@;
    v.insert(k, task);
    let ghost s2 = views(v@);
    assert(s2 =~= s1.insert(k as int, tv));
    assert forall|a: int| 0 <= a < s2.len() && a != k implies #[trigger] s2[a] == s1[
        if a < k { a } else { a - 1 }
    ] by {
        if a > k {
            assert(s2[(a - 1) + 1] == s1[a - 1]);
        }
    }
    assert forall|a: int, b: int| 0 <= a <= b < s2.len() implies s2[a].creation_time.ns()
        <= s2[b].creation_time.ns() by {
        if a == k && b > k {
            assert(s2[b] == s1[b - 1]);
            assert(s1[k as int].creation_time.ns() <= s1[b - 1].creation_time.ns());
        } else if a < k && b > k {
            assert(s2[b] == s1[b - 1]);
        } else if a > k {
            assert(s2[a] == s1[a - 1] && s2[b] == s1[b - 1]);
        }
    }
    assert forall|a: int| 0 <= a < s2.len() implies (#[trigger] s2[a]).wf() by {
        if a > k {
            assert(s2[a] == s1[a - 1]);
        }
    }
}

/// Removes every link to `id` from every task of the list.
fn unlink_all(v: &mut Vec<Task>, id: u128)
    requires
        sound(views(old(v)@)),
    ensures
        sound(views(final(v)@)),
        views(final(v)@) == views(old(v)@).map_values(|t: TaskView| t.without_subtask(id)),
{
    let ghost s1 = views(v@);
    let mut i: usize = 0;
    while i < v.len()
        invariant
            sound(s1),
            i <= v@.len(),
            v@.len() == s1.len(),
            forall|j: int| 0 <= j < i ==> #[trigger] views(v@)[j] == s1[j].without_subtask(id),
            forall|j: int| i <= j < s1.len() ==> #[trigger] views(v@)[j] == s1[j],
        decreases s1.len() - i,
    {
        assert(views(v@)[i as int] == s1[i as int]);
        assert(s1[i as int].wf());
        let ghost before = v@;
        v[i].remove_subtask(id);
        assert forall|j: int| 0 <= j < v@.len() && j != i implies #[trigger] views(v@)[j]
            == views(before)[j] by {
            assert(v@[j] == before[j]);
        }
        assert(views(v@)[i as int] == s1[i as int].without_subtask(id));
        i += 1;
    }
    let ghost s2 = views(v@);
    assert(s2 =~= s1.map_values(|t: TaskView| t.without_subtask(id)));
    assert forall|a: int, b: int|
        0 <= a < s2.len() && 0 <= b < s2.len() && a != b implies s2[a].id != s2[b].id by {
        assert(s2[a].id == s1[a].id && s2[b].id == s1[b].id);
    }
    assert forall|a: int, b: int| 0 <= a <= b < s2.len() implies s2[a].creation_time.ns()
        <= s2[b].creation_time.ns() by {
        assert(s2[a].creation_time == s1[a].creation_time);
        assert(s2[b].creation_time == s1[b].creation_time);
    }
    assert forall|a: int| 0 <= a < s2.len() implies (#[trigger] s2[a]).wf() by {
        assert(s1[a].wf());
        if let Some(l) = s1[a].subtasks {
            lemma_unlinked(l, id);
        }
    }
}

/// Applying a change that keeps ids to every task of a list applies it to
/// every task of its map.
proof fn lemma_by_id_map(s: Seq<TaskView>, w: spec_fn(TaskView) -> TaskView)
    requires
        ids_unique(s),
        forall|t: TaskView| #[trigger] w(t).id == t.id,
    ensures
        ids_unique(s.map_values(w)),
        by_id(s.map_values(w)) == by_id(s).map_values(w),
{
    let s2 = s.map_values(w);
    assert forall|a: int, b: int|
        0 <= a < s2.len() && 0 <= b < s2.len() && a != b implies s2[a].id != s2[b].id by {
        assert(s2[a].id == s[a].id && s2[b].id == s[b].id);
    }
    lemma_by_id(s);
    lemma_by_id(s2);
    assert forall|k: u128| #[trigger] has_id(s2, k) <==> has_id(s, k) by {
        if has_id(s2, k) {
            let a = choose|a: int| 0 <= a < s2.len() && #[trigger] s2[a].id == k;
            assert(s[a].id == k);
        }
        if has_id(s, k) {
            let a = choose|a: int| 0 <= a < s.len() && #[trigger] s[a].id == k;
            assert(s2[a].id == k);
        }
    }
    assert forall|k: u128| #[trigger] by_id(s2).contains_key(k) implies by_id(s2)[k] == w(
        by_id(s)[k],
    ) by {
        let a = choose|a: int| 0 <= a < s2.len() && #[trigger] s2[a].id == k;
        assert(s[a].id == k);
    }
    assert(by_id(s2) =~= by_id(s).map_values(w));
}

impl TaskManager {
    /// The registry's invariant: a sound list of tasks, a valid running
    /// Pomodoro, and Pomodoro minutes of at least one.
    pub open spec fn wf(&self) -> bool {
        &&& sound(views(self.tasks@))
        &&& (self.pomodoro matches Some(p) ==> p.wf())
        &&& self.pomo_work >= 1
        &&& self.pomo_break >= 1
    }

    /// The registered tasks by id.
    pub open spec fn model(&self) -> Map<u128, TaskView> {
        by_id(views(self.tasks@))
    }

    /// An empty registry, no Pomodoro running, twenty-five minutes of work
    /// and five of break for the next one.
    pub fn new() -> (r: TaskManager)
        ensures
            r.wf(),
            r.model() == Map::<u128, TaskView>::empty(),
            r.pomodoro is None,
            r.notified == NotifyStatus::Nothing,
            r.pomo_work == 25,
            r.pomo_break == 5,
            !r.squash_import,
    {
        let r = TaskManager {
            tasks: Vec::new(),
            pomodoro: None,
            notified: NotifyStatus::Nothing,
            pomo_work: 25,
            pomo_break: 5,
            squash_import: false,
        };
        assert(r.model() =~= Map::<u128, TaskView>::empty());
        r
    }

    /// Whether a task with id `id` is registered.
    pub fn contains(&self, id: u128) -> (r: bool)
        requires
            self.wf(),
        ensures
            r == self.model().contains_key(id),
    {
        proof {
            lemma_by_id(views(self.tasks@));
        }
        position(&self.tasks, id).is_some()
    }

    /// The task with id `id`, if registered.
    pub fn get(&self, id: u128) -> (r: Option<&Task>)
        requires
            self.wf(),
        ensures
            match r {
                Some(t) => self.model().contains_key(id) && t@ == self.model()[id],
                None => !self.model().contains_key(id),
            },
    {
        proof {
            lemma_by_id(views(self.tasks@));
        }
        match position(&self.tasks, id) {
            Some(i) => Some(&self.tasks[i]),
            None => None,
        }
    }

    /// Every task, ordered by creation time (ascending).
    pub fn list(&self) -> (r: &Vec<Task>)
        requires
            self.wf(),
        ensures
            by_id(views(r@)) == self.model(),
            sound(views(r@)),
            r@.len() == self.model().len(),
    {
        proof {
            lemma_by_id_len(views(self.tasks@));
        }
        &self.tasks
    }

    /// Registers `task`, replacing a registered task with the same id.
    pub fn add_task(&mut self, task: Task)
        requires
            old(self).wf(),
            task.wf(),
        ensures
            final(self).wf(),
            final(self).model() == old(self).model().insert(task.id, task@),
            final(self).pomodoro == old(self).pomodoro,
            final(self).notified == old(self).notified,
            final(self).pomo_work == old(self).pomo_work,
            final(self).pomo_break == old(self).pomo_break,
            final(self).squash_import == old(self).squash_import,
    {
        let ghost m0 = self.model();
        take_out(&mut self.tasks, task.id);
        let ghost id = task.id;
        let ghost tv = task@;
        insert_in_order(&mut self.tasks, task);
        assert(m0.remove(id).insert(id, tv) =~= m0.insert(id, tv));
    }

    /// Removes the task with id `id`, and every link to it from the tasks
    /// that remain.
    pub fn remove(&mut self, id: u128)
        requires
            old(self).wf(),
        ensures
            final(self).wf(),
            final(self).model() == old(self).model().remove(id).map_values(
                |t: TaskView| t.without_subtask(id),
            ),
            !final(self).model().contains_key(id),
            forall|k: u128| #[trigger]
                final(self).model().contains_key(k) ==> !final(self).model()[k].refers_to(id),
            final(self).pomodoro == old(self).pomodoro,
            final(self).notified == old(self).notified,
            final(self).pomo_work == old(self).pomo_work,
            final(self).pomo_break == old(self).pomo_break,
            final(self).squash_import == old(self).squash_import,
    {
        take_out(&mut self.tasks, id);
        let ghost s1 = views(self.tasks@);
        unlink_all(&mut self.tasks, id);
        proof {
            let w = |t: TaskView| t.without_subtask(id);
            lemma_by_id_map(s1, w);
            let m = self.model();
            assert forall|k: u128| #[trigger] m.contains_key(k) implies !m[k].refers_to(id) by {
                if let Some(l) = by_id(s1)[k].subtasks {
                    lemma_unlinked(l, id);
                }
            }
        }
    }
}

/// The registry after importing `s` in order under policy `p`: an
/// overwriting import registers every incoming task, replacing one with
/// the same id; a skipping one registers only those whose id is not yet
/// registered (earlier tasks of the same import included).
pub open spec fn merged(m: Map<u128, TaskView>, s: Seq<TaskView>, p: MergePolicy) -> Map<
    u128,
    TaskView,
>
    decreases s.len(),
{
    if s.len() == 0 {
        m
    } else {
        let before = merged(m, s.drop_last(), p);
        let t = s.last();
        if p == MergePolicy::SkipExisting && before.contains_key(t.id) {
            before
        } else {
            before.insert(t.id, t)
        }
    }
}

/// A skipping import leaves every registered task as it was.
pub proof fn lemma_skip_keeps_existing(m: Map<u128, TaskView>, s: Seq<TaskView>, id: u128)
    requires
        m.contains_key(id),
    ensures
        merged(m, s, MergePolicy::SkipExisting).contains_key(id),
        merged(m, s, MergePolicy::SkipExisting)[id] == m[id],
    decreases s.len(),
{
    if s.len() > 0 {
        lemma_skip_keeps_existing(m, s.drop_last(), id);
    }
}

/// An overwriting import leaves, under an incoming id, the last incoming
/// task with that id, whatever was registered before.
pub proof fn lemma_overwrite_replaces(m: Map<u128, TaskView>, s: Seq<TaskView>, k: int)
    requires
        0 <= k < s.len(),
        forall|j: int| k < j < s.len() ==> #[trigger] s[j].id != s[k].id,
    ensures
        merged(m, s, MergePolicy::Overwrite).contains_key(s[k].id),
        merged(m, s, MergePolicy::Overwrite)[s[k].id] == s[k],
    decreases s.len(),
{
    if k < s.len() - 1 {
        let p = s.drop_last();
        assert forall|j: int| k < j < p.len() implies #[trigger] p[j].id != p[k].id by {
            assert(p[j] == s[j]);
        }
        lemma_overwrite_replaces(m, p, k);
        assert(s[s.len() - 1].id != s[k].id);
    }
}

/// Importing leaves the tasks registered under ids that no incoming task
/// has.
pub proof fn lemma_merge_untouched(
    m: Map<u128, TaskView>,
    s: Seq<TaskView>,
    p: MergePolicy,
    id: u128,
)
    requires
        forall|j: int| 0 <= j < s.len() ==> #[trigger] s[j].id != id,
    ensures
        merged(m, s, p).contains_key(id) == m.contains_key(id),
        m.contains_key(id) ==> merged(m, s, p)[id] == m[id],
    decreases s.len(),
{
    if s.len() > 0 {
        let q = s.drop_last();
        assert forall|j: int| 0 <= j < q.len() implies #[trigger] q[j].id != id by {
            assert(q[j] == s[j]);
        }
        lemma_merge_untouched(m, q, p, id);
        assert(s[s.len() - 1].id != id);
    }
}

impl TaskManager {
    /// Imports `incoming` in order under `policy`.
    pub fn merge(&mut self, incoming: Vec<Task>, policy: MergePolicy)
        requires
            old(self).wf(),
            forall|i: int| 0 <= i < incoming@.len() ==> (#[trigger] incoming@[i]).wf(),
        ensures
            final(self).wf(),
            final(self).model() == merged(old(self).model(), views(incoming@), policy),
            final(self).pomodoro == old(self).pomodoro,
            final(self).notified == old(self).notified,
            final(self).pomo_work == old(self).pomo_work,
            final(self).pomo_break == old(self).pomo_break,
            final(self).squash_import == old(self).squash_import,
    {
        let ghost m0 = self.model();
        let ghost all = views(incoming@);
        let mut rest = incoming;
        let mut i: usize = 0;
        assert(all.len() == rest@.len());
        assert(rest@.len() <= usize::MAX) by {
            assert(rest.len() == rest@.len());
        }
        while rest.len() > 0
            invariant
                self.wf(),
                i <= all.len(),
                all.len() <= usize::MAX,
                rest@.len() == all.len() - i,
                views(rest@) == all.skip(i as int),
                forall|j: int| 0 <= j < rest@.len() ==> (#[trigger] rest@[j]).wf(),
                self.model() == merged(m0, all.take(i as int), policy),
                self.pomodoro == old(self).pomodoro,
                self.notified == old(self).notified,
                self.pomo_work == old(self).pomo_work,
                self.pomo_break == old(self).pomo_break,
                self.squash_import == old(self).squash_import,
            decreases rest@.len(),
        {
            let ghost before = rest@;
            let t = rest.remove(0);
            assert(before[0] == t);
            assert(views(before)[0] == all[i as int]);
            assert forall|j: int| 0 <= j < rest@.len() implies #[trigger] views(rest@)[j] == all.skip(
                i + 1,
            )[j] by {
                assert(rest@[j] == before[j + 1]);
                assert(views(before)[j + 1] == all.skip(i as int)[j + 1]);
            }
            assert(views(rest@) =~= all.skip(i + 1));
            assert forall|j: int| 0 <= j < rest@.len() implies (#[trigger] rest@[j]).wf() by {
                assert(rest@[j] == before[j + 1]);
            }
            assert(all.take(i + 1).drop_last() =~= all.take(i as int));
            assert(t.wf()) by {
                assert(before[0].wf());
            }
            if policy == MergePolicy::Overwrite || !self.contains(t.id) {
                self.add_task(t);
            }
            i += 1;
        }
        assert(all.take(i as int) =~= all);
    }

    /// Imports the tasks of a task-list document under `policy`; `now`
    /// stands in for missing creation times. A document that does not
    /// decode changes nothing.
    pub fn import_at(&mut self, doc: &Doc, now: Timestamp, policy: MergePolicy) -> (r: Result<(), DecodeError>)
        requires
            old(self).wf(),
            now.wf(),
        ensures
            final(self).wf(),
            match decode_list(*doc, now) {
                Ok(ts) => r is Ok && final(self).model() == merged(old(self).model(), ts, policy),
                Err(e) => r == Err::<(), DecodeError>(e) && final(self).model() == old(self).model(),
            },
            final(self).pomodoro == old(self).pomodoro,
            final(self).notified == old(self).notified,
            final(self).pomo_work == old(self).pomo_work,
            final(self).pomo_break == old(self).pomo_break,
            final(self).squash_import == old(self).squash_import,
    {
        match decode_all_at(doc, now) {
            Ok(ts) => {
                self.merge(ts, policy);
                Ok(())
            },
            Err(e) => Err(e),
        }
    }

    /// Imports the tasks of a task-list document under `policy`; missing
    /// creation times become the time of reading. A document that does not
    /// decode changes nothing.
    pub fn import(&mut self, doc: &Doc, policy: MergePolicy) -> (r: Result<(), DecodeError>)
        requires
            old(self).wf(),
        ensures
            final(self).wf(),
            exists|now: Timestamp|
                now.wf() && match decode_list(*doc, now) {
                    Ok(ts) => r is Ok && final(self).model() == merged(old(self).model(), ts, policy),
                    Err(e) => r == Err::<(), DecodeError>(e) && final(self).model() == old(
                        self,
                    ).model(),
                },
            final(self).pomodoro == old(self).pomodoro,
            final(self).notified == old(self).notified,
            final(self).pomo_work == old(self).pomo_work,
            final(self).pomo_break == old(self).pomo_break,
            final(self).squash_import == old(self).squash_import,
    {
        let now = crate::time::now();
        self.import_at(doc, now, policy)
    }

    /// The import policy that `squash_import` selects.
    pub fn import_policy(&self) -> (r: MergePolicy)
        ensures
            r == (if self.squash_import {
                MergePolicy::Overwrite
            } else {
                MergePolicy::SkipExisting
            }),
    {
        if self.squash_import {
            MergePolicy::Overwrite
        } else {
            MergePolicy::SkipExisting
        }
    }

    /// Every task as a task-list document, in creation order. Reading it
    /// back gives the registered tasks, cached subtask names emptied.
    pub fn export(&self) -> (r: Doc)
        requires
            self.wf(),
        ensures
            forall|now: Timestamp|
                decode_list(r, now) == Ok::<Seq<TaskView>, DecodeError>(
                    views(self.tasks@).map_values(|t: TaskView| unnamed(t)),
                ),
    {
        proof {
            assert forall|i: int| 0 <= i < self.tasks@.len() implies (#[trigger] self.tasks@[i]).wf() by {
                assert(views(self.tasks@)[i].wf());
            }
            assert(self.tasks@.map_values(|t: Task| unnamed(t@)) =~= views(self.tasks@).map_values(
                |t: TaskView| unnamed(t),
            ));
        }
        encode_all(&self.tasks)
    }

    /// Sets the minutes of work and of break for the next Pomodoro.
    pub fn set_pomodoro_minutes(&mut self, work: u32, brk: u32)
        requires
            old(self).wf(),
            work >= 1,
            brk >= 1,
        ensures
            final(self).wf(),
            final(self).pomo_work == work,
            final(self).pomo_break == brk,
            final(self).tasks == old(self).tasks,
            final(self).pomodoro == old(self).pomodoro,
            final(self).notified == old(self).notified,
            final(self).squash_import == old(self).squash_import,
    {
        self.pomo_work = work;
        self.pomo_break = brk;
    }

    /// Stops the running Pomodoro, or starts one from the configured
    /// minutes.
    pub fn toggle_pomodoro(&mut self)
        requires
            old(self).wf(),
        ensures
            final(self).wf(),
            old(self).pomodoro is Some ==> final(self).pomodoro is None,
            old(self).pomodoro is None ==> (final(self).pomodoro matches Some(p) && p.work_time.nanos
                == old(self).pomo_work * 60_000_000_000 && p.break_time.nanos == old(
                self,
            ).pomo_break * 60_000_000_000),
            final(self).tasks == old(self).tasks,
            final(self).notified == old(self).notified,
            final(self).pomo_work == old(self).pomo_work,
            final(self).pomo_break == old(self).pomo_break,
            final(self).squash_import == old(self).squash_import,
    {
        match self.pomodoro {
            Some(_) => {
                self.pomodoro = None;
            },
            None => {
                let work = Duration::from_minutes(self.pomo_work as i64);
                let brk = Duration::from_minutes(self.pomo_break as i64);
                self.pomodoro = Some(Pomodoro::new(work, brk));
            },
        }
    }

    /// The running Pomodoro's phase at `now`, and the notice it calls for;
    /// `None` when none runs.
    pub fn poll_pomodoro_at(&mut self, now: Timestamp) -> (r: Option<(PomodoroStatus, Option<Notice>)>)
        requires
            old(self).wf(),
            now.wf(),
        ensures
            final(self).wf(),
            match old(self).pomodoro {
                None => r is None && final(self).notified == old(self).notified,
                Some(p) => {
                    let phase = p.phase_at(now);
                    let (n, notice) = next_notice(old(self).notified, phase);
                    r == Some((phase, notice)) && final(self).notified == n
                },
            },
            final(self).tasks == old(self).tasks,
            final(self).pomodoro == old(self).pomodoro,
            final(self).pomo_work == old(self).pomo_work,
            final(self).pomo_break == old(self).pomo_break,
            final(self).squash_import == old(self).squash_import,
    {
        match &self.pomodoro {
            None => None,
            Some(p) => {
                let phase = p.status_at(now);
                let (n, notice) = notify_step(self.notified, phase);
                self.notified = n;
                Some((phase, notice))
            },
        }
    }

    /// The running Pomodoro's phase now, and the notice it calls for;
    /// `None` when none runs.
    pub fn poll_pomodoro(&mut self) -> (r: Option<(PomodoroStatus, Option<Notice>)>)
        requires
            old(self).wf(),
        ensures
            final(self).wf(),
            exists|now: Timestamp|
                now.wf() && match old(self).pomodoro {
                    None => r is None && final(self).notified == old(self).notified,
                    Some(p) => {
                        let phase = p.phase_at(now);
                        let (n, notice) = next_notice(old(self).notified, phase);
                        r == Some((phase, notice)) && final(self).notified == n
                    },
                },
            final(self).tasks == old(self).tasks,
            final(self).pomodoro == old(self).pomodoro,
    {
        let now = crate::time::now();
        self.poll_pomodoro_at(now)
    }
}

} // verus!

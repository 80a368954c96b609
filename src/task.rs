//! A task: identity, text, a forward-only lifecycle, and links to other
//! tasks.
use vstd::prelude::*;
use crate::time::{now, Duration, Timestamp};

verus! {

/// A link to another task, with that task's name as it was when the link
/// was made (kept for display only).
#[derive(Clone, Debug, PartialEq, Eq)]
pub struct Subtask {
    pub id: u128,
    pub name: String,
}

impl View for Subtask {
    type V = (u128, Seq<char>);

    open spec fn view(&self) -> (u128, Seq<char>) {
        (self.id, self.name@)
    }
}

/// What a task holds, as mathematical values.
pub struct TaskView {
    pub id: u128,
    pub creation_time: Timestamp,
    pub name: Seq<char>,
    pub description: Seq<char>,
    pub started: Option<Timestamp>,
    pub finished: Option<Timestamp>,
    pub subtasks: Option<Seq<(u128, Seq<char>)>>,
}

#[derive(Clone, Debug, PartialEq, Eq)]
pub struct Task {
    pub id: u128,
    pub creation_time: Timestamp,
    pub name: String,
    pub description: String,
    pub started: Option<Timestamp>,
    pub finished: Option<Timestamp>,
    pub subtasks: Option<Vec<Subtask>>,
}

#[derive(Clone, Copy, Debug, PartialEq, Eq, Structural)]
pub enum TaskStatus {
    NotYet,
    Started,
    Finished,
}

pub open spec fn subtask_views(v: Seq<Subtask>) -> Seq<(u128, Seq<char>)> {
    v.map_values(|s: Subtask| s@)
}

/// Whether the list links to `id`.
pub open spec fn links_to(s: Seq<(u128, Seq<char>)>, id: u128) -> bool {
    exists|i: int| 0 <= i < s.len() && #[trigger] s[i].0 == id
}

/// The list without its links to `id`, order kept.
pub open spec fn unlinked(s: Seq<(u128, Seq<char>)>, id: u128) -> Seq<(u128, Seq<char>)>
    decreases s.len(),
{
    if s.len() == 0 {
        s
    } else {
        let rest = unlinked(s.drop_last(), id);
        if s.last().0 == id {
            rest
        } else {
            rest.push(s.last())
        }
    }
}

/// After unlinking `id`, a list links to exactly what it linked to before,
/// but `id`.
pub proof fn lemma_unlinked(s: Seq<(u128, Seq<char>)>, id: u128)
    ensures
        forall|k: u128|
            #![trigger links_to(unlinked(s, id), k)]
            #![trigger links_to(s, k)]
            links_to(unlinked(s, id), k) <==> (links_to(s, k) && k != id),
        unlinked(s, id).len() <= s.len(),
        !links_to(s, id) ==> unlinked(s, id) == s,
    decreases s.len(),
{
    if s.len() > 0 {
        let p = s.drop_last();
        lemma_unlinked(p, id);
        let r = unlinked(p, id);
        assert forall|k: u128| links_to(unlinked(s, id), k) <==> (links_to(s, k) && k != id) by {
            if links_to(s, k) && k != id {
                let i = choose|i: int| 0 <= i < s.len() && #[trigger] s[i].0 == k;
                if i < s.len() - 1 {
                    assert(p[i].0 == k);
                    assert(links_to(p, k));
                    assert(links_to(r, k));
                    let j = choose|j: int| 0 <= j < r.len() && #[trigger] r[j].0 == k;
                    if s.last().0 != id {
                        assert(r.push(s.last())[j].0 == k);
                    }
                } else {
                    assert(unlinked(s, id) == r.push(s.last()));
                    assert(r.push(s.last())[r.len() as int].0 == k);
                }
            }
            if links_to(unlinked(s, id), k) {
                let u = unlinked(s, id);
                let j = choose|j: int| 0 <= j < u.len() && #[trigger] u[j].0 == k;
                if j < r.len() {
                    assert(u[j] == r[j]);
                    assert(r[j].0 == k);
                    assert(links_to(r, k));
                    assert(links_to(p, k));
                    let i = choose|i: int| 0 <= i < p.len() && #[trigger] p[i].0 == k;
                    assert(s[i].0 == k);
                } else {
                    assert(s[s.len() - 1].0 == k);
                }
            }
        }
        if !links_to(s, id) {
            assert forall|i: int| 0 <= i < p.len() implies p[i].0 != id by {
                assert(s[i] == p[i]);
            }
            assert(!links_to(p, id));
            assert(s.last().0 != id) by {
                assert(s[s.len() - 1].0 != id);
            }
            assert(s == p.push(s.last()));
        }
    }
}

/// Starting twice changes a task once: the second start does nothing.
pub proof fn lemma_start_idempotent(t: TaskView, a: Timestamp, b: Timestamp)
    ensures
        t.started_at(a).started_at(b) == t.started_at(a),
        t.status() == TaskStatus::NotYet ==> t.started_at(a).status() == TaskStatus::Started,
{
}

/// Finishing a task that has not started does nothing; it stays not
/// started.
pub proof fn lemma_finish_before_start(t: TaskView, a: Timestamp)
    requires
        t.wf(),
        t.status() == TaskStatus::NotYet,
    ensures
        t.finished_at(a) == t,
        t.finished_at(a).status() == TaskStatus::NotYet,
{
}

/// A finished task's elapsed time is its finish minus its start, and is
/// never negative.
pub proof fn lemma_elapsed_of_finished(t: TaskView)
    requires
        t.wf(),
        t.status() == TaskStatus::Finished,
    ensures
        t.started is Some && t.finished is Some,
        t.elapsed() == Some(t.finished.unwrap().ns() - t.started.unwrap().ns()),
        t.elapsed().unwrap() >= 0,
{
}

/// A task never comes to list itself: linking its own id does nothing, and
/// linking any id keeps a valid task free of a link to itself.
pub proof fn lemma_no_self_link(t: TaskView, k: u128, name: Seq<char>)
    ensures
        t.with_subtask(t.id, name) == t,
        t.wf() ==> !t.with_subtask(k, name).refers_to(t.id),
        t.wf() ==> t.with_subtask(k, name).wf(),
{
    if t.wf() && k != t.id && !t.refers_to(k) {
        let u = t.with_subtask(k, name);
        let s = u.subtasks.unwrap();
        if links_to(s, t.id) {
            let i = choose|i: int| 0 <= i < s.len() && #[trigger] s[i].0 == t.id;
            if i < s.len() - 1 {
                assert(t.subtasks.unwrap()[i].0 == t.id);
            }
        }
    }
}

impl TaskView {
    /// Whether the task lists `id` among its subtasks.
    pub open spec fn refers_to(self, id: u128) -> bool {
        self.subtasks matches Some(s) && links_to(s, id)
    }

    /// The task's invariant: valid instants, no finish without a start, no
    /// finish before the start, and no link to itself.
    pub open spec fn wf(self) -> bool {
        &&& self.creation_time.wf()
        &&& (self.started matches Some(t) ==> t.wf())
        &&& (self.finished matches Some(t) ==> t.wf())
        &&& (self.finished is Some ==> self.started is Some)
        &&& ((self.started, self.finished) matches (Some(s), Some(f)) ==> s.ns() <= f.ns())
        &&& !self.refers_to(self.id)
    }

    pub open spec fn status(self) -> TaskStatus {
        if self.finished is Some {
            TaskStatus::Finished
        } else if self.started is Some {
            TaskStatus::Started
        } else {
            TaskStatus::NotYet
        }
    }

    /// Starting at `t`: only a task that has neither started nor finished
    /// changes.
    pub open spec fn started_at(self, t: Timestamp) -> TaskView {
        if self.started is None && self.finished is None {
            TaskView { started: Some(t), ..self }
        } else {
            self
        }
    }

    /// Finishing at `t`: only a started, unfinished task changes. A clock
    /// reading earlier than the start records the finish at the start.
    pub open spec fn finished_at(self, t: Timestamp) -> TaskView {
        match self.started {
            Some(s) => if self.finished is None {
                TaskView { finished: Some(if t.ns() < s.ns() { s } else { t }), ..self }
            } else {
                self
            },
            None => self,
        }
    }

    /// The time from start to finish, for a finished task.
    pub open spec fn elapsed(self) -> Option<int> {
        match (self.started, self.finished) {
            (Some(s), Some(f)) => Some(f.ns() - s.ns()),
            _ => None,
        }
    }

    /// Linking `id` (shown as `name`): ignored for the task's own id and for
    /// one already linked; otherwise appended.
    pub open spec fn with_subtask(self, id: u128, name: Seq<char>) -> TaskView {
        if id == self.id || self.refers_to(id) {
            self
        } else {
            match self.subtasks {
                Some(s) => TaskView { subtasks: Some(s.push((id, name))), ..self },
                None => TaskView { subtasks: Some(seq![(id, name)]), ..self },
            }
        }
    }

    /// Unlinking `id`: every link to it goes, the others stay in order.
    pub open spec fn without_subtask(self, id: u128) -> TaskView {
        match self.subtasks {
            Some(s) => TaskView { subtasks: Some(unlinked(s, id)), ..self },
            None => self,
        }
    }
}

impl View for Task {
    type V = TaskView;

    open spec fn view(&self) -> TaskView {
        TaskView {
            id: self.id,
            creation_time: self.creation_time,
            name: self.name@,
            description: self.description@,
            started: self.started,
            finished: self.finished,
            subtasks: match self.subtasks {
                Some(v) => Some(subtask_views(v@)),
                None => None,
            },
        }
    }
}

/// Relies on uuid's `Uuid::new_v4` (random) and `Uuid::as_u128`.
#[verifier::external_body]
fn fresh_id() -> (r: u128) {
    uuid::Uuid::new_v4().as_u128()
}

impl Task {
    pub open spec fn wf(&self) -> bool {
        self@.wf()
    }

    /// A task with the given identity and text that has not started.
    pub fn with_parts(id: u128, creation_time: Timestamp, name: String, description: String) -> (r: Task)
        requires
            creation_time.wf(),
        ensures
            r.wf(),
            r@ == (TaskView {
                id,
                creation_time,
                name: name@,
                description: description@,
                started: None,
                finished: None,
                subtasks: None,
            }),
    {
        Task { id, creation_time, name, description, started: None, finished: None, subtasks: None }
    }

    /// A new task with a fresh random id, created now.
    pub fn create(name: String, description: String) -> (r: Task)
        ensures
            r.wf(),
            r.creation_time.wf(),
            r@.name == name@,
            r@.description == description@,
            r@.started is None,
            r@.finished is None,
            r@.subtasks is None,
    {
        Task::with_parts(fresh_id(), now(), name, description)
    }

    pub fn get_uuid(&self) -> (r: u128)
        ensures
            r == self.id,
    {
        self.id
    }

    pub fn get_creation_time(&self) -> (r: Timestamp)
        ensures
            r == self.creation_time,
    {
        self.creation_time
    }

    pub fn get_subtasks(&self) -> (r: &Option<Vec<Subtask>>)
        ensures
            r == &self.subtasks,
    {
        &self.subtasks
    }

    pub fn is_started(&self) -> (r: bool)
        ensures
            r == self.started is Some,
    {
        self.started.is_some()
    }

    pub fn is_finished(&self) -> (r: bool)
        ensures
            r == self.finished is Some,
    {
        self.finished.is_some()
    }

    /// Starts the task at `t` if it has not started yet; otherwise nothing
    /// changes.
    pub fn start_at(&mut self, t: Timestamp)
        requires
            old(self).wf(),
            t.wf(),
        ensures
            final(self)@ == old(self)@.started_at(t),
            final(self).wf(),
    {
        if self.is_started() || self.is_finished() {
            return;
        }
        self.started = Some(t);
    }

    /// Starts the task now if it has not started yet; otherwise nothing
    /// changes.
    pub fn start(&mut self)
        requires
            old(self).wf(),
        ensures
            final(self).wf(),
            exists|t: Timestamp| t.wf() && final(self)@ == old(self)@.started_at(t),
            old(self)@.status() == TaskStatus::NotYet ==> final(self)@.status()
                == TaskStatus::Started,
    {
        let t = now();
        self.start_at(t);
    }

    /// Finishes the task at `t` (or at its start, if `t` is earlier) if it
    /// is started and not finished; otherwise nothing changes.
    pub fn finish_at(&mut self, t: Timestamp)
        requires
            old(self).wf(),
            t.wf(),
        ensures
            final(self)@ == old(self)@.finished_at(t),
            final(self).wf(),
    {
        if !self.is_started() || self.is_finished() {
            return;
        }
        let s = self.started.unwrap();
        if t.is_before(s) {
            self.finished = Some(s);
        } else {
            self.finished = Some(t);
        }
    }

    /// Finishes the task now if it is started and not finished; otherwise
    /// nothing changes.
    pub fn finish(&mut self)
        requires
            old(self).wf(),
        ensures
            final(self).wf(),
            exists|t: Timestamp| t.wf() && final(self)@ == old(self)@.finished_at(t),
            old(self)@.status() == TaskStatus::Started ==> final(self)@.status()
                == TaskStatus::Finished,
    {
        let t = now();
        self.finish_at(t);
    }

    /// The span from start to finish, for a finished task.
    pub fn get_duration(&self) -> (r: Option<Duration>)
        requires
            self.wf(),
        ensures
            r matches Some(d) ==> self@.elapsed() == Some(d.nanos as int) && d.nanos >= 0,
            r is None <==> self@.elapsed() is None,
    {
        match (self.started, self.finished) {
            (Some(s), Some(f)) => Some(f.since(s)),
            _ => None,
        }
    }

    pub fn status(&self) -> (r: TaskStatus)
        requires
            self.wf(),
        ensures
            r == self@.status(),
    {
        match (self.is_started(), self.is_finished()) {
            (true, true) => TaskStatus::Finished,
            (true, false) => TaskStatus::Started,
            _ => TaskStatus::NotYet,
        }
    }

    pub fn has_subtask(&self, id: u128) -> (r: bool)
        ensures
            r == self@.refers_to(id),
    {
        match &self.subtasks {
            None => false,
            Some(v) => {
                let mut i: usize = 0;
                while i < v.len()
                    invariant
                        self.subtasks == Some(*v),
                        i <= v@.len(),
                        forall|j: int| 0 <= j < i ==> v@[j].id != id,
                    decreases v@.len() - i,
                {
                    if v[i].id == id {
                        assert(self@.subtasks == Some(subtask_views(v@)));
                        assert(subtask_views(v@)[i as int].0 == id);
                        return true;
                    }
                    i += 1;
                }
                assert forall|j: int| 0 <= j < v@.len() implies subtask_views(v@)[j].0 != id by {
                    assert(v@[j].id != id);
                }
                false
            },
        }
    }

    /// Links `id` under the display name `name`, unless `id` is the task's
    /// own or is linked already.
    pub fn add_subtask(&mut self, id: u128, name: String)
        requires
            old(self).wf(),
        ensures
            final(self)@ == old(self)@.with_subtask(id, name@),
            final(self).wf(),
    {
        if id == self.id || self.has_subtask(id) {
            return;
        }
        let ghost before = self@;
        let link = Subtask { id, name };
        match &mut self.subtasks {
            Some(v) => {
                let ghost old_v = v@;
                v.push(link);
                assert(subtask_views(v@) == subtask_views(old_v).push((id, link.name@)));
            },
            None => {
                let mut v: Vec<Subtask> = Vec::new();
                v.push(link);
                assert(subtask_views(v@) == seq![(id, link.name@)]);
                self.subtasks = Some(v);
            },
        }
        proof {
            let s = self@.subtasks.unwrap();
            if links_to(s, self.id) {
                let i = choose|i: int| 0 <= i < s.len() && #[trigger] s[i].0 == self.id;
                if i < s.len() - 1 {
                    assert(before.subtasks.unwrap()[i].0 == self.id);
                }
            }
        }
    }

    /// Removes every link to `id`; nothing changes where there is none.
    pub fn remove_subtask(&mut self, id: u128)
        requires
            old(self).wf(),
        ensures
            final(self)@ == old(self)@.without_subtask(id),
            final(self).wf(),
    {
        let ghost before = self@;
        match &self.subtasks {
            None => {},
            Some(v) => {
                let mut kept: Vec<Subtask> = Vec::new();
                let mut i: usize = 0;
                while i < v.len()
                    invariant
                        i <= v@.len(),
                        subtask_views(kept@) == unlinked(subtask_views(v@).take(i as int), id),
                    decreases v@.len() - i,
                {
                    let ghost pre = subtask_views(v@).take(i as int);
                    let ghost next = subtask_views(v@).take(i + 1);
                    assert(next.drop_last() == pre);
                    if v[i].id != id {
                        let ghost old_kept = kept@;
                        kept.push(Subtask { id: v[i].id, name: v[i].name.clone() });
                        assert(subtask_views(kept@) == subtask_views(old_kept).push(
                            subtask_views(v@)[i as int],
                        ));
                    }
                    i += 1;
                }
                assert(subtask_views(v@).take(v@.len() as int) == subtask_views(v@));
                proof {
                    lemma_unlinked(subtask_views(v@), id);
                }
                self.subtasks = Some(kept);
            },
        }
    }
}

impl Default for Task {
    /// A task named "New Task", with an empty description, created now.
    fn default() -> (r: Task)
        ensures
            r.wf(),
            r@.name == "New Task"@,
            r@.description == ""@,
            r@.started is None,
            r@.finished is None,
            r@.subtasks is None,
    {
        Task::create("New Task".to_owned(), "".to_owned())
    }
}

} // verus!

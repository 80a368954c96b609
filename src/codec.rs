//! The task document: a JSON-shaped tree, how a task is written into it,
//! and how one is read back, from the current layout and from the two
//! older ones (without subtasks; without creation time and subtasks).
use vstd::prelude::*;
use crate::task::{links_to, subtask_views, Subtask, Task, TaskView};
use crate::time::{format_time, now, parse_time, time_parse, time_text, Timestamp, NANOS_PER_SEC};

verus! {

/// A JSON-shaped document. Integers are split by sign so that a 128-bit
/// id fits; fractional numbers never occur in a task document.
#[derive(Debug)]
pub enum Doc {
    Null,
    Bool(bool),
    /// A non-negative integer.
    UInt(u128),
    /// A negative integer.
    Int(i128),
    Str(String),
    Array(Vec<Doc>),
    /// Keys and values in document order; a key may repeat.
    Object(Vec<(String, Doc)>),
}

/// The fields of a task document.
#[derive(Clone, Copy, Debug, PartialEq, Eq, Structural)]
pub enum Field {
    Id,
    CreationTime,
    Name,
    Description,
    Started,
    Finished,
    Subtasks,
}

/// Why a document is not a task (or a list of tasks).
#[derive(Clone, Debug, PartialEq, Eq)]
pub enum DecodeError {
    /// A required field is absent.
    MissingField(Field),
    /// A field occurs twice.
    DuplicateField(Field),
    /// A field's value has the wrong shape.
    InvalidValue(Field),
    /// A key that no field has.
    UnknownField(String),
    /// The fields contradict the task's invariant: a finish without a start
    /// or before it (`Finished`), or a task among its own subtasks
    /// (`Subtasks`).
    Inconsistent(Field),
    /// A positional document with a number of elements that no layout has.
    WrongLength(usize),
    /// Neither an object nor an array.
    NotATask,
    /// A task list that is not an array.
    NotAList,
}

impl Field {
    /// The field's key in a document.
    pub open spec fn key(self) -> Seq<char> {
        match self {
            Field::Id => "id"@,
            Field::CreationTime => "creationtime"@,
            Field::Name => "name"@,
            Field::Description => "description"@,
            Field::Started => "started"@,
            Field::Finished => "finished"@,
            Field::Subtasks => "subtasks"@,
        }
    }

    pub fn name(&self) -> (r: &'static str)
        ensures
            r@ == self.key(),
    {
        match self {
            Field::Id => "id",
            Field::CreationTime => "creationtime",
            Field::Name => "name",
            Field::Description => "description",
            Field::Started => "started",
            Field::Finished => "finished",
            Field::Subtasks => "subtasks",
        }
    }
}

/// The field that a key names.
pub open spec fn field_for(key: Seq<char>) -> Option<Field> {
    if key == Field::Id.key() {
        Some(Field::Id)
    } else if key == Field::CreationTime.key() {
        Some(Field::CreationTime)
    } else if key == Field::Name.key() {
        Some(Field::Name)
    } else if key == Field::Description.key() {
        Some(Field::Description)
    } else if key == Field::Started.key() {
        Some(Field::Started)
    } else if key == Field::Finished.key() {
        Some(Field::Finished)
    } else if key == Field::Subtasks.key() {
        Some(Field::Subtasks)
    } else {
        None
    }
}

/// The fields read so far; `None` where a field has not occurred.
pub struct Fields {
    pub id: Option<u128>,
    pub creation_time: Option<Timestamp>,
    pub name: Option<Seq<char>>,
    pub description: Option<Seq<char>>,
    pub started: Option<Option<Timestamp>>,
    pub finished: Option<Option<Timestamp>>,
    pub subtasks: Option<Option<Seq<(u128, Seq<char>)>>>,
}

pub open spec fn no_fields() -> Fields {
    Fields {
        id: None,
        creation_time: None,
        name: None,
        description: None,
        started: None,
        finished: None,
        subtasks: None,
    }
}

pub open spec fn read_id(d: Doc) -> Option<u128> {
    match d {
        Doc::UInt(n) => Some(n),
        _ => None,
    }
}

pub open spec fn read_text(d: Doc) -> Option<Seq<char>> {
    match d {
        Doc::Str(s) => Some(s@),
        _ => None,
    }
}

/// An instant in its text form, within range and outside a leap second.
pub open spec fn read_time(d: Doc) -> Option<Timestamp> {
    match d {
        Doc::Str(s) => match time_parse(s@) {
            Some(p) => if (Timestamp { secs: p.0, nanos: p.1 }).wf() {
                Some(Timestamp { secs: p.0, nanos: p.1 })
            } else {
                None
            },
            None => None,
        },
        _ => None,
    }
}

/// `null`, or an instant.
pub open spec fn read_opt_time(d: Doc) -> Option<Option<Timestamp>> {
    match d {
        Doc::Null => Some(None),
        _ => match read_time(d) {
            Some(t) => Some(Some(t)),
            None => None,
        },
    }
}

pub open spec fn uint_of(d: Doc) -> u128 {
    match d {
        Doc::UInt(n) => n,
        _ => 0,
    }
}

/// `null`, or an array of ids; the links read back carry empty names.
pub open spec fn read_links(d: Doc) -> Option<Option<Seq<(u128, Seq<char>)>>> {
    match d {
        Doc::Null => Some(None),
        Doc::Array(v) => if forall|i: int| 0 <= i < v@.len() ==> #[trigger] v@[i] is UInt {
            Some(Some(v@.map_values(|e: Doc| (uint_of(e), Seq::<char>::empty()))))
        } else {
            None
        },
        _ => None,
    }
}

pub open spec fn has_field(fs: Fields, f: Field) -> bool {
    match f {
        Field::Id => fs.id is Some,
        Field::CreationTime => fs.creation_time is Some,
        Field::Name => fs.name is Some,
        Field::Description => fs.description is Some,
        Field::Started => fs.started is Some,
        Field::Finished => fs.finished is Some,
        Field::Subtasks => fs.subtasks is Some,
    }
}

/// The fields with `f` read from `d`, or `None` if `d` has the wrong shape.
pub open spec fn put_field(fs: Fields, f: Field, d: Doc) -> Option<Fields> {
    match f {
        Field::Id => match read_id(d) {
            Some(x) => Some(Fields { id: Some(x), ..fs }),
            None => None,
        },
        Field::CreationTime => match read_time(d) {
            Some(x) => Some(Fields { creation_time: Some(x), ..fs }),
            None => None,
        },
        Field::Name => match read_text(d) {
            Some(x) => Some(Fields { name: Some(x), ..fs }),
            None => None,
        },
        Field::Description => match read_text(d) {
            Some(x) => Some(Fields { description: Some(x), ..fs }),
            None => None,
        },
        Field::Started => match read_opt_time(d) {
            Some(x) => Some(Fields { started: Some(x), ..fs }),
            None => None,
        },
        Field::Finished => match read_opt_time(d) {
            Some(x) => Some(Fields { finished: Some(x), ..fs }),
            None => None,
        },
        Field::Subtasks => match read_links(d) {
            Some(x) => Some(Fields { subtasks: Some(x), ..fs }),
            None => None,
        },
    }
}

/// Reading field `f` with value `d`: a field seen before is a duplicate,
/// and a value of the wrong shape is invalid.
pub open spec fn step(fs: Fields, f: Field, d: Doc) -> Result<Fields, DecodeError> {
    if has_field(fs, f) {
        Err(DecodeError::DuplicateField(f))
    } else {
        match put_field(fs, f, d) {
            Some(n) => Ok(n),
            None => Err(DecodeError::InvalidValue(f)),
        }
    }
}

/// The entries of an object read in order; the first fault ends the
/// reading.
pub open spec fn scan_entries(e: Seq<(String, Doc)>) -> Result<Fields, DecodeError>
    decreases e.len(),
{
    if e.len() == 0 {
        Ok(no_fields())
    } else {
        match scan_entries(e.drop_last()) {
            Err(x) => Err(x),
            Ok(fs) => match field_for(e.last().0@) {
                None => Err(DecodeError::UnknownField(e.last().0)),
                Some(f) => step(fs, f, e.last().1),
            },
        }
    }
}

/// The fields of a positional document with `n` elements: the current
/// layout has seven, the one before it no subtasks, the oldest no creation
/// time either.
pub open spec fn layout(n: nat) -> Seq<Field> {
    if n == 5 {
        seq![Field::Id, Field::Name, Field::Description, Field::Started, Field::Finished]
    } else if n == 6 {
        seq![
            Field::Id,
            Field::CreationTime,
            Field::Name,
            Field::Description,
            Field::Started,
            Field::Finished,
        ]
    } else {
        seq![
            Field::Id,
            Field::CreationTime,
            Field::Name,
            Field::Description,
            Field::Started,
            Field::Finished,
            Field::Subtasks,
        ]
    }
}

/// The elements of a positional document read in order against layout `l`.
pub open spec fn scan_elements(l: Seq<Field>, v: Seq<Doc>) -> Result<Fields, DecodeError>
    decreases v.len(),
{
    if v.len() == 0 {
        Ok(no_fields())
    } else {
        match scan_elements(l, v.drop_last()) {
            Err(x) => Err(x),
            Ok(fs) => step(fs, l[v.len() - 1], v.last()),
        }
    }
}

/// The task that the fields make. Creation time, where absent, is `now`;
/// subtasks, where absent, are none; every other field is required.
pub open spec fn assemble(fs: Fields, now: Timestamp) -> Result<TaskView, DecodeError> {
    if fs.id is None {
        Err(DecodeError::MissingField(Field::Id))
    } else if fs.name is None {
        Err(DecodeError::MissingField(Field::Name))
    } else if fs.description is None {
        Err(DecodeError::MissingField(Field::Description))
    } else if fs.started is None {
        Err(DecodeError::MissingField(Field::Started))
    } else if fs.finished is None {
        Err(DecodeError::MissingField(Field::Finished))
    } else {
        let t = TaskView {
            id: fs.id.unwrap(),
            creation_time: match fs.creation_time {
                Some(c) => c,
                None => now,
            },
            name: fs.name.unwrap(),
            description: fs.description.unwrap(),
            started: fs.started.unwrap(),
            finished: fs.finished.unwrap(),
            subtasks: match fs.subtasks {
                Some(s) => s,
                None => None,
            },
        };
        if t.finished is Some && t.started is None {
            Err(DecodeError::Inconsistent(Field::Finished))
        } else if (t.started, t.finished) matches (Some(s), Some(f)) && f.ns() < s.ns() {
            Err(DecodeError::Inconsistent(Field::Finished))
        } else if t.refers_to(t.id) {
            Err(DecodeError::Inconsistent(Field::Subtasks))
        } else {
            Ok(t)
        }
    }
}

/// The task that a document holds, keyed or positional. `now` stands in
/// for a creation time that the document lacks.
pub open spec fn decode(d: Doc, now: Timestamp) -> Result<TaskView, DecodeError> {
    match d {
        Doc::Object(e) => match scan_entries(e@) {
            Ok(fs) => assemble(fs, now),
            Err(x) => Err(x),
        },
        Doc::Array(v) => if 5 <= v@.len() <= 7 {
            match scan_elements(layout(v@.len()), v@) {
                Ok(fs) => assemble(fs, now),
                Err(x) => Err(x),
            }
        } else {
            Err(DecodeError::WrongLength(v@.len() as usize))
        },
        _ => Err(DecodeError::NotATask),
    }
}

/// The tasks of a list of documents, in order; the first fault ends it.
pub open spec fn decode_seq(v: Seq<Doc>, now: Timestamp) -> Result<Seq<TaskView>, DecodeError>
    decreases v.len(),
{
    if v.len() == 0 {
        Ok(Seq::empty())
    } else {
        match decode_seq(v.drop_last(), now) {
            Err(x) => Err(x),
            Ok(s) => match decode(v.last(), now) {
                Err(x) => Err(x),
                Ok(t) => Ok(s.push(t)),
            },
        }
    }
}

/// The tasks of a task-list document.
pub open spec fn decode_list(d: Doc, now: Timestamp) -> Result<Seq<TaskView>, DecodeError> {
    match d {
        Doc::Array(v) => decode_seq(v@, now),
        _ => Err(DecodeError::NotAList),
    }
}

/// `d` is a string holding `s`.
pub open spec fn text_is(d: Doc, s: Seq<char>) -> bool {
    d matches Doc::Str(x) && x@ == s
}

/// `d` is `null` for no instant, or the text form of the instant.
pub open spec fn opt_time_is(d: Doc, t: Option<Timestamp>) -> bool {
    match t {
        None => d is Null,
        Some(x) => text_is(d, time_text(x.parts())),
    }
}

/// `d` is `null` for no subtasks, or the array of their ids in order.
pub open spec fn links_are(d: Doc, s: Option<Seq<(u128, Seq<char>)>>) -> bool {
    match s {
        None => d is Null,
        Some(l) => d matches Doc::Array(v) && v@.len() == l.len() && forall|i: int|
            0 <= i < l.len() ==> #[trigger] v@[i] == Doc::UInt(l[i].0),
    }
}

/// `d` is the keyed document of task `t`, fields in their fixed order.
pub open spec fn encodes(d: Doc, t: TaskView) -> bool {
    d matches Doc::Object(e) && {
        &&& e@.len() == 7
        &&& e@[0].0@ == Field::Id.key() && e@[0].1 == Doc::UInt(t.id)
        &&& e@[1].0@ == Field::CreationTime.key() && text_is(
            e@[1].1,
            time_text(t.creation_time.parts()),
        )
        &&& e@[2].0@ == Field::Name.key() && text_is(e@[2].1, t.name)
        &&& e@[3].0@ == Field::Description.key() && text_is(e@[3].1, t.description)
        &&& e@[4].0@ == Field::Started.key() && opt_time_is(e@[4].1, t.started)
        &&& e@[5].0@ == Field::Finished.key() && opt_time_is(e@[5].1, t.finished)
        &&& e@[6].0@ == Field::Subtasks.key() && links_are(e@[6].1, t.subtasks)
    }
}

/// The task with the cached names of its subtasks emptied: what a document,
/// which holds ids only, gives back.
pub open spec fn unnamed(t: TaskView) -> TaskView {
    TaskView {
        subtasks: match t.subtasks {
            Some(s) => Some(s.map_values(|l: (u128, Seq<char>)| (l.0, Seq::<char>::empty()))),
            None => None,
        },
        ..t
    }
}

pub open spec fn task_result(r: Result<Task, DecodeError>) -> Result<TaskView, DecodeError> {
    match r {
        Ok(t) => Ok(t@),
        Err(x) => Err(x),
    }
}

pub open spec fn tasks_result(r: Result<Vec<Task>, DecodeError>) -> Result<
    Seq<TaskView>,
    DecodeError,
> {
    match r {
        Ok(v) => Ok(v@.map_values(|t: Task| t@)),
        Err(x) => Err(x),
    }
}

/// The fields as they are being read, before the task is assembled.
struct Partial {
    id: Option<u128>,
    creation_time: Option<Timestamp>,
    name: Option<String>,
    description: Option<String>,
    started: Option<Option<Timestamp>>,
    finished: Option<Option<Timestamp>>,
    subtasks: Option<Option<Vec<Subtask>>>,
}

spec fn fields_of(p: Partial) -> Fields {
    Fields {
        id: p.id,
        creation_time: p.creation_time,
        name: match p.name {
            Some(s) => Some(s@),
            None => None,
        },
        description: match p.description {
            Some(s) => Some(s@),
            None => None,
        },
        started: p.started,
        finished: p.finished,
        subtasks: match p.subtasks {
            Some(Some(v)) => Some(Some(subtask_views(v@))),
            Some(None) => Some(None),
            None => None,
        },
    }
}

/// Every instant read so far is valid.
spec fn fields_ok(fs: Fields) -> bool {
    &&& (fs.creation_time matches Some(t) ==> t.wf())
    &&& (fs.started matches Some(Some(t)) ==> t.wf())
    &&& (fs.finished matches Some(Some(t)) ==> t.wf())
}

fn same_text(a: &String, b: &str) -> (r: bool)
    ensures
        r == (a@ == b@),
{
    let owned: String = b.to_owned();
    *a == owned
}

fn field_of_key(key: &String) -> (r: Option<Field>)
    ensures
        r == field_for(key@),
{
    if same_text(key, "id") {
        Some(Field::Id)
    } else if same_text(key, "creationtime") {
        Some(Field::CreationTime)
    } else if same_text(key, "name") {
        Some(Field::Name)
    } else if same_text(key, "description") {
        Some(Field::Description)
    } else if same_text(key, "started") {
        Some(Field::Started)
    } else if same_text(key, "finished") {
        Some(Field::Finished)
    } else if same_text(key, "subtasks") {
        Some(Field::Subtasks)
    } else {
        None
    }
}

fn read_time_of(d: &Doc) -> (r: Option<Timestamp>)
    ensures
        r == read_time(*d),
        r matches Some(t) ==> t.wf(),
{
    match d {
        Doc::Str(s) => match parse_time(s.as_str()) {
            Some(p) => if p.1 < NANOS_PER_SEC {
                Some(Timestamp { secs: p.0, nanos: p.1 })
            } else {
                None
            },
            None => None,
        },
        _ => None,
    }
}

fn read_opt_time_of(d: &Doc) -> (r: Option<Option<Timestamp>>)
    ensures
        r == read_opt_time(*d),
        r matches Some(Some(t)) ==> t.wf(),
{
    match d {
        Doc::Null => Some(None),
        _ => match read_time_of(d) {
            Some(t) => Some(Some(t)),
            None => None,
        },
    }
}

fn read_links_of(d: &Doc) -> (r: Option<Option<Vec<Subtask>>>)
    ensures
        match r {
            Some(Some(v)) => read_links(*d) == Some(Some(subtask_views(v@))),
            Some(None) => read_links(*d) == Some(None::<Seq<(u128, Seq<char>)>>),
            None => read_links(*d) is None,
        },
{
    match d {
        Doc::Null => Some(None),
        Doc::Array(v) => {
            let mut out: Vec<Subtask> = Vec::new();
            let mut i: usize = 0;
            while i < v.len()
                invariant
                    *d == Doc::Array(*v),
                    i <= v@.len(),
                    out@.len() == i,
                    forall|j: int| 0 <= j < i ==> #[trigger] v@[j] is UInt,
                    forall|j: int|
                        0 <= j < i ==> #[trigger] subtask_views(out@)[j] == (
                            uint_of(v@[j]),
                            Seq::<char>::empty(),
                        ),
                decreases v@.len() - i,
            {
                match &v[i] {
                    Doc::UInt(n) => {
                        let ghost before = out@;
                        out.push(Subtask { id: *n, name: String::new() });
                        assert(subtask_views(out@) =~= subtask_views(before).push(
                            (*n, Seq::<char>::empty()),
                        ));
                    },
                    _ => {
                        return None;
                    },
                }
                i += 1;
            }
            let ghost want = v@.map_values(|e: Doc| (uint_of(e), Seq::<char>::empty()));
            assert(subtask_views(out@) =~= want);
            Some(Some(out))
        },
        _ => None,
    }
}

impl Partial {
    fn empty() -> (r: Partial)
        ensures
            fields_of(r) == no_fields(),
            fields_ok(fields_of(r)),
    {
        Partial {
            id: None,
            creation_time: None,
            name: None,
            description: None,
            started: None,
            finished: None,
            subtasks: None,
        }
    }

    fn has(&self, f: Field) -> (r: bool)
        ensures
            r == has_field(fields_of(*self), f),
    {
        match f {
            Field::Id => self.id.is_some(),
            Field::CreationTime => self.creation_time.is_some(),
            Field::Name => self.name.is_some(),
            Field::Description => self.description.is_some(),
            Field::Started => self.started.is_some(),
            Field::Finished => self.finished.is_some(),
            Field::Subtasks => self.subtasks.is_some(),
        }
    }

    /// Reads field `f` with value `d`.
    fn take_field(&mut self, f: Field, d: &Doc) -> (r: Result<(), DecodeError>)
        requires
            fields_ok(fields_of(*old(self))),
        ensures
            fields_ok(fields_of(*final(self))),
            match step(fields_of(*old(self)), f, *d) {
                Ok(n) => r is Ok && fields_of(*final(self)) == n,
                Err(x) => r == Err::<(), DecodeError>(x),
            },
    {
        if self.has(f) {
            return Err(DecodeError::DuplicateField(f));
        }
        let bad = Err(DecodeError::InvalidValue(f));
        match f {
            Field::Id => match d {
                Doc::UInt(n) => {
                    self.id = Some(*n);
                },
                _ => {
                    return bad;
                },
            },
            Field::CreationTime => match read_time_of(d) {
                Some(t) => {
                    self.creation_time = Some(t);
                },
                None => {
                    return bad;
                },
            },
            Field::Name => match d {
                Doc::Str(s) => {
                    self.name = Some(s.clone());
                },
                _ => {
                    return bad;
                },
            },
            Field::Description => match d {
                Doc::Str(s) => {
                    self.description = Some(s.clone());
                },
                _ => {
                    return bad;
                },
            },
            Field::Started => match read_opt_time_of(d) {
                Some(t) => {
                    self.started = Some(t);
                },
                None => {
                    return bad;
                },
            },
            Field::Finished => match read_opt_time_of(d) {
                Some(t) => {
                    self.finished = Some(t);
                },
                None => {
                    return bad;
                },
            },
            Field::Subtasks => match read_links_of(d) {
                Some(l) => {
                    self.subtasks = Some(l);
                },
                None => {
                    return bad;
                },
            },
        }
        Ok(())
    }

    /// The task that the fields make.
    fn assemble(self, now: Timestamp) -> (r: Result<Task, DecodeError>)
        requires
            now.wf(),
            fields_ok(fields_of(self)),
        ensures
            task_result(r) == assemble(fields_of(self), now),
            r matches Ok(t) ==> t.wf(),
    {
        let ghost fs = fields_of(self);
        let id = match self.id {
            Some(x) => x,
            None => {
                return Err(DecodeError::MissingField(Field::Id));
            },
        };
        let name = match self.name {
            Some(x) => x,
            None => {
                return Err(DecodeError::MissingField(Field::Name));
            },
        };
        let description = match self.description {
            Some(x) => x,
            None => {
                return Err(DecodeError::MissingField(Field::Description));
            },
        };
        let started = match self.started {
            Some(x) => x,
            None => {
                return Err(DecodeError::MissingField(Field::Started));
            },
        };
        let finished = match self.finished {
            Some(x) => x,
            None => {
                return Err(DecodeError::MissingField(Field::Finished));
            },
        };
        let creation_time = match self.creation_time {
            Some(c) => c,
            None => now,
        };
        let subtasks = match self.subtasks {
            Some(s) => s,
            None => None,
        };
        let task = Task { id, creation_time, name, description, started, finished, subtasks };
        match (started, finished) {
            (None, Some(_)) => {
                return Err(DecodeError::Inconsistent(Field::Finished));
            },
            (Some(s), Some(f)) => {
                if f.is_before(s) {
                    return Err(DecodeError::Inconsistent(Field::Finished));
                }
            },
            _ => {},
        }
        if task.has_subtask(id) {
            return Err(DecodeError::Inconsistent(Field::Subtasks));
        }
        Ok(task)
    }
}

proof fn lemma_entries_fault(e: Seq<(String, Doc)>, k: int)
    requires
        0 <= k <= e.len(),
        scan_entries(e.take(k)) is Err,
    ensures
        scan_entries(e) == scan_entries(e.take(k)),
    decreases e.len() - k,
{
    if k < e.len() {
        assert(e.take(k + 1).drop_last() =~= e.take(k));
        lemma_entries_fault(e, k + 1);
    } else {
        assert(e.take(k) =~= e);
    }
}

proof fn lemma_elements_fault(l: Seq<Field>, v: Seq<Doc>, k: int)
    requires
        0 <= k <= v.len(),
        scan_elements(l, v.take(k)) is Err,
    ensures
        scan_elements(l, v) == scan_elements(l, v.take(k)),
    decreases v.len() - k,
{
    if k < v.len() {
        assert(v.take(k + 1).drop_last() =~= v.take(k));
        lemma_elements_fault(l, v, k + 1);
    } else {
        assert(v.take(k) =~= v);
    }
}

fn scan_object(e: &Vec<(String, Doc)>) -> (r: Result<Partial, DecodeError>)
    ensures
        match r {
            Ok(p) => scan_entries(e@) == Ok::<Fields, DecodeError>(fields_of(p)) && fields_ok(
                fields_of(p),
            ),
            Err(x) => scan_entries(e@) == Err::<Fields, DecodeError>(x),
        },
{
    let mut p = Partial::empty();
    let mut i: usize = 0;
    assert(e@.take(0) =~= Seq::<(String, Doc)>::empty());
    while i < e.len()
        invariant
            i <= e@.len(),
            scan_entries(e@.take(i as int)) == Ok::<Fields, DecodeError>(fields_of(p)),
            fields_ok(fields_of(p)),
        decreases e@.len() - i,
    {
        let ghost next = e@.take(i + 1);
        assert(next.drop_last() =~= e@.take(i as int));
        assert(next.last() == e@[i as int]);
        let key = &e[i].0;
        match field_of_key(key) {
            None => {
                proof {
                    lemma_entries_fault(e@, i + 1);
                }
                return Err(DecodeError::UnknownField(key.clone()));
            },
            Some(f) => {
                match p.take_field(f, &e[i].1) {
                    Err(x) => {
                        proof {
                            lemma_entries_fault(e@, i + 1);
                        }
                        return Err(x);
                    },
                    Ok(()) => {},
                }
            },
        }
        i += 1;
    }
    assert(e@.take(e@.len() as int) =~= e@);
    Ok(p)
}

fn layout_field(n: usize, i: usize) -> (f: Field)
    requires
        5 <= n <= 7,
        i < n,
    ensures
        f == layout(n as nat)[i as int],
{
    let id_first = [Field::Id, Field::Name, Field::Description, Field::Started, Field::Finished];
    if n == 5 {
        id_first[i]
    } else if i == 0 {
        Field::Id
    } else if i == 1 {
        Field::CreationTime
    } else if i == 6 {
        Field::Subtasks
    } else {
        id_first[i - 1]
    }
}

fn scan_array(v: &Vec<Doc>) -> (r: Result<Partial, DecodeError>)
    requires
        5 <= v@.len() <= 7,
    ensures
        match r {
            Ok(p) => scan_elements(layout(v@.len()), v@) == Ok::<Fields, DecodeError>(
                fields_of(p),
            ) && fields_ok(fields_of(p)),
            Err(x) => scan_elements(layout(v@.len()), v@) == Err::<Fields, DecodeError>(x),
        },
{
    let ghost l = layout(v@.len());
    let mut p = Partial::empty();
    let mut i: usize = 0;
    assert(v@.take(0) =~= Seq::<Doc>::empty());
    while i < v.len()
        invariant
            5 <= v@.len() <= 7,
            l == layout(v@.len()),
            i <= v@.len(),
            scan_elements(l, v@.take(i as int)) == Ok::<Fields, DecodeError>(fields_of(p)),
            fields_ok(fields_of(p)),
        decreases v@.len() - i,
    {
        let ghost next = v@.take(i + 1);
        assert(next.drop_last() =~= v@.take(i as int));
        assert(next.last() == v@[i as int]);
        let f = layout_field(v.len(), i);
        match p.take_field(f, &v[i]) {
            Err(x) => {
                proof {
                    lemma_elements_fault(l, v@, i + 1);
                }
                return Err(x);
            },
            Ok(()) => {},
        }
        i += 1;
    }
    assert(v@.take(v@.len() as int) =~= v@);
    Ok(p)
}

/// Reads a task from its document; `now` stands in for a missing creation
/// time.
pub fn decode_task_at(d: &Doc, now: Timestamp) -> (r: Result<Task, DecodeError>)
    requires
        now.wf(),
    ensures
        task_result(r) == decode(*d, now),
        r matches Ok(t) ==> t.wf(),
{
    match d {
        Doc::Object(e) => match scan_object(e) {
            Ok(p) => p.assemble(now),
            Err(x) => Err(x),
        },
        Doc::Array(v) => {
            if v.len() < 5 || v.len() > 7 {
                return Err(DecodeError::WrongLength(v.len()));
            }
            match scan_array(v) {
                Ok(p) => p.assemble(now),
                Err(x) => Err(x),
            }
        },
        _ => Err(DecodeError::NotATask),
    }
}

/// Reads a task from its document; a missing creation time becomes the
/// time of reading.
pub fn decode_task(d: &Doc) -> (r: Result<Task, DecodeError>)
    ensures
        exists|t: Timestamp| t.wf() && task_result(r) == decode(*d, t),
        r matches Ok(t) ==> t.wf(),
{
    decode_task_at(d, now())
}

/// Reads a list of tasks; `now` stands in for missing creation times.
pub fn decode_all_at(d: &Doc, now: Timestamp) -> (r: Result<Vec<Task>, DecodeError>)
    requires
        now.wf(),
    ensures
        tasks_result(r) == decode_list(*d, now),
        r matches Ok(v) ==> forall|i: int| 0 <= i < v@.len() ==> (#[trigger] v@[i]).wf(),
{
    match d {
        Doc::Array(v) => {
            let mut out: Vec<Task> = Vec::new();
            let mut i: usize = 0;
            assert(v@.take(0) =~= Seq::<Doc>::empty());
            assert(out@.map_values(|t: Task| t@) =~= Seq::<TaskView>::empty());
            while i < v.len()
                invariant
                    *d == Doc::Array(*v),
                    now.wf(),
                    i <= v@.len(),
                    decode_seq(v@.take(i as int), now) == Ok::<Seq<TaskView>, DecodeError>(
                        out@.map_values(|t: Task| t@),
                    ),
                    forall|j: int| 0 <= j < out@.len() ==> (#[trigger] out@[j]).wf(),
                decreases v@.len() - i,
            {
                let ghost next = v@.take(i + 1);
                assert(next.drop_last() =~= v@.take(i as int));
                assert(next.last() == v@[i as int]);
                match decode_task_at(&v[i], now) {
                    Err(x) => {
                        proof {
                            lemma_list_fault(v@, now, i + 1);
                        }
                        return Err(x);
                    },
                    Ok(t) => {
                        let ghost before = out@;
                        out.push(t);
                        assert(out@.map_values(|t: Task| t@) =~= before.map_values(
                            |t: Task| t@,
                        ).push(t@));
                    },
                }
                i += 1;
            }
            assert(v@.take(v@.len() as int) =~= v@);
            Ok(out)
        },
        _ => Err(DecodeError::NotAList),
    }
}

proof fn lemma_list_fault(v: Seq<Doc>, now: Timestamp, k: int)
    requires
        0 <= k <= v.len(),
        decode_seq(v.take(k), now) is Err,
    ensures
        decode_seq(v, now) == decode_seq(v.take(k), now),
    decreases v.len() - k,
{
    if k < v.len() {
        assert(v.take(k + 1).drop_last() =~= v.take(k));
        lemma_list_fault(v, now, k + 1);
    } else {
        assert(v.take(k) =~= v);
    }
}

/// Reads a list of tasks; missing creation times become the time of
/// reading.
pub fn decode_all(d: &Doc) -> (r: Result<Vec<Task>, DecodeError>)
    ensures
        exists|t: Timestamp| t.wf() && tasks_result(r) == decode_list(*d, t),
        r matches Ok(v) ==> forall|i: int| 0 <= i < v@.len() ==> (#[trigger] v@[i]).wf(),
{
    decode_all_at(d, now())
}

/// Emptying the cached names keeps which ids a list links to.
proof fn lemma_unnamed_links(s: Seq<(u128, Seq<char>)>, k: u128)
    ensures
        links_to(s.map_values(|l: (u128, Seq<char>)| (l.0, Seq::<char>::empty())), k)
            == links_to(s, k),
{
    let m = s.map_values(|l: (u128, Seq<char>)| (l.0, Seq::<char>::empty()));
    if links_to(s, k) {
        let i = choose|i: int| 0 <= i < s.len() && #[trigger] s[i].0 == k;
        assert(m[i].0 == k);
    }
    if links_to(m, k) {
        let i = choose|i: int| 0 <= i < m.len() && #[trigger] m[i].0 == k;
        assert(s[i].0 == k);
    }
}

/// Each field's key names that field.
proof fn lemma_keys()
    ensures
        forall|f: Field| #[trigger] field_for(f.key()) == Some(f),
{
    reveal_strlit("id");
    reveal_strlit("creationtime");
    reveal_strlit("name");
    reveal_strlit("description");
    reveal_strlit("started");
    reveal_strlit("finished");
    reveal_strlit("subtasks");
    assert("id"@.len() == 2);
    assert("creationtime"@.len() == 12);
    assert("name"@.len() == 4);
    assert("description"@.len() == 11);
    assert("started"@.len() == 7);
    assert("finished"@.len() == 8);
    assert("subtasks"@.len() == 8);
    assert("finished"@[0] != "subtasks"@[0]);
    assert("name"@[0] != "id"@[0]);
}

fn time_doc(t: Timestamp) -> (r: Doc)
    requires
        t.wf(),
    ensures
        text_is(r, time_text(t.parts())),
        read_time(r) == Some(t),
{
    Doc::Str(format_time(t))
}

fn opt_time_doc(t: Option<Timestamp>) -> (r: Doc)
    requires
        t matches Some(x) ==> x.wf(),
    ensures
        opt_time_is(r, t),
        read_opt_time(r) == Some(t),
{
    match t {
        Some(x) => time_doc(x),
        None => Doc::Null,
    }
}

fn links_doc(s: &Option<Vec<Subtask>>) -> (r: Doc)
    ensures
        links_are(
            r,
            match *s {
                Some(v) => Some(subtask_views(v@)),
                None => None,
            },
        ),
        read_links(r) == Some(match *s {
            Some(v) => Some(
                subtask_views(v@).map_values(
                    |l: (u128, Seq<char>)| (l.0, Seq::<char>::empty()),
                ),
            ),
            None => None::<Seq<(u128, Seq<char>)>>,
        }),
{
    match s {
        None => Doc::Null,
        Some(v) => {
            let mut ids: Vec<Doc> = Vec::new();
            let mut i: usize = 0;
            while i < v.len()
                invariant
                    *s == Some(*v),
                    i <= v@.len(),
                    ids@.len() == i,
                    forall|j: int| 0 <= j < i ==> #[trigger] ids@[j] == Doc::UInt(v@[j].id),
                decreases v@.len() - i,
            {
                ids.push(Doc::UInt(v[i].id));
                i += 1;
            }
            let ghost l = subtask_views(v@);
            assert forall|j: int| 0 <= j < l.len() implies #[trigger] ids@[j] == Doc::UInt(
                l[j].0,
            ) by {
                assert(ids@[j] == Doc::UInt(v@[j].id));
            }
            assert forall|j: int| 0 <= j < ids@.len() implies #[trigger] ids@[j] is UInt by {
                assert(ids@[j] == Doc::UInt(v@[j].id));
            }
            assert(ids@.map_values(|e: Doc| (uint_of(e), Seq::<char>::empty())) =~= l.map_values(
                |l: (u128, Seq<char>)| (l.0, Seq::<char>::empty()),
            ));
            Doc::Array(ids)
        },
    }
}

/// Writes a task as its keyed document. Reading that document back gives
/// the task again, with the cached names of its subtasks emptied (the
/// document holds their ids only).
pub fn encode_task(t: &Task) -> (r: Doc)
    requires
        t.wf(),
    ensures
        encodes(r, t@),
        forall|now: Timestamp|
            decode(r, now) == Ok::<TaskView, DecodeError>(unnamed(t@)),
{
    proof {
        lemma_keys();
        assert(field_for(Field::Id.key()) == Some(Field::Id));
        assert(field_for(Field::CreationTime.key()) == Some(Field::CreationTime));
        assert(field_for(Field::Name.key()) == Some(Field::Name));
        assert(field_for(Field::Description.key()) == Some(Field::Description));
        assert(field_for(Field::Started.key()) == Some(Field::Started));
        assert(field_for(Field::Finished.key()) == Some(Field::Finished));
        assert(field_for(Field::Subtasks.key()) == Some(Field::Subtasks));
    }
    let ghost f0 = no_fields();
    assert(scan_entries(Seq::<(String, Doc)>::empty()) == Ok::<Fields, DecodeError>(f0));
    let mut e: Vec<(String, Doc)> = Vec::new();

    e.push(("id".to_owned(), Doc::UInt(t.id)));
    let ghost f1 = Fields { id: Some(t.id), ..f0 };
    assert(e@.drop_last() =~= Seq::<(String, Doc)>::empty());
    assert(scan_entries(e@) == Ok::<Fields, DecodeError>(f1));

    let ghost e1 = e@;
    e.push(("creationtime".to_owned(), time_doc(t.creation_time)));
    let ghost f2 = Fields { creation_time: Some(t.creation_time), ..f1 };
    assert(e@.drop_last() =~= e1);
    assert(scan_entries(e@) == Ok::<Fields, DecodeError>(f2));

    let ghost e2 = e@;
    e.push(("name".to_owned(), Doc::Str(t.name.clone())));
    let ghost f3 = Fields { name: Some(t.name@), ..f2 };
    assert(e@.drop_last() =~= e2);
    assert(scan_entries(e@) == Ok::<Fields, DecodeError>(f3));

    let ghost e3 = e@;
    e.push(("description".to_owned(), Doc::Str(t.description.clone())));
    let ghost f4 = Fields { description: Some(t.description@), ..f3 };
    assert(e@.drop_last() =~= e3);
    assert(scan_entries(e@) == Ok::<Fields, DecodeError>(f4));

    let ghost e4 = e@;
    e.push(("started".to_owned(), opt_time_doc(t.started)));
    let ghost f5 = Fields { started: Some(t.started), ..f4 };
    assert(e@.drop_last() =~= e4);
    assert(scan_entries(e@) == Ok::<Fields, DecodeError>(f5));

    let ghost e5 = e@;
    e.push(("finished".to_owned(), opt_time_doc(t.finished)));
    let ghost f6 = Fields { finished: Some(t.finished), ..f5 };
    assert(e@.drop_last() =~= e5);
    assert(scan_entries(e@) == Ok::<Fields, DecodeError>(f6));

    let ghost e6 = e@;
    e.push(("subtasks".to_owned(), links_doc(&t.subtasks)));
    let ghost f7 = Fields { subtasks: Some(unnamed(t@).subtasks), ..f6 };
    assert(e@.drop_last() =~= e6);
    assert(scan_entries(e@) == Ok::<Fields, DecodeError>(f7));

    proof {
        if let Some(s) = t@.subtasks {
            lemma_unnamed_links(s, t.id);
        }
        assert forall|now: Timestamp|
            assemble(f7, now) == Ok::<TaskView, DecodeError>(unnamed(t@)) by {}
    }
    Doc::Object(e)
}

/// Writes a list of tasks as an array of their documents, in order.
/// Reading it back gives the tasks again, cached subtask names emptied.
pub fn encode_all(tasks: &Vec<Task>) -> (r: Doc)
    requires
        forall|i: int| 0 <= i < tasks@.len() ==> (#[trigger] tasks@[i]).wf(),
    ensures
        r matches Doc::Array(v) && v@.len() == tasks@.len() && forall|i: int|
            0 <= i < tasks@.len() ==> encodes(#[trigger] v@[i], tasks@[i]@),
        forall|now: Timestamp|
            decode_list(r, now) == Ok::<Seq<TaskView>, DecodeError>(
                tasks@.map_values(|t: Task| unnamed(t@)),
            ),
{
    let mut out: Vec<Doc> = Vec::new();
    let mut i: usize = 0;
    while i < tasks.len()
        invariant
            forall|i: int| 0 <= i < tasks@.len() ==> (#[trigger] tasks@[i]).wf(),
            i <= tasks@.len(),
            out@.len() == i,
            forall|j: int| 0 <= j < i ==> encodes(#[trigger] out@[j], tasks@[j]@),
            forall|j: int, now: Timestamp|
                0 <= j < i ==> #[trigger] decode(out@[j], now) == Ok::<TaskView, DecodeError>(
                    unnamed(tasks@[j]@),
                ),
        decreases tasks@.len() - i,
    {
        let d = encode_task(&tasks[i]);
        out.push(d);
        i += 1;
    }
    proof {
        assert forall|now: Timestamp|
            decode_seq(out@, now) == Ok::<Seq<TaskView>, DecodeError>(
                tasks@.map_values(|t: Task| unnamed(t@)),
            ) by {
            lemma_decode_seq_all(out@, tasks@.map_values(|t: Task| unnamed(t@)), now);
        }
    }
    Doc::Array(out)
}

proof fn lemma_decode_seq_all(v: Seq<Doc>, ts: Seq<TaskView>, now: Timestamp)
    requires
        v.len() == ts.len(),
        forall|j: int| 0 <= j < v.len() ==> #[trigger] decode(v[j], now) == Ok::<TaskView, DecodeError>(ts[j]),
    ensures
        decode_seq(v, now) == Ok::<Seq<TaskView>, DecodeError>(ts),
    decreases v.len(),
{
    if v.len() > 0 {
        let n = v.len() - 1;
        assert forall|j: int| 0 <= j < v.drop_last().len() implies #[trigger] decode(v.drop_last()[j], now) == Ok::<TaskView, DecodeError>(ts.drop_last()[j]) by {
            assert(decode(v[j], now) == Ok::<TaskView, DecodeError>(ts[j]));
        }
        lemma_decode_seq_all(v.drop_last(), ts.drop_last(), now);
        assert(decode(v[n], now) == Ok::<TaskView, DecodeError>(ts[n]));
        assert(ts.drop_last().push(ts.last()) =~= ts);
    } else {
        assert(ts =~= Seq::<TaskView>::empty());
    }
}

/// Reading entries none of which is keyed "subtasks" leaves subtasks unread.
proof fn lemma_scan_without_subtasks(e: Seq<(String, Doc)>)
    requires
        forall|i: int| 0 <= i < e.len() ==> (#[trigger] e[i]).0@ != Field::Subtasks.key(),
        scan_entries(e) is Ok,
    ensures
        scan_entries(e).unwrap().subtasks is None,
    decreases e.len(),
{
    if e.len() > 0 {
        let p = e.drop_last();
        assert forall|i: int| 0 <= i < p.len() implies (#[trigger] p[i]).0@
            != Field::Subtasks.key() by {
            assert(p[i] == e[i]);
        }
        lemma_scan_without_subtasks(p);
        assert(e[e.len() - 1].0@ != Field::Subtasks.key());
    }
}

/// A keyed document without a "subtasks" entry, where it decodes, gives a
/// task with no subtasks (none, rather than an empty list).
pub proof fn lemma_missing_subtasks(e: Vec<(String, Doc)>, now: Timestamp)
    requires
        forall|i: int| 0 <= i < e@.len() ==> (#[trigger] e@[i]).0@ != Field::Subtasks.key(),
        decode(Doc::Object(e), now) is Ok,
    ensures
        decode(Doc::Object(e), now).unwrap().subtasks is None,
{
    lemma_scan_without_subtasks(e@);
}

} // verus!

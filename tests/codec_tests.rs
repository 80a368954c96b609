use taskman::{
    decode_all, decode_all_at, decode_task, decode_task_at, encode_all, encode_task, DecodeError,
    Doc, Field, Task, Timestamp,
};

fn at(secs: i64) -> Timestamp {
    Timestamp { secs, nanos: 0 }
}

fn text(s: &str) -> Doc {
    Doc::Str(s.to_string())
}

fn object(entries: Vec<(&str, Doc)>) -> Doc {
    Doc::Object(entries.into_iter().map(|(k, v)| (k.to_string(), v)).collect())
}

/// A keyed document of the current layout, from its parts.
fn full_doc(id: u128, subtasks: Doc) -> Doc {
    object(vec![
        ("id", Doc::UInt(id)),
        ("creationtime", text("2023-11-14T22:13:20Z")),
        ("name", text("write report")),
        ("description", text("quarterly")),
        ("started", text("2023-11-14T22:14:20Z")),
        ("finished", Doc::Null),
        ("subtasks", subtasks),
    ])
}

#[test]
fn ser_de() {
    let task = Task::default();
    let doc = encode_task(&task);
    let des_d = decode_task(&doc).unwrap();
    assert_eq!(task, des_d)
}

#[test]
fn encode_writes_fields_in_order_with_integer_ids() {
    let mut t = Task::with_parts(
        0x1234_5678_9abc_def0_1122_3344_5566_7788,
        at(1_700_000_000),
        "n".to_string(),
        "d".to_string(),
    );
    t.add_subtask(5, String::new());
    t.add_subtask(u128::MAX, String::new());
    let doc = encode_task(&t);
    let Doc::Object(entries) = doc else { panic!("not an object") };
    let keys: Vec<&str> = entries.iter().map(|(k, _)| k.as_str()).collect();
    assert_eq!(
        keys,
        vec!["id", "creationtime", "name", "description", "started", "finished", "subtasks"]
    );
    assert!(matches!(entries[0].1, Doc::UInt(0x1234_5678_9abc_def0_1122_3344_5566_7788)));
    assert!(matches!(&entries[1].1, Doc::Str(s) if s == "2023-11-14T22:13:20Z"));
    assert!(matches!(entries[4].1, Doc::Null));
    match &entries[6].1 {
        Doc::Array(ids) => {
            assert_eq!(ids.len(), 2);
            assert!(matches!(ids[0], Doc::UInt(5)));
            assert!(matches!(ids[1], Doc::UInt(u128::MAX)));
        }
        _ => panic!("subtasks not an array"),
    }
}

#[test]
fn encode_writes_fractional_seconds() {
    let mut t = Task::with_parts(1, at(1_700_000_000), String::new(), String::new());
    t.start_at(Timestamp { secs: 1_700_000_001, nanos: 500_000_000 });
    let Doc::Object(entries) = encode_task(&t) else { panic!("not an object") };
    assert!(matches!(&entries[4].1, Doc::Str(s) if s == "2023-11-14T22:13:21.500Z"));
}

#[test]
fn round_trip_keeps_every_field() {
    let mut t = Task::with_parts(99, Timestamp { secs: 1_700_000_000, nanos: 123_456_789 },
        "name".to_string(), "desc".to_string());
    t.start_at(Timestamp { secs: 1_700_000_100, nanos: 1 });
    t.finish_at(Timestamp { secs: 1_700_003_000, nanos: 0 });
    t.add_subtask(4, String::new());
    t.add_subtask(2, String::new());
    let back = decode_task_at(&encode_task(&t), at(0)).unwrap();
    assert_eq!(back, t);
}

#[test]
fn round_trip_keeps_empty_subtask_list_apart_from_none() {
    let mut t = Task::with_parts(9, at(1_700_000_000), String::new(), String::new());
    t.add_subtask(4, String::new());
    t.remove_subtask(4);
    assert_eq!(t.subtasks.as_ref().map(|v| v.len()), Some(0));
    let back = decode_task_at(&encode_task(&t), at(0)).unwrap();
    assert_eq!(back.subtasks.as_ref().map(|v| v.len()), Some(0));
}

#[test]
fn round_trip_empties_cached_subtask_names() {
    let mut t = Task::with_parts(9, at(1_700_000_000), String::new(), String::new());
    t.add_subtask(4, "cached".to_string());
    let back = decode_task_at(&encode_task(&t), at(0)).unwrap();
    let subs = back.subtasks.unwrap();
    assert_eq!(subs.len(), 1);
    assert_eq!(subs[0].id, 4);
    assert_eq!(subs[0].name, "");
}

#[test]
fn decode_keyed_document() {
    let doc = full_doc(42, Doc::Array(vec![Doc::UInt(7), Doc::UInt(3)]));
    let t = decode_task_at(&doc, at(0)).unwrap();
    assert_eq!(t.id, 42);
    assert_eq!(t.creation_time, at(1_700_000_000));
    assert_eq!(t.name, "write report");
    assert_eq!(t.description, "quarterly");
    assert_eq!(t.started, Some(at(1_700_000_060)));
    assert_eq!(t.finished, None);
    let ids: Vec<u128> = t.subtasks.unwrap().iter().map(|s| s.id).collect();
    assert_eq!(ids, vec![7, 3]);
}

#[test]
fn decode_reads_offsets_as_utc() {
    let doc = object(vec![
        ("id", Doc::UInt(1)),
        ("creationtime", text("2023-11-14T23:13:20.5+01:00")),
        ("name", text("")),
        ("description", text("")),
        ("started", Doc::Null),
        ("finished", Doc::Null),
        ("subtasks", Doc::Null),
    ]);
    let t = decode_task_at(&doc, at(0)).unwrap();
    assert_eq!(t.creation_time, Timestamp { secs: 1_700_000_000, nanos: 500_000_000 });
}

#[test]
fn decode_accepts_fields_in_any_order() {
    let doc = object(vec![
        ("subtasks", Doc::Null),
        ("name", text("x")),
        ("finished", Doc::Null),
        ("description", text("y")),
        ("started", Doc::Null),
        ("creationtime", text("2023-11-14T22:13:20Z")),
        ("id", Doc::UInt(5)),
    ]);
    let t = decode_task_at(&doc, at(0)).unwrap();
    assert_eq!(t.id, 5);
    assert_eq!(t.name, "x");
    assert!(t.subtasks.is_none());
}

#[test]
fn decode_missing_subtasks_gives_none() {
    let doc = object(vec![
        ("id", Doc::UInt(1)),
        ("creationtime", text("2023-11-14T22:13:20Z")),
        ("name", text("n")),
        ("description", text("d")),
        ("started", Doc::Null),
        ("finished", Doc::Null),
    ]);
    let t = decode_task_at(&doc, at(0)).unwrap();
    assert!(t.subtasks.is_none());
    assert_eq!(t.creation_time, at(1_700_000_000));
}

#[test]
fn decode_missing_creation_time_uses_now() {
    let doc = object(vec![
        ("id", Doc::UInt(1)),
        ("name", text("n")),
        ("description", text("d")),
        ("started", Doc::Null),
        ("finished", Doc::Null),
    ]);
    let t = decode_task_at(&doc, at(1_234)).unwrap();
    assert_eq!(t.creation_time, at(1_234));
    let t = decode_task(&doc).unwrap();
    assert!(t.creation_time.secs > 1_577_836_800);
}

#[test]
fn decode_positional_current_layout() {
    let doc = Doc::Array(vec![
        Doc::UInt(8),
        text("2023-11-14T22:13:20Z"),
        text("n"),
        text("d"),
        text("2023-11-14T22:14:20Z"),
        text("2023-11-14T22:15:20Z"),
        Doc::Array(vec![Doc::UInt(2)]),
    ]);
    let t = decode_task_at(&doc, at(0)).unwrap();
    assert_eq!(t.id, 8);
    assert_eq!(t.creation_time, at(1_700_000_000));
    assert_eq!(t.finished, Some(at(1_700_000_120)));
    assert_eq!(t.subtasks.unwrap()[0].id, 2);
}

#[test]
fn decode_positional_without_subtasks() {
    let doc = Doc::Array(vec![
        Doc::UInt(8),
        text("2023-11-14T22:13:20Z"),
        text("n"),
        text("d"),
        Doc::Null,
        Doc::Null,
    ]);
    let t = decode_task_at(&doc, at(0)).unwrap();
    assert_eq!(t.creation_time, at(1_700_000_000));
    assert!(t.subtasks.is_none());
}

#[test]
fn decode_positional_oldest_layout() {
    let doc = Doc::Array(vec![Doc::UInt(8), text("n"), text("d"), Doc::Null, Doc::Null]);
    let t = decode_task_at(&doc, at(77)).unwrap();
    assert_eq!(t.creation_time, at(77));
    assert_eq!(t.name, "n");
    assert_eq!(t.description, "d");
    assert!(t.subtasks.is_none());
}

#[test]
fn decode_positional_wrong_length() {
    let doc = Doc::Array(vec![Doc::UInt(8), text("n"), text("d"), Doc::Null]);
    assert_eq!(decode_task_at(&doc, at(0)), Err(DecodeError::WrongLength(4)));
}

#[test]
fn decode_positional_invalid_element() {
    let doc = Doc::Array(vec![Doc::UInt(8), text("n"), Doc::UInt(3), Doc::Null, Doc::Null]);
    assert_eq!(
        decode_task_at(&doc, at(0)),
        Err(DecodeError::InvalidValue(Field::Description))
    );
}

#[test]
fn decode_missing_required_field() {
    let doc = object(vec![
        ("id", Doc::UInt(1)),
        ("name", text("n")),
        ("started", Doc::Null),
        ("finished", Doc::Null),
    ]);
    assert_eq!(
        decode_task_at(&doc, at(0)),
        Err(DecodeError::MissingField(Field::Description))
    );
    let doc = object(vec![("name", text("n"))]);
    assert_eq!(decode_task_at(&doc, at(0)), Err(DecodeError::MissingField(Field::Id)));
}

#[test]
fn decode_duplicate_field() {
    let doc = object(vec![("id", Doc::UInt(1)), ("name", text("n")), ("name", text("m"))]);
    assert_eq!(decode_task_at(&doc, at(0)), Err(DecodeError::DuplicateField(Field::Name)));
}

#[test]
fn decode_invalid_id() {
    let doc = full_doc(1, Doc::Null);
    let Doc::Object(mut entries) = doc else { panic!("not an object") };
    entries[0].1 = text("00000000-0000-0000-0000-000000000001");
    let doc = Doc::Object(entries);
    assert_eq!(decode_task_at(&doc, at(0)), Err(DecodeError::InvalidValue(Field::Id)));
    let doc = object(vec![("id", Doc::Int(-1))]);
    assert_eq!(decode_task_at(&doc, at(0)), Err(DecodeError::InvalidValue(Field::Id)));
}

#[test]
fn decode_invalid_timestamp_and_subtask() {
    let doc = object(vec![("id", Doc::UInt(1)), ("creationtime", text("yesterday"))]);
    assert_eq!(
        decode_task_at(&doc, at(0)),
        Err(DecodeError::InvalidValue(Field::CreationTime))
    );
    let doc = full_doc(1, Doc::Array(vec![Doc::UInt(2), text("3")]));
    assert_eq!(decode_task_at(&doc, at(0)), Err(DecodeError::InvalidValue(Field::Subtasks)));
    let doc = full_doc(1, Doc::Bool(true));
    assert_eq!(decode_task_at(&doc, at(0)), Err(DecodeError::InvalidValue(Field::Subtasks)));
}

#[test]
fn decode_unknown_field() {
    let doc = object(vec![("id", Doc::UInt(1)), ("colour", text("red"))]);
    assert_eq!(
        decode_task_at(&doc, at(0)),
        Err(DecodeError::UnknownField("colour".to_string()))
    );
}

#[test]
fn decode_first_fault_in_document_order_wins() {
    let doc = object(vec![("id", text("x")), ("bogus", Doc::Null)]);
    assert_eq!(decode_task_at(&doc, at(0)), Err(DecodeError::InvalidValue(Field::Id)));
}

#[test]
fn decode_finish_without_start_is_inconsistent() {
    let doc = object(vec![
        ("id", Doc::UInt(1)),
        ("creationtime", text("2023-11-14T22:13:20Z")),
        ("name", text("n")),
        ("description", text("d")),
        ("started", Doc::Null),
        ("finished", text("2023-11-14T22:13:20Z")),
        ("subtasks", Doc::Null),
    ]);
    assert_eq!(decode_task_at(&doc, at(0)), Err(DecodeError::Inconsistent(Field::Finished)));
}

#[test]
fn decode_finish_before_start_is_inconsistent() {
    let doc = Doc::Array(vec![
        Doc::UInt(1),
        text("n"),
        text("d"),
        text("2023-11-14T22:13:20Z"),
        text("2023-11-14T22:13:19Z"),
    ]);
    assert_eq!(decode_task_at(&doc, at(0)), Err(DecodeError::Inconsistent(Field::Finished)));
}

#[test]
fn decode_self_reference_is_inconsistent() {
    let doc = full_doc(6, Doc::Array(vec![Doc::UInt(6)]));
    assert_eq!(decode_task_at(&doc, at(0)), Err(DecodeError::Inconsistent(Field::Subtasks)));
}

#[test]
fn decode_neither_object_nor_array() {
    assert_eq!(decode_task_at(&Doc::UInt(3), at(0)), Err(DecodeError::NotATask));
    assert_eq!(decode_task_at(&Doc::Null, at(0)), Err(DecodeError::NotATask));
}

#[test]
fn decode_list_of_tasks() {
    let a = Task::with_parts(1, at(1_700_000_000), "a".to_string(), String::new());
    let b = Task::with_parts(2, at(1_600_000_000), "b".to_string(), String::new());
    let tasks = vec![a.clone(), b.clone()];
    let doc = encode_all(&tasks);
    let back = decode_all_at(&doc, at(0)).unwrap();
    assert_eq!(back, vec![a, b]);
    assert_eq!(decode_all(&doc).unwrap().len(), 2);
}

#[test]
fn decode_list_reports_first_bad_task() {
    let doc = Doc::Array(vec![full_doc(1, Doc::Null), Doc::Null, object(vec![])]);
    assert_eq!(decode_all_at(&doc, at(0)), Err(DecodeError::NotATask));
    assert_eq!(decode_all_at(&full_doc(1, Doc::Null), at(0)), Err(DecodeError::NotAList));
}

#[test]
fn field_names_are_document_keys() {
    assert_eq!(Field::Id.name(), "id");
    assert_eq!(Field::CreationTime.name(), "creationtime");
    assert_eq!(Field::Subtasks.name(), "subtasks");
}

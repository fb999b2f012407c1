use email_abstract_rs::data_sql::{
    search_events_by_time_begin, store_json_to_db, EventStore, StoreError, StoredEvent,
    UpsertOutcome,
};
use email_abstract_rs::event::{EventField, ExtractedEvent, MissingFieldPolicy};

fn json_events(text: &str) -> Vec<serde_json::Value> {
    serde_json::from_str(text).unwrap()
}

fn event(
    sender: &str,
    title: &str,
    time_begin: &str,
    time_end: &str,
    position: &str,
    abstract_text: &str,
) -> ExtractedEvent {
    ExtractedEvent {
        sender: sender.to_string(),
        event: title.to_string(),
        time_begin: time_begin.to_string(),
        time_end: time_end.to_string(),
        position: position.to_string(),
        abstract_text: abstract_text.to_string(),
        speaker_name: String::new(),
        speaker_title: String::new(),
    }
}

#[test]
fn test_store_json_to_db_english() {
    let mut store = EventStore::new();

    let test_events = json_events(
        r#"[{
    "sender": "test@example.com",
    "event": "Test Event",
    "time_begin": "2023-01-01T10:00:00",
    "time_end": "2023-01-01T11:00:00",
    "position": "Room 101",
    "abstract": "This is a test abstract with English content."
  }]"#,
    );

    let result = store_json_to_db(test_events.clone(), &mut store, MissingFieldPolicy::UseEmpty);
    assert!(result.is_ok());

    let rows = store.rows();
    let event = &rows[0].event;

    assert_eq!(event.sender, "test@example.com");
    assert_eq!(event.event, "Test Event");
    assert_eq!(event.time_begin, "2023-01-01T10:00:00");
    assert_eq!(event.time_end, "2023-01-01T11:00:00");
    assert_eq!(event.position, "Room 101");
    assert_eq!(
        event.abstract_text,
        "This is a test abstract with English content."
    );
}

#[test]
fn test_store_json_to_db_chinese() {
    let mut store = EventStore::new();

    let test_events = json_events(
        r#"[{
    "sender": "测试@example.com",
    "event": "测试活动",
    "time_begin": "2023-01-01T10:00:00",
    "time_end": "2023-01-01T11:00:00",
    "position": "清华大学主楼",
    "abstract": "这是一个中文摘要，测试数据库对中文的支持。"
  }]"#,
    );

    let result = store_json_to_db(test_events.clone(), &mut store, MissingFieldPolicy::UseEmpty);
    assert!(result.is_ok());

    let rows = store.rows();
    let event = &rows[0].event;

    assert_eq!(event.sender, "测试@example.com");
    assert_eq!(event.event, "测试活动");
    assert_eq!(event.time_begin, "2023-01-01T10:00:00");
    assert_eq!(event.time_end, "2023-01-01T11:00:00");
    assert_eq!(event.position, "清华大学主楼");
    assert_eq!(
        event.abstract_text,
        "这是一个中文摘要，测试数据库对中文的支持。"
    );
}

#[test]
fn test_store_json_to_db_multiple_events() {
    let mut store = EventStore::new();

    let test_events = json_events(
        r#"[
    {
      "sender": "english@example.com",
      "event": "English Event",
      "time_begin": "2023-01-01T10:00:00",
      "time_end": "2023-01-01T11:00:00",
      "position": "Room 101",
      "abstract": "English abstract text."
    },
    {
      "sender": "chinese@example.com",
      "event": "中文活动",
      "time_begin": "2023-01-02T14:00:00",
      "time_end": "2023-01-02T16:00:00",
      "position": "图书馆",
      "abstract": "中文摘要内容。"
    },
    {
      "sender": "mixed@example.com",
      "event": "Mixed 混合 Event",
      "time_begin": "2023-01-03T09:00:00",
      "time_end": "2023-01-03T10:30:00",
      "position": "Conference Room 会议室",
      "abstract": "This is a mixed language abstract 这是一个混合语言的摘要。"
    }
  ]"#,
    );

    let result = store_json_to_db(test_events.clone(), &mut store, MissingFieldPolicy::UseEmpty);
    assert!(result.is_ok());

    let count = store.rows().len();
    assert_eq!(count, 3);

    let mut results: Vec<(String, String, String)> = store
        .rows()
        .iter()
        .map(|row| {
            (
                row.event.time_begin.clone(),
                row.event.sender.clone(),
                row.event.event.clone(),
            )
        })
        .collect();
    results.sort();

    assert_eq!(results.len(), 3);
    assert_eq!(results[0].1, "english@example.com");
    assert_eq!(results[0].2, "English Event");
    assert_eq!(results[1].1, "chinese@example.com");
    assert_eq!(results[1].2, "中文活动");
    assert_eq!(results[2].1, "mixed@example.com");
    assert_eq!(results[2].2, "Mixed 混合 Event");
}

#[test]
fn store_json_reports_inserts_and_updates() {
    let mut store = EventStore::new();
    let text = r#"[{
    "sender": "test@example.com",
    "event": "Test Event",
    "time_begin": "2023-01-01T10:00:00",
    "time_end": "2023-01-01T11:00:00",
    "position": "Room 101",
    "abstract": "first",
    "speaker_name": "Ada",
    "speaker_title": "Prof."
  }]"#;
    assert_eq!(
        store_json_to_db(json_events(text), &mut store, MissingFieldPolicy::Reject),
        Ok((1, 0))
    );
    assert_eq!(
        store_json_to_db(json_events(text), &mut store, MissingFieldPolicy::Reject),
        Ok((0, 1))
    );
    assert_eq!(store.rows().len(), 1);
    assert_eq!(store.rows()[0].id, 1);
    assert_eq!(store.rows()[0].event.speaker_name, "Ada");
    assert_eq!(store.rows()[0].event.speaker_title, "Prof.");
}

#[test]
fn store_json_of_an_empty_array_changes_nothing() {
    let mut store = EventStore::new();
    assert_eq!(
        store_json_to_db(json_events("[]"), &mut store, MissingFieldPolicy::Reject),
        Ok((0, 0))
    );
    assert!(store.rows().is_empty());
    assert_eq!(store.next_id(), 1);
}

#[test]
fn store_json_defaults_missing_and_non_text_members_to_empty() {
    let mut store = EventStore::new();
    let events = json_events(r#"[{"sender": "a@b.c", "event": 7, "position": null}, 3, "x"]"#);
    assert_eq!(
        store_json_to_db(events, &mut store, MissingFieldPolicy::UseEmpty),
        Ok((2, 1))
    );
    let rows = store.rows();
    assert_eq!(rows.len(), 2);
    assert_eq!(rows[0].event.sender, "a@b.c");
    assert_eq!(rows[0].event.event, "");
    assert_eq!(rows[0].event.position, "");
    assert_eq!(rows[1].event.sender, "");
    assert_eq!(rows[1].event.abstract_text, "");
}

#[test]
fn store_json_rejects_a_record_with_missing_fields_and_keeps_the_store() {
    let mut store = EventStore::new();
    let complete = r#"{"sender": "s", "event": "e", "time_begin": "b", "time_end": "t",
        "position": "p", "abstract": "a", "speaker_name": "n", "speaker_title": "st"}"#;
    let lacking = r#"{"sender": "s2", "event": "e", "time_end": "t", "position": "p",
        "abstract": "a", "speaker_title": 5}"#;
    let text = format!("[{},{},{}]", complete, lacking, "{}");
    let error = store_json_to_db(json_events(&text), &mut store, MissingFieldPolicy::Reject)
        .unwrap_err();
    assert_eq!(error.index, 1);
    assert_eq!(
        error.missing,
        vec![
            EventField::TimeBegin,
            EventField::SpeakerName,
            EventField::SpeakerTitle
        ]
    );
    assert!(store.rows().is_empty());
    assert_eq!(store.next_id(), 1);
}

#[test]
fn upsert_twice_counts_one_insert_then_one_update() {
    let mut store = EventStore::new();
    let first = event("a@x", "Talk", "2023-01-01 10:00", "2023-01-01 11:00", "Hall", "old");
    let mut second = first.clone();
    second.abstract_text = "new".to_string();
    second.speaker_name = "Lin".to_string();
    assert_eq!(store.upsert(vec![first.clone()]), (1, 0));
    assert_eq!(store.upsert(vec![second.clone()]), (0, 1));
    assert_eq!(store.rows().len(), 1);
    assert_eq!(store.rows()[0].event, second);
    assert_eq!(store.rows()[0].id, 1);
    assert_eq!(store.upsert(vec![second.clone()]), (0, 1));
    assert_eq!(store.rows().len(), 1);
    assert_eq!(store.rows()[0].event, second);
}

#[test]
fn events_that_differ_only_in_title_are_one_record() {
    let mut store = EventStore::new();
    let first = event("a@x", "Talk", "2023-01-01 10:00", "2023-01-01 11:00", "Hall", "text");
    let mut renamed = first.clone();
    renamed.event = "Lecture".to_string();
    assert_eq!(store.upsert_event(first), UpsertOutcome::Inserted);
    assert_eq!(store.upsert_event(renamed.clone()), UpsertOutcome::Updated);
    assert_eq!(store.rows().len(), 1);
    assert_eq!(store.rows()[0].event.event, "Lecture");
    assert_eq!(store.rows()[0].event, renamed);
}

#[test]
fn events_that_differ_in_one_key_field_are_separate_records() {
    let base = event("a@x", "Talk", "2023-01-01 10:00", "2023-01-01 11:00", "Hall", "text");
    let mut other_sender = base.clone();
    other_sender.sender = "b@x".to_string();
    let mut other_place = base.clone();
    other_place.position = "Room".to_string();
    let mut other_begin = base.clone();
    other_begin.time_begin = "2023-01-01 10:30".to_string();
    let mut other_end = base.clone();
    other_end.time_end = "2023-01-01 12:00".to_string();
    let mut store = EventStore::new();
    let counts = store.upsert(vec![
        base.clone(),
        other_sender,
        other_place,
        other_begin,
        other_end,
        base.clone(),
    ]);
    assert_eq!(counts, (5, 1));
    assert_eq!(store.rows().len(), 5);
    let ids: Vec<u64> = store.rows().iter().map(|row| row.id).collect();
    assert_eq!(ids, vec![1, 2, 3, 4, 5]);
    assert_eq!(store.next_id(), 6);
}

#[test]
fn find_key_gives_the_place_of_the_row() {
    let mut store = EventStore::new();
    let first = event("a@x", "A", "t1", "t2", "p", "");
    let second = event("b@x", "B", "t1", "t2", "p", "");
    let absent = event("c@x", "C", "t1", "t2", "p", "");
    store.upsert(vec![first.clone(), second.clone()]);
    assert_eq!(store.find_key(&first), Some(0));
    assert_eq!(store.find_key(&second), Some(1));
    assert_eq!(store.find_key(&absent), None);
}

#[test]
fn search_returns_exactly_the_rows_of_that_day() {
    let mut store = EventStore::new();
    store.upsert(vec![
        event("a@x", "A", "2023-01-01T10:00:00", "e", "p", ""),
        event("b@x", "B", "2023-01-02T14:00:00", "e", "p", ""),
        event("c@x", "C", "2023-01-01T16:00:00", "e", "p", ""),
        event("d@x", "D", "2023-11-01T16:00:00", "2023-01-01", "2023-01-01", "2023-01-01"),
    ]);
    let found = search_events_by_time_begin("2023-01-01", &store);
    let senders: Vec<&str> = found.iter().map(|row| row.event.sender.as_str()).collect();
    assert_eq!(senders, vec!["a@x", "c@x"]);
    assert_eq!(found[0].id, 1);
    assert_eq!(found[1].id, 3);
    assert!(search_events_by_time_begin("2024", &store).is_empty());
    assert_eq!(search_events_by_time_begin("", &store).len(), 4);
}

#[test]
fn search_is_case_sensitive_and_knows_no_wildcard() {
    let mut store = EventStore::new();
    store.upsert(vec![
        event("a@x", "A", "2023-01-01T10:00:00", "e", "p", ""),
        event("b@x", "B", "100% sure_ly", "e", "p", ""),
    ]);
    assert_eq!(search_events_by_time_begin("T10", &store).len(), 1);
    assert!(search_events_by_time_begin("t10", &store).is_empty());
    assert!(search_events_by_time_begin("2023%", &store).is_empty());
    assert!(search_events_by_time_begin("2023_01", &store).is_empty());
    assert_eq!(search_events_by_time_begin("% sure_", &store).len(), 1);
}

#[test]
fn three_events_in_mixed_languages_round_trip() {
    let mut ascii = event(
        "english@example.com",
        "English Event",
        "2023-01-01T10:00:00",
        "2023-01-01T11:00:00",
        "Room 101",
        "English abstract text.",
    );
    ascii.speaker_name = "Grace Hopper".to_string();
    ascii.speaker_title = "Rear Admiral".to_string();
    let mut chinese = event(
        "中文@例子.中国",
        "中文活动",
        "2025年03月04日 14时00分",
        "2025年03月04日 16时00分",
        "图书馆",
        "中文摘要内容。",
    );
    chinese.speaker_name = "张三".to_string();
    chinese.speaker_title = "北京大学教授".to_string();
    let mut mixed = event(
        "mixed@example.com",
        "Mixed 混合 Event",
        "2023-01-03T09:00:00 上午",
        "2023-01-03T10:30:00",
        "Conference Room 会议室",
        "This is a mixed language abstract 这是一个混合语言的摘要。",
    );
    mixed.speaker_name = "Dr. 李".to_string();
    mixed.speaker_title = "Professor 教授".to_string();

    let mut store = EventStore::new();
    assert_eq!(
        store.upsert(vec![ascii.clone(), chinese.clone(), mixed.clone()]),
        (3, 0)
    );
    assert_eq!(
        search_events_by_time_begin("2023-01-01", &store),
        vec![StoredEvent { id: 1, event: ascii }]
    );
    assert_eq!(
        search_events_by_time_begin("03月04日", &store),
        vec![StoredEvent { id: 2, event: chinese }]
    );
    assert_eq!(
        search_events_by_time_begin("00 上", &store),
        vec![StoredEvent { id: 3, event: mixed }]
    );
}

#[test]
fn from_rows_keeps_rows_and_continues_the_ids() {
    let rows = vec![
        StoredEvent { id: 7, event: event("a@x", "A", "t1", "t2", "p", "") },
        StoredEvent { id: 3, event: event("b@x", "B", "t1", "t2", "p", "") },
    ];
    let mut store = EventStore::from_rows(rows.clone()).unwrap();
    assert_eq!(store.rows(), &rows);
    assert_eq!(store.next_id(), 8);
    assert_eq!(
        store.upsert_event(event("c@x", "C", "t1", "t2", "p", "")),
        UpsertOutcome::Inserted
    );
    assert_eq!(store.rows()[2].id, 8);
    assert_eq!(
        store.upsert_event(event("b@x", "B2", "t1", "t2", "p", "changed")),
        UpsertOutcome::Updated
    );
    assert_eq!(store.rows()[1].id, 3);
    assert_eq!(store.rows()[1].event.event, "B2");
    assert_eq!(store.rows()[1].event.abstract_text, "changed");
    let empty = EventStore::from_rows(Vec::new()).unwrap();
    assert_eq!(empty.next_id(), 1);
}

#[test]
fn from_rows_refuses_a_repeated_key() {
    let rows = vec![
        StoredEvent { id: 1, event: event("a@x", "A", "t1", "t2", "p", "") },
        StoredEvent { id: 2, event: event("b@x", "B", "t1", "t2", "p", "") },
        StoredEvent { id: 2, event: event("a@x", "other", "t1", "t2", "p", "x") },
    ];
    assert_eq!(
        EventStore::from_rows(rows).err(),
        Some(StoreError::DuplicateKey)
    );
}

#[test]
fn from_rows_refuses_a_repeated_id() {
    let rows = vec![
        StoredEvent { id: 4, event: event("a@x", "A", "t1", "t2", "p", "") },
        StoredEvent { id: 5, event: event("b@x", "B", "t1", "t2", "p", "") },
        StoredEvent { id: 4, event: event("c@x", "C", "t1", "t2", "p", "") },
    ];
    assert_eq!(
        EventStore::from_rows(rows).err(),
        Some(StoreError::DuplicateId)
    );
}

#[test]
fn from_rows_refuses_the_largest_id() {
    let rows = vec![
        StoredEvent { id: u64::MAX, event: event("a@x", "A", "t1", "t2", "p", "") },
    ];
    assert_eq!(
        EventStore::from_rows(rows).err(),
        Some(StoreError::IdsExhausted)
    );
    let rows = vec![
        StoredEvent { id: u64::MAX - 1, event: event("a@x", "A", "t1", "t2", "p", "") },
    ];
    assert_eq!(EventStore::from_rows(rows).unwrap().next_id(), u64::MAX);
}

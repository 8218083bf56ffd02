use flowsync_core::{AIInsights, DataError, Task, TaskPriority, TaskStatus};
use flowsync_core::codec::{deserialize_task, serialize_task};

fn simple_task() -> Task {
    Task {
        id: String::from("t1"),
        title: String::from("Ship v1"),
        description: None,
        status: TaskStatus::Todo,
        priority: TaskPriority::High,
        ai_insights: None,
    }
}

fn full_task() -> Task {
    Task {
        id: String::from("task-42"),
        title: String::from("Write the report"),
        description: Some(String::from("Cover Q3 and Q4, with charts")),
        status: TaskStatus::InProgress,
        priority: TaskPriority::Critical,
        ai_insights: Some(AIInsights {
            complexity_bits: 7.5f32.to_bits(),
            recommended_subtasks: vec![
                String::from("gather data"),
                String::from("draft"),
                String::from("review"),
            ],
            potential_blockers: vec![String::from("missing Q4 numbers")],
        }),
    }
}

#[test]
fn round_trip_simple_task() {
    let t = simple_task();
    let bytes = serialize_task(&t);
    let back = deserialize_task(&bytes).expect("serialized task must deserialize");
    assert_eq!(back, t);
}

#[test]
fn round_trip_full_task() {
    let t = full_task();
    let bytes = serialize_task(&t);
    let back = deserialize_task(&bytes).expect("serialized task must deserialize");
    assert_eq!(back, t);
}

#[test]
fn round_trip_all_status_and_priority_variants() {
    let statuses = [
        TaskStatus::Todo,
        TaskStatus::InProgress,
        TaskStatus::Done,
        TaskStatus::Blocked,
    ];
    let priorities = [
        TaskPriority::Low,
        TaskPriority::Medium,
        TaskPriority::High,
        TaskPriority::Critical,
    ];
    for status in statuses {
        for priority in priorities {
            let mut t = simple_task();
            t.status = status;
            t.priority = priority;
            let back = deserialize_task(&serialize_task(&t)).unwrap();
            assert_eq!(back, t);
        }
    }
}

#[test]
fn round_trip_optional_field_combinations() {
    let insights = AIInsights {
        complexity_bits: 0.25f32.to_bits(),
        recommended_subtasks: vec![],
        potential_blockers: vec![String::from("a"), String::from("b")],
    };
    for desc in [None, Some(String::from("a description"))] {
        for ins in [None, Some(insights.clone())] {
            let mut t = simple_task();
            t.description = desc.clone();
            t.ai_insights = ins.clone();
            let back = deserialize_task(&serialize_task(&t)).unwrap();
            assert_eq!(back, t);
        }
    }
}

#[test]
fn round_trip_empty_and_unicode_texts() {
    let mut t = simple_task();
    t.id = String::new();
    t.title = String::from("résumé ✓ 日本語");
    t.description = Some(String::new());
    let back = deserialize_task(&serialize_task(&t)).unwrap();
    assert_eq!(back, t);
}

#[test]
fn round_trip_preserves_subtask_order() {
    let mut t = simple_task();
    t.ai_insights = Some(AIInsights {
        complexity_bits: 3.0f32.to_bits(),
        recommended_subtasks: vec![
            String::from("third"),
            String::from("first"),
            String::from("second"),
        ],
        potential_blockers: vec![],
    });
    let back = deserialize_task(&serialize_task(&t)).unwrap();
    let ins = back.ai_insights.unwrap();
    assert_eq!(
        ins.recommended_subtasks,
        vec![
            String::from("third"),
            String::from("first"),
            String::from("second")
        ]
    );
}

#[test]
fn complexity_bits_round_trip_exactly() {
    for score in [0.0f32, -1.5, 3.25, f32::MAX, f32::MIN_POSITIVE] {
        let mut t = simple_task();
        t.ai_insights = Some(AIInsights {
            complexity_bits: score.to_bits(),
            recommended_subtasks: vec![],
            potential_blockers: vec![],
        });
        let back = deserialize_task(&serialize_task(&t)).unwrap();
        let bits = back.ai_insights.unwrap().complexity_bits;
        assert_eq!(f32::from_bits(bits), score);
    }
}

#[test]
fn deserialize_rejects_empty_payload() {
    assert_eq!(deserialize_task(&[]), Err(DataError::MalformedData));
}

#[test]
fn deserialize_rejects_truncated_payload() {
    let bytes = serialize_task(&full_task());
    for cut in [1, bytes.len() / 2, bytes.len() - 1] {
        let truncated = &bytes[..cut];
        assert_eq!(deserialize_task(truncated), Err(DataError::MalformedData));
    }
}

#[test]
fn deserialize_rejects_trailing_bytes() {
    let mut bytes = serialize_task(&simple_task());
    bytes.push(0);
    assert_eq!(deserialize_task(&bytes), Err(DataError::MalformedData));
}

#[test]
fn deserialize_rejects_bad_enum_tag() {
    let t = simple_task();
    let bytes = serialize_task(&t);
    // The status tag sits right after the two texts and the absent
    // description: 8 + 2 bytes for "t1", 8 + 7 for "Ship v1", 1 for None.
    let status_at = 8 + 2 + 8 + 7 + 1;
    let mut bad = bytes.clone();
    bad[status_at] = 9;
    assert_eq!(deserialize_task(&bad), Err(DataError::MalformedData));
    let mut bad = bytes.clone();
    bad[status_at + 1] = 200;
    assert_eq!(deserialize_task(&bad), Err(DataError::MalformedData));
}

#[test]
fn deserialize_rejects_bad_presence_byte() {
    let t = simple_task();
    let mut bytes = serialize_task(&t);
    let desc_at = 8 + 2 + 8 + 7;
    assert_eq!(bytes[desc_at], 0);
    bytes[desc_at] = 2;
    assert_eq!(deserialize_task(&bytes), Err(DataError::MalformedData));
}

#[test]
fn deserialize_rejects_invalid_utf8() {
    let t = simple_task();
    let mut bytes = serialize_task(&t);
    // First byte of the id's text: a lone continuation byte is not UTF-8.
    bytes[8] = 0xFF;
    assert_eq!(deserialize_task(&bytes), Err(DataError::MalformedData));
}

#[test]
fn serialized_form_is_not_the_plain_text() {
    // The codec must actually encode: the output carries length prefixes and
    // tags, not just the concatenated field texts.
    let t = simple_task();
    let bytes = serialize_task(&t);
    assert_ne!(bytes, b"t1Ship v1".to_vec());
    assert_eq!(&bytes[..8], &2u64.to_le_bytes());
    assert_eq!(&bytes[8..10], b"t1");
}

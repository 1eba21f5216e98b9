use blog::activity::{
    build_activity_create_query, build_activity_from_map, deserialize_activity_values,
    value_to_activity, ActivityId, DecodedActivity, Field, FieldValue, ListItem, RecordId,
    StoredValue,
};

fn field(name: &str, value: FieldValue, shown: &str) -> Field {
    Field {
        name: name.to_string(),
        value,
        shown: shown.to_string(),
    }
}

fn text(s: &str) -> FieldValue {
    FieldValue::Text(s.to_string())
}

#[test]
fn activity_fields_decode_with_defaults() {
    let fields = vec![
        field("content", text("Hello"), "'Hello'"),
        field(
            "tags",
            FieldValue::List(vec![
                ListItem::Text("rust".to_string()),
                ListItem::Null,
            ]),
            "['rust', NONE]",
        ),
        field("source", FieldValue::Null, "NULL"),
        field(
            "id",
            FieldValue::Record(RecordId {
                table: "activity".to_string(),
                key: "abc".to_string(),
            }),
            "activity:abc",
        ),
    ];
    let a = build_activity_from_map(&fields).unwrap();
    assert_eq!(a.content, "Hello");
    assert_eq!(a.tags, vec!["rust".to_string(), String::new()]);
    assert_eq!(a.source, None);
    assert_eq!(a.created_at, "");
    assert_eq!(
        a.id,
        ActivityId::Record(RecordId {
            table: "activity".to_string(),
            key: "abc".to_string()
        })
    );
}

#[test]
fn activity_fields_of_the_wrong_shape_are_reported() {
    let fields = vec![field("content", FieldValue::Other, "42")];
    assert_eq!(
        build_activity_from_map(&fields),
        Err("Expected string for field 'content' but found 42".to_string())
    );
    let fields = vec![field("tags", text("rust"), "'rust'")];
    assert_eq!(
        build_activity_from_map(&fields),
        Err("Expected array for field 'tags' but found 'rust'".to_string())
    );
    let fields = vec![field(
        "tags",
        FieldValue::List(vec![ListItem::Other("7".to_string())]),
        "[7]",
    )];
    assert_eq!(
        build_activity_from_map(&fields),
        Err("Expected string inside array field 'tags' but found 7".to_string())
    );
    let fields = vec![field("source", FieldValue::Other, "true")];
    assert_eq!(
        build_activity_from_map(&fields),
        Err("Expected string or null for field 'source' but found true".to_string())
    );
    let fields = vec![field("id", FieldValue::Other, "3")];
    assert_eq!(
        build_activity_from_map(&fields),
        Err("Expected thing for field 'id' but found 3".to_string())
    );
}

#[test]
fn a_later_field_replaces_an_earlier_one_and_text_ids_wait_for_parsing() {
    let fields = vec![
        field("content", text("old"), "'old'"),
        field("content", text("new"), "'new'"),
        field("id", text("activity:xyz"), "'activity:xyz'"),
    ];
    let a = build_activity_from_map(&fields).unwrap();
    assert_eq!(a.content, "new");
    assert_eq!(a.id, ActivityId::Text("activity:xyz".to_string()));
}

#[test]
fn stored_values_must_be_objects() {
    assert_eq!(
        value_to_activity(&StoredValue::NotAnObject("'hi'".to_string())),
        Err("Expected activity object but received value: 'hi'".to_string())
    );
    let values = vec![
        StoredValue::Object(vec![field("content", text("a"), "'a'")]),
        StoredValue::NotAnObject("3".to_string()),
    ];
    assert_eq!(
        deserialize_activity_values(&values),
        Err("Deserialization error: Expected activity object but received value: 3".to_string())
    );
    let values = vec![
        StoredValue::Object(vec![field("content", text("a"), "'a'")]),
        StoredValue::Object(vec![]),
    ];
    let decoded = deserialize_activity_values(&values).unwrap();
    assert_eq!(decoded.len(), 2);
    assert_eq!(decoded[0].content, "a");
    assert_eq!(decoded[1].content, "");
}

#[test]
fn create_query_uses_the_record_id_when_given() {
    assert_eq!(
        build_activity_create_query(Some("activity:one"), "{\"content\":\"x\"}"),
        "CREATE activity:one CONTENT {\"content\":\"x\"} RETURN *;"
    );
    assert_eq!(
        build_activity_create_query(None, "{}"),
        "CREATE activity CONTENT {} RETURN *;"
    );
}

/// An activity with the default id `activity:0` and the given fields.
fn activity_with(content: &str, tags: &[&str], source: Option<&str>, created_at: &str) -> DecodedActivity {
    DecodedActivity {
        id: ActivityId::Record(RecordId { table: "activity".to_string(), key: "0".to_string() }),
        content: content.to_string(),
        tags: tags.iter().map(|t| t.to_string()).collect(),
        source: source.map(|s| s.to_string()),
        created_at: created_at.to_string(),
    }
}

#[test]
fn types_test_activity_partial_equality() {
    let activity1 = activity_with("Test content", &["test"], Some("https://example.com"), "2023-01-01T00:00:00Z");
    let activity2 = activity_with("Test content", &["test"], Some("https://example.com"), "2023-01-01T00:00:00Z");
    assert_eq!(activity1, activity2);
}

#[test]
fn types_test_activity_inequality() {
    let activity1 = activity_with("Content 1", &[], None, "");
    let activity2 = activity_with("Content 2", &[], None, "");
    assert_ne!(activity1, activity2);
}

#[test]
fn types_test_activity_clone() {
    let original = activity_with("Clone test", &["clone"], Some("https://clone.com"), "2023-01-01T00:00:00Z");
    let cloned = original.clone();
    assert_eq!(original, cloned);
    assert_eq!(original.content, cloned.content);
    assert_eq!(original.tags, cloned.tags);
    assert_eq!(original.source, cloned.source);
}

#[test]
fn types_test_activity_debug_format() {
    let activity = activity_with("Debug test", &["debug"], Some("https://debug.com"), "2023-01-01T00:00:00Z");
    let debug_string = format!("{:?}", activity);
    assert!(debug_string.contains("Activity"));
    assert!(debug_string.contains("Debug test"));
    assert!(debug_string.contains("debug"));
    assert!(debug_string.contains("https://debug.com"));
}

#[test]
fn activity_unit_tests_test_activity_partial_equality() {
    let activity1 = activity_with("Test content", &["test"], Some("https://example.com"), "2023-01-01T00:00:00Z");
    let activity2 = activity_with("Test content", &["test"], Some("https://example.com"), "2023-01-01T00:00:00Z");
    assert_eq!(activity1, activity2);
}

#[test]
fn activity_unit_tests_test_activity_inequality() {
    let activity1 = activity_with("Content 1", &[], None, "");
    let activity2 = activity_with("Content 2", &[], None, "");
    assert_ne!(activity1, activity2);
}

#[test]
fn activity_unit_tests_test_activity_clone() {
    let original = activity_with("Clone test", &["clone"], Some("https://clone.com"), "2023-01-01T00:00:00Z");
    let cloned = original.clone();
    assert_eq!(original, cloned);
    assert_eq!(original.content, cloned.content);
    assert_eq!(original.tags, cloned.tags);
    assert_eq!(original.source, cloned.source);
}

#[test]
fn activity_unit_tests_test_activity_debug_format() {
    let activity = activity_with("Debug test", &["debug"], Some("https://debug.com"), "2023-01-01T00:00:00Z");
    let debug_string = format!("{:?}", activity);
    assert!(debug_string.contains("Activity"));
    assert!(debug_string.contains("Debug test"));
    assert!(debug_string.contains("debug"));
    assert!(debug_string.contains("https://debug.com"));
}

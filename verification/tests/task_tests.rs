use braid::task::{attribute_to_keyword, extract_json_number, extract_json_string, parse_bead_line};

#[test]
fn extract_json_string_basic() {
    let json = r#"{"id":"brai-123","title":"Fix bug","status":"open"}"#;
    assert_eq!(extract_json_string(json, "id"), Some("brai-123".to_string()));
    assert_eq!(extract_json_string(json, "title"), Some("Fix bug".to_string()));
    assert_eq!(extract_json_string(json, "status"), Some("open".to_string()));
    assert_eq!(extract_json_string(json, "missing"), None);
}

#[test]
fn extract_json_number_basic() {
    let json = r#"{"priority":1,"count":42}"#;
    assert_eq!(extract_json_number(json, "priority"), Some(1));
    assert_eq!(extract_json_number(json, "count"), Some(42));
}

#[test]
fn parse_bead_line_complete() {
    let line = r#"{"id":"brai-2o3j","title":"Phase A Epic","status":"open","priority":0,"type":"epic"}"#;
    let bead = parse_bead_line(line).unwrap();
    assert_eq!(bead.task_id, "brai-2o3j");
    assert_eq!(bead.title, "Phase A Epic");
    assert_eq!(bead.priority, 0);
    assert_eq!(bead.task_type, "epic");
}

#[test]
fn json_string_allows_space_after_colon_and_needs_a_quote() {
    assert_eq!(extract_json_string(r#"{"a": "x y"}"#, "a"), Some("x y".to_string()));
    assert_eq!(extract_json_string(r#"{"a": 5}"#, "a"), None);
    assert_eq!(extract_json_string(r#"{"a":"unterminated"#, "a"), None);
}

#[test]
fn json_number_needs_a_terminator_and_valid_digits() {
    assert_eq!(extract_json_number(r#"{"n":-12}"#, "n"), Some(-12));
    assert_eq!(extract_json_number(r#"{"n":12"#, "n"), None);
    assert_eq!(extract_json_number(r#"{"n":1-2}"#, "n"), None);
    assert_eq!(extract_json_number(r#"{"n":"3"}"#, "n"), None);
}

#[test]
fn bead_defaults_and_short_ids() {
    let bead = parse_bead_line(r#"{"id":"abcdefghijk","title":"T"}"#).unwrap();
    assert_eq!(bead.original_id, "abcdefghijk");
    assert_eq!(bead.task_id, "b-abcdefgh");
    assert_eq!(bead.status, "open");
    assert_eq!(bead.priority, 2);
    assert_eq!(bead.task_type, "task");
    assert_eq!(bead.description, None);
    assert!(bead.labels.is_empty());
    let short = parse_bead_line(r#"{"id":"x1","title":"T","description":"d"}"#).unwrap();
    assert_eq!(short.task_id, "b-x1");
    assert_eq!(short.description, Some("d".to_string()));
}

#[test]
fn bead_needs_id_and_title() {
    assert!(parse_bead_line(r#"{"title":"T"}"#).is_none());
    assert!(parse_bead_line(r#"{"id":"brai-1"}"#).is_none());
}

#[test]
fn attribute_keywords() {
    assert_eq!(attribute_to_keyword("priority"), Some(":task/priority"));
    assert_eq!(attribute_to_keyword("status"), Some(":task/status"));
    assert_eq!(attribute_to_keyword("type"), Some(":task/type"));
    assert_eq!(attribute_to_keyword("title"), Some(":task/title"));
    assert_eq!(attribute_to_keyword("owner"), None);
}

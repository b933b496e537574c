use wezterm_git_status_bridge::event::{parse_event_json, pane_context_from_value, JsonValue};

#[test]
fn reads_pane_context_from_direct_pane_event() {
    let context = parse_event_json(
        r#"{"pane":{"pane_id":"w1:p1","foreground_cwd":"/repo","cwd":"/fallback"}}"#,
    )
    .expect("parse event")
    .expect("context");

    assert_eq!(context.pane_id, "w1:p1");
    assert_eq!(context.cwd, "/repo");
}

#[test]
fn falls_back_to_focused_pane_context() {
    let context = parse_event_json(r#"{"focused_pane":{"pane_id":"w2:p3","cwd":"/focused"}}"#)
        .expect("parse event")
        .expect("context");

    assert_eq!(context.pane_id, "w2:p3");
    assert_eq!(context.cwd, "/focused");
}

#[test]
fn reads_top_level_pane_context_from_pane_list_item() {
    let context = parse_event_json(r#"{"pane_id":"w3:p4","foreground_cwd":"/current"}"#)
        .expect("parse event")
        .expect("context");

    assert_eq!(context.pane_id, "w3:p4");
    assert_eq!(context.cwd, "/current");
}

#[test]
fn returns_none_when_required_fields_are_missing() {
    let context = parse_event_json(r#"{"pane":{"pane_id":"w1:p1"}}"#).expect("parse event");

    assert_eq!(context, None);
}

#[test]
fn blank_event_names_no_pane_and_bad_json_is_an_error() {
    assert!(matches!(parse_event_json(" \n\t"), Ok(None)));
    assert!(matches!(parse_event_json(""), Ok(None)));
    assert!(parse_event_json("{not json").is_err());
    assert!(matches!(parse_event_json("[1, 2]"), Ok(None)));
}

#[test]
fn empty_strings_fall_through_to_later_paths() {
    let context = parse_event_json(
        r#"{"pane_id":"","pane":{"pane_id":"w9"},"cwd":"","result":{"pane":{"cwd":"/deep"}}}"#,
    )
    .expect("parse event")
    .expect("context");
    assert_eq!(context.pane_id, "w9");
    assert_eq!(context.cwd, "/deep");
}

#[test]
fn reads_context_from_a_built_value() {
    let value = JsonValue::Object(vec![
        ("pane_id".to_owned(), JsonValue::String("w5".to_owned())),
        ("cwd".to_owned(), JsonValue::String("/w".to_owned())),
        ("foreground_cwd".to_owned(), JsonValue::Number),
    ]);
    let context = pane_context_from_value(&value).expect("context");
    assert_eq!(context.pane_id, "w5");
    assert_eq!(context.cwd, "/w");
    assert_eq!(pane_context_from_value(&JsonValue::Null), None);
}

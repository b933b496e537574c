use wezterm_git_status_bridge::event::JsonValue;
use wezterm_git_status_bridge::herdr::{focused_pane_from_json, focused_pane_from_value};

#[test]
fn reads_focused_pane_from_pane_list_response() {
    let context = focused_pane_from_json(
        br#"{
          "result": {
            "panes": [
              {"pane_id":"w1:p1","focused":false,"foreground_cwd":"/old"},
              {"pane_id":"w1:p2","focused":true,"foreground_cwd":"/current"}
            ]
          }
        }"#,
    )
    .expect("parse pane list")
    .expect("context");

    assert_eq!(context.pane_id, "w1:p2");
    assert_eq!(context.cwd, "/current");
}

#[test]
fn returns_none_when_no_pane_is_focused() {
    let context =
        focused_pane_from_json(br#"{"result":{"panes":[]}}"#).expect("parse pane list");

    assert_eq!(context, None);
}

#[test]
fn first_focused_pane_decides_and_bad_json_is_an_error() {
    let context = focused_pane_from_json(
        br#"{"result":{"panes":[{"pane_id":"a","focused":true},{"pane_id":"b","focused":true,"cwd":"/b"}]}}"#,
    )
    .expect("parse pane list");
    assert_eq!(context, None);
    assert!(focused_pane_from_json(b"{").is_err());
    assert_eq!(focused_pane_from_json(br#"{"result":[]}"#).expect("json"), None);
    assert_eq!(
        focused_pane_from_json(br#"{"result":{"panes":[{"pane_id":"a","focused":"true","cwd":"/a"}]}}"#)
            .expect("json"),
        None
    );
}

#[test]
fn reads_focused_pane_from_a_built_value() {
    let pane = JsonValue::Object(vec![
        ("focused".to_owned(), JsonValue::Bool(true)),
        ("pane_id".to_owned(), JsonValue::String("x".to_owned())),
        ("cwd".to_owned(), JsonValue::String("/x".to_owned())),
    ]);
    let value = JsonValue::Object(vec![(
        "result".to_owned(),
        JsonValue::Object(vec![("panes".to_owned(), JsonValue::Array(vec![pane]))]),
    )]);
    let context = focused_pane_from_value(&value).expect("context");
    assert_eq!(context.pane_id, "x");
    assert_eq!(context.cwd, "/x");
}

use openrdc_host::capabilities::Capabilities;

#[test]
fn exact_match_no_inheritance() {
    let c = Capabilities::load_json(r#"{"granted":["keyboard.press"]}"#).unwrap();
    assert!(c.allows("keyboard.press"));
    assert!(!c.allows("keyboard.press.dangerous"));
}

#[test]
fn unknown_rejected() {
    assert!(Capabilities::load_json(r#"{"granted":["keyboard.*"]}"#).is_err());
}

#[test]
fn unknown_capability_message_names_it() {
    let e = Capabilities::load_json(r#"{"granted":["screen.capture","mouse.drag"]}"#).unwrap_err();
    assert_eq!(e, "unknown capability: mouse.drag");
}

#[test]
fn non_string_entry_rejected() {
    let e = Capabilities::load_json(r#"{"granted":[7]}"#).unwrap_err();
    assert_eq!(e, "capability must be string");
}

#[test]
fn first_bad_entry_decides_error() {
    let e = Capabilities::load_json(r#"{"granted":["nope", 7]}"#).unwrap_err();
    assert_eq!(e, "unknown capability: nope");
    let e = Capabilities::load_json(r#"{"granted":[7, "nope"]}"#).unwrap_err();
    assert_eq!(e, "capability must be string");
}

#[test]
fn missing_grant_list_rejected() {
    let e = Capabilities::load_json(r#"{"grants":[]}"#).unwrap_err();
    assert_eq!(e, "config needs {\"granted\": [...]}");
    let e = Capabilities::load_json(r#"{"granted":"screen.capture"}"#).unwrap_err();
    assert_eq!(e, "config needs {\"granted\": [...]}");
    let e = Capabilities::load_json(r#"["screen.capture"]"#).unwrap_err();
    assert_eq!(e, "config needs {\"granted\": [...]}");
}

#[test]
fn invalid_json_rejected() {
    assert!(Capabilities::load_json("not json{{{").is_err());
}

#[test]
fn empty_grants_allow_nothing() {
    let c = Capabilities::load_json(r#"{"granted":[]}"#).unwrap();
    for cap in ["screen.capture", "mouse.click", "keyboard.type", "keyboard.press", "keyboard.press.dangerous"] {
        assert!(!c.allows(cap));
    }
    assert!(c.list().is_empty());
}

#[test]
fn list_is_sorted_and_deduplicated() {
    let c = Capabilities::load_json(
        r#"{"granted":["screen.capture","keyboard.press.dangerous","mouse.click","keyboard.press","screen.capture"]}"#,
    )
    .unwrap();
    assert_eq!(
        c.list(),
        vec![
            "keyboard.press".to_string(),
            "keyboard.press.dangerous".to_string(),
            "mouse.click".to_string(),
            "screen.capture".to_string(),
        ]
    );
    assert!(!c.allows("keyboard.type"));
    assert!(!c.allows("screen"));
    assert!(!c.allows("screen.capture.extra"));
}

#[test]
fn invalid_file_is_error() {
    // What an invalid capability file holds.
    assert!(Capabilities::load_json("not json{{{").is_err());
}

#[test]
fn valid_file_loads() {
    // What a valid capability file holds.
    let c = Capabilities::load_json(r#"{"granted":["screen.capture"]}"#).unwrap();
    assert!(c.allows("screen.capture"));
}

#[test]
fn invalid_json_reports_the_parser_message() {
    let text = "not json{{{";
    let expected = serde_json::from_str::<serde_json::Value>(text).unwrap_err().to_string();
    assert_eq!(Capabilities::load_json(text).unwrap_err(), expected);
}

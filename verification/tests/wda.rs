use quadcontrol::wda::{
    active_element_error, decode_base64, element_id_from, is_invalid_session, locked_from,
    read_back_value, screenshot_from, session_id_from, text_confirmed, wda_body,
    window_size_from, WindowSize, BODY_LIMIT,
};

#[test]
fn base64_round_trips_known_vectors() {
    for (encoded, decoded) in [
        ("", ""),
        ("Zg==", "f"),
        ("Zm8=", "fo"),
        ("Zm9v", "foo"),
        ("Zm9vYg==", "foob"),
        ("Zm9vYmE=", "fooba"),
        ("Zm9vYmFy", "foobar"),
    ] {
        assert_eq!(
            decode_base64(encoded).unwrap(),
            decoded.as_bytes(),
            "{encoded}"
        );
    }
    assert_eq!(
        decode_base64("iVBORw0KGgo=").unwrap(),
        [0x89, 0x50, 0x4e, 0x47, 0x0d, 0x0a, 0x1a, 0x0a]
    );
    assert_eq!(decode_base64("Zm9v\nYmFy").unwrap(), b"foobar");
}

#[test]
fn base64_rejects_malformed_input() {
    assert!(decode_base64("Zm9vYg=").is_none(), "length not a multiple of four");
    assert!(decode_base64("Zm9*").is_none(), "character outside the alphabet");
    assert!(decode_base64("Z=m8").is_none(), "padding not at the end");
    assert!(decode_base64("Zg===").is_none(), "too much padding");
}

#[test]
fn base64_rejects_nonzero_leftover_bits() {
    assert!(decode_base64("Zh==").is_none());
    assert!(decode_base64("Zm9=").is_none());
    assert_eq!(decode_base64("+/+/").unwrap(), vec![0xfb, 0xff, 0xbf]);
}

#[test]
fn invalidated_sessions_are_recognised() {
    assert!(is_invalid_session(
        "WDA /session/x/wda/locked returned 404: {\"value\":{\"error\":\"invalid session id\"}}"
    ));
    assert!(is_invalid_session("WDA /x Returned 404: Session does not exist"));
    assert!(!is_invalid_session("WDA /x returned 500: invalid session id"));
    assert!(!is_invalid_session("WDA /x returned 404: no such element"));
}

#[test]
fn typed_text_must_be_read_back() {
    assert!(text_confirmed("hello world", "world"));
    assert!(!text_confirmed("", "hi"));
}

#[test]
fn wda_bodies_are_bounded_and_parsed() {
    assert_eq!(wda_body("/status", b""), Ok(()));
    assert_eq!(wda_body("/status", br#"{"value":{}}"#), Ok(()));
    let err = wda_body("/status", b"{nope").unwrap_err();
    assert!(err.starts_with("WDA /status returned unparsable JSON: "));
    let big = vec![b' '; BODY_LIMIT + 1];
    assert_eq!(
        wda_body("/screenshot", &big),
        Err("WDA /screenshot response exceeded the 8388608 byte limit".to_string())
    );
}

#[test]
fn session_ids_come_from_the_top_level_or_value() {
    assert_eq!(session_id_from(br#"{"sessionId":"S1"}"#), Some("S1".to_string()));
    assert_eq!(
        session_id_from(br#"{"value":{"sessionId":"S2"}}"#),
        Some("S2".to_string())
    );
    assert_eq!(session_id_from(br#"{"sessionId":3,"value":{"sessionId":"S2"}}"#), None);
    assert_eq!(session_id_from(b""), None);
}

#[test]
fn window_size_reads_value_or_the_top_level() {
    assert_eq!(
        window_size_from(br#"{"value":{"width":390,"height":844}}"#).unwrap(),
        WindowSize { width: 390, height: 844 }
    );
    assert_eq!(
        window_size_from(br#"{"width":375,"height":667}"#).unwrap(),
        WindowSize { width: 375, height: 667 }
    );
    assert_eq!(
        window_size_from(br#"{"value":{"height":844}}"#).unwrap_err().message(),
        "window size has no width"
    );
    assert_eq!(
        window_size_from(br#"{"value":{"width":1}}"#).unwrap_err().message(),
        "window size has no height"
    );
}

#[test]
fn lock_state_screenshot_and_element_are_read_from_value() {
    assert!(locked_from(br#"{"value":true}"#).unwrap());
    assert!(!locked_from(br#"{"value":false}"#).unwrap());
    assert_eq!(
        locked_from(br#"{"value":"yes"}"#).unwrap_err().message(),
        "locked response has no boolean value"
    );
    assert_eq!(screenshot_from(br#"{"value":"aGk="}"#).unwrap(), b"hi");
    assert_eq!(
        screenshot_from(br#"{"value":"@@"}"#).unwrap_err().message(),
        "screenshot was not valid base64"
    );
    assert_eq!(
        screenshot_from(br#"{}"#).unwrap_err().message(),
        "screenshot response has no value"
    );
    assert_eq!(
        element_id_from(br#"{"value":{"ELEMENT":"E1"}}"#),
        Some("E1".to_string())
    );
    assert_eq!(
        element_id_from(br#"{"value":{"element-6066-11e4-a52e-4f735466cecf":"E2"}}"#),
        Some("E2".to_string())
    );
    assert_eq!(element_id_from(br#"{"ELEMENT":"E3"}"#), Some("E3".to_string()));
    assert_eq!(element_id_from(br#"{"value":{}}"#), None);
    assert_eq!(read_back_value(br#"{"value":"typed"}"#), "typed");
    assert_eq!(read_back_value(br#"{"value":null}"#), "");
    assert_eq!(
        active_element_error("WDA x returned 404: nosuchelement".into()).code(),
        "no_active_element"
    );
    assert_eq!(active_element_error("boom".into()).message(), "boom");
}

#[test]
fn element_id_accepts_both_legacy_and_w3c_keys() {
    let legacy = br#"{ "value": { "ELEMENT": "42" } }"#;
    let w3c = br#"{ "value": { "element-6066-11e4-a52e-4f735466cecf": "abc" } }"#;
    assert_eq!(element_id_from(legacy).unwrap(), "42");
    assert_eq!(element_id_from(w3c).unwrap(), "abc");
    assert!(element_id_from(br#"{ "value": {} }"#).is_none());
}

use base64::Engine;
use gateway_core::smuggle::{
    append_smuggled, reserved_name, trim_bytes, update_request_from_websocket_protocol, SmuggleError,
};

fn encode(json: &str) -> String {
    base64::engine::general_purpose::URL_SAFE_NO_PAD.encode(json.as_bytes())
}

#[test]
fn smuggled_header_round_trip_keeps_genuine_protocol() {
    let token = format!("encore.dev.auth_data.{}", encode(r#"{"X-Foo":"bar"}"#));
    let value = format!("chat, {}", token);
    let w = update_request_from_websocket_protocol(&vec![value.into_bytes()]).unwrap();
    assert_eq!(w.added, vec![("X-Foo".to_string(), "bar".to_string())]);
    assert_eq!(w.protocols, vec![b"chat".to_vec()]);
}

#[test]
fn only_smuggled_tokens_leave_no_protocol_header() {
    let token = format!(
        "encore.dev.auth_data.{}",
        encode(r#"{"Authorization":"Bearer x","A":"1"}"#)
    );
    let w = update_request_from_websocket_protocol(&vec![token.into_bytes()]).unwrap();
    assert_eq!(
        w.added,
        vec![
            ("A".to_string(), "1".to_string()),
            ("Authorization".to_string(), "Bearer x".to_string())
        ]
    );
    assert!(w.protocols.is_empty());
}

#[test]
fn genuine_tokens_are_trimmed_and_joined() {
    let w = update_request_from_websocket_protocol(&vec![
        b" chat ,\tsuperchat".to_vec(),
        b"v2".to_vec(),
    ])
    .unwrap();
    assert!(w.added.is_empty());
    assert_eq!(w.protocols, vec![b"chat, superchat".to_vec(), b"v2".to_vec()]);
}

#[test]
fn no_values_is_a_no_op() {
    let w = update_request_from_websocket_protocol(&vec![]).unwrap();
    assert!(w.added.is_empty());
    assert!(w.protocols.is_empty());
}

#[test]
fn malformed_base64_fails() {
    let r = update_request_from_websocket_protocol(&vec![b"encore.dev.auth_data.@@@".to_vec()]);
    assert_eq!(r.err(), Some(SmuggleError::BadBase64));
}

#[test]
fn padded_base64_fails() {
    let padded = format!(
        "encore.dev.auth_data.{}",
        base64::engine::general_purpose::URL_SAFE.encode(b"{\"a\":\"bc\"}")
    );
    assert!(padded.ends_with('='));
    let r = update_request_from_websocket_protocol(&vec![padded.into_bytes()]);
    assert_eq!(r.err(), Some(SmuggleError::BadBase64));
}

#[test]
fn non_string_json_fails() {
    let token = format!("encore.dev.auth_data.{}", encode(r#"{"a":1}"#));
    let r = update_request_from_websocket_protocol(&vec![token.into_bytes()]);
    assert_eq!(r.err(), Some(SmuggleError::BadJson));
    let token = format!("encore.dev.auth_data.{}", encode("[1]"));
    let r = update_request_from_websocket_protocol(&vec![token.into_bytes()]);
    assert_eq!(r.err(), Some(SmuggleError::BadJson));
}

#[test]
fn invisible_byte_fails() {
    let r = update_request_from_websocket_protocol(&vec![b"chat\n".to_vec()]);
    assert_eq!(r.err(), Some(SmuggleError::NotVisibleAscii));
}

#[test]
fn trim_removes_spaces_and_tabs_only() {
    assert_eq!(trim_bytes(b" \t a b \t"), b"a b".to_vec());
    assert_eq!(trim_bytes(b"   "), Vec::<u8>::new());
}

#[test]
fn reserved_headers_cannot_be_smuggled() {
    for json in [
        r#"{"Host":"evil"}"#,
        r#"{"sec-websocket-protocol":"x"}"#,
        r#"{"X-Encore-Meta-Userid":"admin"}"#,
        r#"{"a":"b","x-encore-auth":"y"}"#,
    ] {
        let token = format!("encore.dev.auth_data.{}", encode(json));
        let r = update_request_from_websocket_protocol(&vec![token.into_bytes()]);
        assert_eq!(r.err(), Some(SmuggleError::ReservedHeader));
    }
}

#[test]
fn reserved_name_checks_case_insensitively() {
    assert!(reserved_name(&"HOST".to_string()));
    assert!(reserved_name(&"x-Encore-anything".to_string()));
    assert!(!reserved_name(&"hostname".to_string()));
    assert!(!reserved_name(&"Authorization".to_string()));
    assert!(!reserved_name(&"x-encor".to_string()));
}

#[test]
fn first_failing_value_decides_the_error() {
    let bad_json = format!("encore.dev.auth_data.{}", encode("nope"));
    let r = update_request_from_websocket_protocol(&vec![
        b"chat".to_vec(),
        bad_json.into_bytes(),
        b"encore.dev.auth_data.!!".to_vec(),
    ]);
    assert_eq!(r.err(), Some(SmuggleError::BadJson));
}

#[test]
fn decoded_entries_are_appended_or_refused_whole() {
    let mut added = vec![("A".to_string(), "1".to_string())];
    let entries = vec![
        ("B".to_string(), "2".to_string()),
        ("C".to_string(), "3".to_string()),
    ];
    assert_eq!(append_smuggled(&mut added, &entries), Ok(()));
    assert_eq!(
        added,
        vec![
            ("A".to_string(), "1".to_string()),
            ("B".to_string(), "2".to_string()),
            ("C".to_string(), "3".to_string())
        ]
    );
    let bad = vec![("D".to_string(), "4".to_string()), ("host".to_string(), "x".to_string())];
    assert_eq!(append_smuggled(&mut added, &bad), Err(SmuggleError::ReservedHeader));
    assert_eq!(added.len(), 3);
}

#[test]
fn smuggling_failures_are_client_errors() {
    assert_eq!(SmuggleError::BadBase64.status(), 400);
    assert_eq!(SmuggleError::ReservedHeader.status(), 400);
}

#[test]
fn invalid_smuggled_headers_fail() {
    for json in [
        r#"{"bad name":"x"}"#,
        r#"{"":"x"}"#,
        r#"{"X-Ok":"line\r\nbreak"}"#,
        r#"{"\u00dcn":"x"}"#,
    ] {
        let token = format!("encore.dev.auth_data.{}", encode(json));
        let r = update_request_from_websocket_protocol(&vec![token.into_bytes()]);
        assert_eq!(r.err(), Some(SmuggleError::InvalidHeader));
    }
    let token = format!("encore.dev.auth_data.{}", encode(r#"{"X-Tab":"a\tb"}"#));
    let w = update_request_from_websocket_protocol(&vec![token.into_bytes()]).unwrap();
    assert_eq!(w.added, vec![("X-Tab".to_string(), "a\tb".to_string())]);
}

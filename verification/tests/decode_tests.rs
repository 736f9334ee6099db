use llamachat::decode::{decode_chunk, outcome_delta, ChunkOutcome};

fn expect_content(bytes: &[u8], text: &str, done: bool) {
    match decode_chunk(bytes) {
        ChunkOutcome::Content { text: t, done: d } => {
            assert_eq!(t, text);
            assert_eq!(d, done);
        }
        _ => panic!("expected a content outcome"),
    }
}

fn expect_bad_envelope(bytes: &[u8]) {
    assert!(matches!(decode_chunk(bytes), ChunkOutcome::BadEnvelope));
}

#[test]
fn full_envelope_yields_content() {
    expect_content(
        br#"{"model":"m","created_at":"2024-01-01T00:00:00Z","message":{"role":"assistant","content":"Hello"},"done":false}"#,
        "Hello",
        false,
    );
}

#[test]
fn minimal_envelope_yields_content() {
    expect_content(br#"{"message":{"content":"Hi"},"done":false}"#, "Hi", false);
}

#[test]
fn done_flag_is_carried() {
    expect_content(br#"{"message":{"content":""},"done":true}"#, "", true);
}

#[test]
fn utf8_text_without_json_is_bad_envelope() {
    expect_bad_envelope(b"hello");
}

#[test]
fn bad_envelope_delta_is_sentinel_and_not_final() {
    let o = decode_chunk(b"hello");
    let d = outcome_delta(&o).expect("a sentinel delta");
    assert_eq!(d.text, "\u{2620}");
    assert!(!d.is_final);
}

#[test]
fn invalid_utf8_is_bad_utf8() {
    assert!(matches!(decode_chunk(b"\xff\xfe"), ChunkOutcome::BadUtf8));
}

#[test]
fn bad_utf8_delta_is_sentinel_and_not_final() {
    let o = decode_chunk(b"\xff\xfe");
    let d = outcome_delta(&o).expect("a sentinel delta");
    assert_eq!(d.text, "\u{f071}");
    assert!(!d.is_final);
}

#[test]
fn error_envelope_is_service_error() {
    match decode_chunk(br#"{"error":"model not found"}"#) {
        ChunkOutcome::ServiceError(e) => assert_eq!(e, "model not found"),
        _ => panic!("expected a service error"),
    }
}

#[test]
fn error_envelope_emits_no_delta() {
    let o = decode_chunk(br#"{"error":"boom"}"#);
    assert!(outcome_delta(&o).is_none());
}

#[test]
fn error_checked_before_message() {
    match decode_chunk(br#"{"message":{"content":"x"},"done":true,"error":"nope"}"#) {
        ChunkOutcome::ServiceError(e) => assert_eq!(e, "nope"),
        _ => panic!("the error shape governs"),
    }
}

#[test]
fn non_string_error_is_not_a_service_error() {
    expect_content(br#"{"error":5,"message":{"content":"x"},"done":true}"#, "x", true);
}

#[test]
fn missing_done_is_bad_envelope() {
    expect_bad_envelope(br#"{"message":{"content":"x"}}"#);
}

#[test]
fn non_bool_done_is_bad_envelope() {
    expect_bad_envelope(br#"{"message":{"content":"x"},"done":"yes"}"#);
}

#[test]
fn missing_content_is_bad_envelope() {
    expect_bad_envelope(br#"{"message":{"role":"assistant"},"done":false}"#);
}

#[test]
fn non_object_message_is_bad_envelope() {
    expect_bad_envelope(br#"{"message":"hi","done":false}"#);
}

#[test]
fn non_object_top_level_is_bad_envelope() {
    expect_bad_envelope(br#"[1,2,3]"#);
    expect_bad_envelope(br#""just a string""#);
    expect_bad_envelope(b"42");
    expect_bad_envelope(b"");
}

#[test]
fn trailing_garbage_is_bad_envelope() {
    expect_bad_envelope(br#"{"message":{"content":"x"},"done":true}{"#);
}

#[test]
fn unknown_members_are_skipped() {
    expect_content(
        br#"{"model":"m","message":{"role":"assistant","content":"ok","images":null},"done":true,"total_duration":5589157167,"eval_count":13,"context":[1,2,3],"nested":{"a":[{"b":-1.5e3}]}}"#,
        "ok",
        true,
    );
}

#[test]
fn whitespace_between_tokens_is_tolerated() {
    expect_content(
        b" { \"message\" : { \"content\" : \"hi\" } , \"done\" : true } \n",
        "hi",
        true,
    );
}

#[test]
fn string_escapes_are_decoded() {
    expect_content(
        br#"{"message":{"content":"a\nb\t\"c\"\\d\/e"},"done":false}"#,
        "a\nb\t\"c\"\\d/e",
        false,
    );
}

#[test]
fn unicode_escape_is_decoded() {
    expect_content(
        br#"{"message":{"content":"\u0041\u00e9"},"done":false}"#,
        "A\u{e9}",
        false,
    );
}

#[test]
fn surrogate_pair_escape_is_decoded() {
    expect_content(
        br#"{"message":{"content":"\ud83d\ude00"},"done":false}"#,
        "\u{1f600}",
        false,
    );
}

#[test]
fn lone_surrogate_escape_is_bad_envelope() {
    expect_bad_envelope(br#"{"message":{"content":"\ud83d"},"done":false}"#);
}

#[test]
fn raw_control_character_in_string_is_bad_envelope() {
    expect_bad_envelope(b"{\"message\":{\"content\":\"a\x01b\"},\"done\":false}");
}

#[test]
fn non_ascii_utf8_content_is_decoded() {
    expect_content(
        "{\"message\":{\"content\":\"h\u{e9}llo \u{1f999}\"},\"done\":true}".as_bytes(),
        "h\u{e9}llo \u{1f999}",
        true,
    );
}

#[test]
fn first_occurrence_of_a_repeated_key_governs() {
    expect_content(
        br#"{"message":{"content":"a"},"done":false,"done":true}"#,
        "a",
        false,
    );
}

#[test]
fn malformed_number_is_bad_envelope() {
    expect_bad_envelope(br#"{"message":{"content":"x"},"done":true,"n":01}"#);
    expect_bad_envelope(br#"{"message":{"content":"x"},"done":true,"n":1.}"#);
    expect_bad_envelope(br#"{"message":{"content":"x"},"done":true,"n":+1}"#);
}

#[test]
fn number_forms_are_accepted() {
    expect_content(
        br#"{"message":{"content":"x"},"done":true,"a":0,"b":-7,"c":1.25,"d":2e10,"e":-3.5E-2}"#,
        "x",
        true,
    );
}

use llamachat::engine::{commit_turn, decode_single, single_turn, ResponseFailure, TurnState};
use llamachat::transcript::{Role, Transcript};

#[test]
fn two_chunk_turn_appends_one_assistant_entry() {
    let mut t = Transcript::new();
    t.push(Role::User, String::from("greet me"));
    let mut st = TurnState::new();
    let shown = st.feed(br#"{"message":{"content":"Hi"},"done":false}"#);
    assert_eq!(shown.as_deref(), Some("Hi"));
    assert!(!st.is_done());
    let shown = st.feed(br#"{"message":{"content":"!"},"done":true}"#);
    assert_eq!(shown.as_deref(), Some("!"));
    assert!(st.is_done());
    assert!(commit_turn(&mut t, &st));
    assert_eq!(t.len(), 2);
    let m = t.get(1);
    assert!(matches!(m.role, Role::Assistant));
    assert_eq!(m.content, "Hi!");
}

#[test]
fn malformed_chunk_becomes_a_sentinel_and_the_stream_goes_on() {
    let mut st = TurnState::new();
    let shown = st.feed(b"not json");
    assert_eq!(shown.as_deref(), Some("\u{2620}"));
    assert!(!st.is_done());
    let shown = st.feed(b"\xff");
    assert_eq!(shown.as_deref(), Some("\u{f071}"));
    assert!(!st.is_done());
    st.feed(br#"{"message":{"content":" ok"},"done":true}"#);
    assert!(st.is_done());
    let mut t = Transcript::new();
    assert!(commit_turn(&mut t, &st));
    assert_eq!(t.get(0).content, "\u{2620}\u{f071} ok");
}

#[test]
fn error_chunk_fails_the_turn_and_nothing_is_appended() {
    let mut st = TurnState::new();
    st.feed(br#"{"message":{"content":"partial"},"done":false}"#);
    let shown = st.feed(br#"{"error":"model not found"}"#);
    assert!(shown.is_none());
    assert!(st.is_done());
    let mut t = Transcript::new();
    t.push(Role::User, String::from("q"));
    assert!(!commit_turn(&mut t, &st));
    assert_eq!(t.len(), 1);
}

#[test]
fn committed_reply_is_trimmed_of_trailing_whitespace() {
    let mut st = TurnState::new();
    st.feed(br#"{"message":{"content":"answer \n\n"},"done":true}"#);
    let mut t = Transcript::new();
    assert!(commit_turn(&mut t, &st));
    assert_eq!(t.get(0).content, "answer");
}

#[test]
fn single_response_returns_its_content_directly() {
    match decode_single(br#"{"message":{"role":"assistant","content":"Hello there\n"},"done":true}"#)
    {
        Ok(c) => assert_eq!(c, "Hello there\n"),
        Err(_) => panic!("expected content"),
    }
}

#[test]
fn single_error_response_is_a_reported_failure() {
    match decode_single(br#"{"error":"model not found"}"#) {
        Err(ResponseFailure::Service(e)) => assert_eq!(e, "model not found"),
        _ => panic!("expected a service failure"),
    }
}

#[test]
fn single_error_response_mutates_no_transcript() {
    let mut t = Transcript::new();
    t.push(Role::User, String::from("q"));
    match single_turn(&mut t, br#"{"error":"model not found"}"#) {
        Err(ResponseFailure::Service(e)) => assert_eq!(e, "model not found"),
        _ => panic!("expected a service failure"),
    }
    assert_eq!(t.len(), 1);
    assert_eq!(t.get(0).content, "q");
}

#[test]
fn single_malformed_response_is_a_reported_failure() {
    let mut t = Transcript::new();
    assert!(matches!(single_turn(&mut t, b"oops"), Err(ResponseFailure::BadPayload)));
    assert!(matches!(single_turn(&mut t, b"\xff"), Err(ResponseFailure::BadBytes)));
    assert_eq!(t.len(), 0);
}

#[test]
fn single_success_appends_the_trimmed_reply() {
    let mut t = Transcript::new();
    t.push(Role::User, String::from("q"));
    match single_turn(&mut t, br#"{"message":{"content":"fine \n"},"done":true}"#) {
        Ok(c) => assert_eq!(c, "fine \n"),
        Err(_) => panic!("expected content"),
    }
    assert_eq!(t.len(), 2);
    let m = t.get(1);
    assert!(matches!(m.role, Role::Assistant));
    assert_eq!(m.content, "fine");
}

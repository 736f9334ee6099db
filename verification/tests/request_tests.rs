use llamachat::transcript::{Role, Transcript};
use llamachat::write::{build_request, GenOptions};

#[test]
fn request_with_one_user_message() {
    let mut t = Transcript::new();
    t.push(Role::User, String::from("hello"));
    let body = build_request(&String::from("llama2"), true, &t, &None);
    assert_eq!(
        body,
        r#"{"model":"llama2","stream":true,"messages":[{"role":"user","content":"hello"}]}"#
    );
}

#[test]
fn request_with_empty_transcript() {
    let t = Transcript::new();
    let body = build_request(&String::from("m"), false, &t, &None);
    assert_eq!(body, r#"{"model":"m","stream":false,"messages":[]}"#);
}

#[test]
fn request_messages_keep_append_order_and_roles() {
    let mut t = Transcript::new();
    t.push(Role::System, String::from("be brief"));
    t.push(Role::User, String::from("hi"));
    t.push(Role::Assistant, String::from("hello"));
    let body = build_request(&String::from("m"), true, &t, &None);
    let expected = "{\"model\":\"m\",\"stream\":true,\"messages\":[\
{\"role\":\"system\",\"content\":\"be brief\"},\
{\"role\":\"user\",\"content\":\"hi\"},\
{\"role\":\"assistant\",\"content\":\"hello\"}]}";
    assert_eq!(body, expected);
}

#[test]
fn request_content_is_escaped() {
    let mut t = Transcript::new();
    t.push(Role::User, String::from("say \"hi\"\\\nplease\ttwice"));
    let body = build_request(&String::from("m"), true, &t, &None);
    assert_eq!(
        body,
        r#"{"model":"m","stream":true,"messages":[{"role":"user","content":"say \"hi\"\\\nplease\ttwice"}]}"#
    );
}

#[test]
fn request_control_characters_use_unicode_escapes() {
    let mut t = Transcript::new();
    t.push(Role::User, String::from("a\u{1}b\u{1f}c"));
    let body = build_request(&String::from("m"), true, &t, &None);
    assert_eq!(
        body,
        r#"{"model":"m","stream":true,"messages":[{"role":"user","content":"a\u0001b\u001fc"}]}"#
    );
}

#[test]
fn request_with_options_appends_the_options_object() {
    let mut t = Transcript::new();
    t.push(Role::User, String::from("q"));
    let opts = GenOptions {
        entries: vec![
            (String::from("temperature"), String::from("0.8")),
            (String::from("num_ctx"), String::from("2048")),
        ],
    };
    let body = build_request(&String::from("m"), true, &t, &Some(opts));
    let expected = "{\"model\":\"m\",\"stream\":true,\"messages\":[{\"role\":\"user\",\"content\":\"q\"}],\
\"options\":{\"temperature\":0.8,\"num_ctx\":2048}}";
    assert_eq!(body, expected);
}

#[test]
fn request_with_empty_options_object() {
    let t = Transcript::new();
    let opts = GenOptions { entries: vec![] };
    let body = build_request(&String::from("m"), false, &t, &Some(opts));
    assert_eq!(body, r#"{"model":"m","stream":false,"messages":[],"options":{}}"#);
}

#[test]
fn request_model_name_is_escaped() {
    let t = Transcript::new();
    let body = build_request(&String::from("odd\"name"), false, &t, &None);
    assert_eq!(body, r#"{"model":"odd\"name","stream":false,"messages":[]}"#);
}

#[test]
fn non_ascii_content_passes_through_unescaped() {
    let mut t = Transcript::new();
    t.push(Role::User, String::from("caf\u{e9} \u{1f999}"));
    let body = build_request(&String::from("m"), true, &t, &None);
    assert_eq!(
        body,
        "{\"model\":\"m\",\"stream\":true,\"messages\":[{\"role\":\"user\",\"content\":\"caf\u{e9} \u{1f999}\"}]}"
    );
}

use tai::model::{Role, Turn};
use tai::request::{bearer_token, decode_turn, encode_turn, ChatRequest, CHAT_COMPLETIONS_URL, MODEL_ID};

#[test]
fn test_user_message() {
    let user_message = Turn {
        role: Role::User,
        content: String::from("Write some Python code inside some Markdown discussing it."),
    };
    let json = encode_turn(&user_message);
    assert_eq!(
        json,
        r#"{"role":"user","content":"Write some Python code inside some Markdown discussing it."}"#
    );
}

#[test]
fn turn_round_trip_every_role() {
    for role in [Role::System, Role::User, Role::Assistant] {
        let t = Turn { role, content: String::from("plain text") };
        assert_eq!(decode_turn(&encode_turn(&t)), Some(t));
    }
}

#[test]
fn turn_round_trip_escaped_content() {
    let t = Turn {
        role: Role::Assistant,
        content: String::from("say \"hi\"\n\tback\\slash é ✓ \u{1}"),
    };
    let text = encode_turn(&t);
    assert_eq!(
        text,
        "{\"role\":\"assistant\",\"content\":\"say \\\"hi\\\"\\n\\tback\\\\slash é ✓ \\u0001\"}"
    );
    assert_eq!(decode_turn(&text), Some(t));
}

#[test]
fn turn_round_trip_empty_content() {
    let t = Turn { role: Role::System, content: String::new() };
    assert_eq!(encode_turn(&t), r#"{"role":"system","content":""}"#);
    assert_eq!(decode_turn(&encode_turn(&t)), Some(t));
}

#[test]
fn decode_turn_refuses_unknown_role() {
    assert_eq!(decode_turn(r#"{"role":"robot","content":"x"}"#), None);
    assert_eq!(decode_turn(r#"{"role":"User","content":"x"}"#), None);
}

#[test]
fn decode_turn_refuses_bad_content() {
    assert_eq!(decode_turn(r#"{"role":"user","content":"x}"#), None);
    assert_eq!(decode_turn(r#"{"role":"user","content":7}"#), None);
    assert_eq!(decode_turn(r#"{"role":"user","content":"x""#), None);
    assert_eq!(decode_turn(""), None);
}

#[test]
fn role_tokens() {
    assert_eq!(Role::System.token(), "system");
    assert_eq!(Role::User.token(), "user");
    assert_eq!(Role::Assistant.token(), "assistant");
    assert_eq!(Role::from_token("system"), Some(Role::System));
    assert_eq!(Role::from_token("user"), Some(Role::User));
    assert_eq!(Role::from_token("assistant"), Some(Role::Assistant));
    assert_eq!(Role::from_token("tool"), None);
    assert_eq!(Role::from_token(""), None);
}

#[test]
fn request_with_system_prompt() {
    let req = ChatRequest::new("Say hello", Some("You are a grumpy person"), true);
    assert_eq!(req.model, MODEL_ID);
    assert_eq!(req.model, "gpt-4o-mini");
    assert!(req.stream);
    assert_eq!(
        req.messages,
        vec![
            Turn { role: Role::System, content: String::from("You are a grumpy person") },
            Turn { role: Role::User, content: String::from("Say hello") },
        ]
    );
    assert_eq!(
        req.body(),
        r#"{"model":"gpt-4o-mini","messages":[{"role":"system","content":"You are a grumpy person"},{"role":"user","content":"Say hello"}],"stream":true}"#
    );
}

#[test]
fn request_without_system_prompt() {
    let req = ChatRequest::new("Say hello", None, false);
    assert_eq!(req.messages, vec![Turn { role: Role::User, content: String::from("Say hello") }]);
    assert_eq!(
        req.body(),
        r#"{"model":"gpt-4o-mini","messages":[{"role":"user","content":"Say hello"}],"stream":false}"#
    );
}

#[test]
fn request_keeps_empty_system_prompt() {
    let req = ChatRequest::new("Hi", Some(""), false);
    assert_eq!(req.messages.len(), 2);
    assert_eq!(req.messages[0], Turn { role: Role::System, content: String::new() });
}

#[test]
fn request_body_is_json() {
    let req = ChatRequest::new("quote \" and \\ here", Some("line\nbreak"), true);
    let v: serde_json::Value = serde_json::from_str(&req.body()).unwrap();
    assert_eq!(v["model"], "gpt-4o-mini");
    assert_eq!(v["stream"], true);
    assert_eq!(v["messages"][0]["role"], "system");
    assert_eq!(v["messages"][0]["content"], "line\nbreak");
    assert_eq!(v["messages"][1]["role"], "user");
    assert_eq!(v["messages"][1]["content"], "quote \" and \\ here");
}

#[test]
fn bearer_header_value() {
    assert_eq!(bearer_token("test-key"), "Bearer test-key");
    assert_eq!(CHAT_COMPLETIONS_URL, "https://api.openai.com/v1/chat/completions");
}

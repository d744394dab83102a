use tai::model::{Choice, PartialMessage, ResponseEnvelope, Role};
use tai::request::ChatRequest;
use tai::stream::{delta_fragment, frame_payload, SseReader};

fn delta_choice(content: Option<&str>) -> Choice {
    Choice {
        index: 0,
        message: None,
        delta: Some(PartialMessage {
            role: None,
            content: content.map(String::from),
            refusal: None,
        }),
        finish_reason: None,
    }
}

fn envelope(choices: Vec<Choice>) -> ResponseEnvelope {
    ResponseEnvelope {
        id: String::from("chatcmpl-1"),
        object: String::from("chat.completion.chunk"),
        created: 1_700_000_000,
        model: String::from("gpt-4o-mini"),
        choices,
        system_fingerprint: None,
    }
}

/// Reads a payload as a reply object through serde_json's generic value.
fn decode(payload: &str) -> Option<ResponseEnvelope> {
    let v: serde_json::Value = serde_json::from_str(payload).ok()?;
    let mut choices = Vec::new();
    for c in v.get("choices")?.as_array()? {
        let delta = match c.get("delta") {
            Some(d) if !d.is_null() => Some(PartialMessage {
                role: d.get("role").and_then(|r| r.as_str()).and_then(Role::from_token),
                content: d.get("content").and_then(|s| s.as_str()).map(String::from),
                refusal: None,
            }),
            _ => None,
        };
        choices.push(Choice { index: c.get("index")?.as_u64()?, message: None, delta, finish_reason: None });
    }
    Some(ResponseEnvelope {
        id: v.get("id")?.as_str()?.to_string(),
        object: v.get("object")?.as_str()?.to_string(),
        created: v.get("created")?.as_u64()?,
        model: v.get("model")?.as_str()?.to_string(),
        choices,
        system_fingerprint: None,
    })
}

fn event_line(content: &str) -> String {
    format!(
        "data: {{\"id\":\"c1\",\"object\":\"chat.completion.chunk\",\"created\":1,\"model\":\"gpt-4o-mini\",\"choices\":[{{\"index\":0,\"delta\":{{\"content\":{}}}}}]}}\n",
        serde_json::to_string(content).unwrap()
    )
}

/// Feeds chunks to a reader, decoding each payload, and returns the emitted
/// fragments and the final text.
fn run(chunks: &[&[u8]]) -> (Vec<String>, String) {
    let mut reader = SseReader::new();
    let mut shown = Vec::new();
    for chunk in chunks {
        for payload in reader.push_chunk(chunk) {
            if let Some(f) = reader.accept(decode(&payload)) {
                shown.push(f);
            }
        }
    }
    if let Some(payload) = reader.finish_line() {
        if let Some(f) = reader.accept(decode(&payload)) {
            shown.push(f);
        }
    }
    (shown, reader.text())
}

#[test]
fn fragments_join_in_order_without_separator() {
    let body = format!("{}{}{}", event_line("Hel"), event_line("lo"), event_line(" world"));
    let (shown, text) = run(&[body.as_bytes()]);
    assert_eq!(shown, vec!["Hel", "lo", " world"]);
    assert_eq!(text, "Hello world");
}

#[test]
fn other_lines_are_ignored() {
    let body = format!("\n: keep-alive\n{}event: ping\n\n{}", event_line("a"), event_line("b"));
    let (shown, text) = run(&[body.as_bytes()]);
    assert_eq!(shown, vec!["a", "b"]);
    assert_eq!(text, "ab");
    assert_eq!(frame_payload(b""), None);
    assert_eq!(frame_payload(b": comment"), None);
    assert_eq!(frame_payload(b"data:no-space"), None);
    assert_eq!(frame_payload(b"data: x"), Some(String::from("x")));
}

#[test]
fn malformed_event_is_skipped() {
    let body = format!("{}data: {{\"choices\": [\n{}data: [DONE]\n", event_line("x"), event_line("y"));
    let (shown, text) = run(&[body.as_bytes()]);
    assert_eq!(shown, vec!["x", "y"]);
    assert_eq!(text, "xy");
}

#[test]
fn line_split_across_chunks_is_read_once() {
    let body = format!("{}{}", event_line("one"), event_line("two"));
    let bytes = body.as_bytes();
    for cut in 0..=bytes.len() {
        let (shown, text) = run(&[&bytes[..cut], &bytes[cut..]]);
        assert_eq!(shown, vec!["one", "two"]);
        assert_eq!(text, "onetwo");
    }
}

#[test]
fn split_line_gives_no_payload_until_newline() {
    let mut reader = SseReader::new();
    assert!(reader.push_chunk(b"data: {\"a\"").is_empty());
    assert!(reader.push_chunk(b":1}").is_empty());
    assert_eq!(reader.push_chunk(b"\ndata: z"), vec![String::from("{\"a\":1}")]);
    assert_eq!(reader.finish_line(), Some(String::from("z")));
    assert_eq!(reader.finish_line(), None);
}

#[test]
fn byte_at_a_time() {
    let body = format!("{}{}", event_line("é✓"), event_line("!"));
    let chunks: Vec<&[u8]> = body.as_bytes().chunks(1).collect();
    let (shown, text) = run(&chunks);
    assert_eq!(shown, vec!["é✓", "!"]);
    assert_eq!(text, "é✓!");
}

#[test]
fn carriage_returns_are_dropped() {
    let mut reader = SseReader::new();
    let out = reader.push_chunk(b"data: abc\r\n\r\ndata: d\n");
    assert_eq!(out, vec![String::from("abc"), String::from("d")]);
}

#[test]
fn invalid_utf8_is_replaced() {
    let mut reader = SseReader::new();
    let out = reader.push_chunk(b"data: a\xffb\n");
    assert_eq!(out, vec![String::from("a\u{FFFD}b")]);
}

#[test]
fn last_line_without_newline_is_read() {
    let body = format!("{}{}", event_line("a"), event_line("b"));
    let trimmed = body.trim_end_matches('\n');
    let (shown, text) = run(&[trimmed.as_bytes()]);
    assert_eq!(shown, vec!["a", "b"]);
    assert_eq!(text, "ab");
}

#[test]
fn bare_choice_contributes_nothing() {
    let bare = Choice { index: 0, message: None, delta: None, finish_reason: Some(String::from("stop")) };
    assert_eq!(delta_fragment(envelope(vec![bare.clone()])), None);
    let mut reader = SseReader::new();
    assert_eq!(reader.accept(Some(envelope(vec![delta_choice(Some("a"))]))), Some(String::from("a")));
    assert_eq!(reader.accept(Some(envelope(vec![bare]))), None);
    assert_eq!(reader.accept(Some(envelope(vec![delta_choice(None)]))), None);
    assert_eq!(reader.accept(Some(envelope(Vec::new()))), None);
    assert_eq!(reader.accept(None), None);
    assert_eq!(reader.accept(Some(envelope(vec![delta_choice(Some("b"))]))), Some(String::from("b")));
    assert_eq!(reader.text(), "ab");
}

#[test]
fn streaming_takes_last_choice() {
    let env = envelope(vec![delta_choice(Some("first")), delta_choice(Some("last"))]);
    assert_eq!(delta_fragment(env), Some(String::from("last")));
}

#[test]
fn empty_stream_gives_empty_text() {
    let (shown, text) = run(&[]);
    assert!(shown.is_empty());
    assert_eq!(text, "");
}

#[test]
fn streamed_greeting_end_to_end() {
    let req = ChatRequest::new("Say hello", Some("You are a grumpy person"), true);
    assert_eq!(
        req.body(),
        r#"{"model":"gpt-4o-mini","messages":[{"role":"system","content":"You are a grumpy person"},{"role":"user","content":"Say hello"}],"stream":true}"#
    );
    let body = format!("{}\n{}{}", event_line("Hel"), event_line("lo"), event_line(" world"));
    let bytes = body.as_bytes();
    let (shown, text) = run(&[&bytes[..17], &bytes[17..150], &bytes[150..]]);
    assert_eq!(shown, vec!["Hel", "lo", " world"]);
    assert_eq!(text, "Hello world");
}

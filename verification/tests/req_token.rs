#![allow(non_snake_case)]
use ixgateway::req_token::{text_lines, usage_line_parts, usage_line_rejoin, StreamUsageState, UsageInfo};
use ixgateway::json::{JsonNumber, JsonValue};
use ixgateway::req_token::{
    chunk_json_text, non_streaming_usage, FilterUsageFromJson, IsStreamingRequest, ParseUsageFromChunk,
    RequestHasUsageEnabled,
};

fn to_json(v: serde_json::Value) -> JsonValue {
    match v {
        serde_json::Value::Null => JsonValue::Null,
        serde_json::Value::Bool(b) => JsonValue::Bool(b),
        serde_json::Value::Number(n) => JsonValue::Number(JsonNumber { as_u64: n.as_u64(), text: n.to_string() }),
        serde_json::Value::String(s) => JsonValue::String(s),
        serde_json::Value::Array(a) => JsonValue::Array(a.into_iter().map(to_json).collect()),
        serde_json::Value::Object(m) => JsonValue::Object(m.into_iter().map(|(k, v)| (k, to_json(v))).collect()),
    }
}

fn parse(text: &[u8]) -> Option<JsonValue> {
    serde_json::from_slice::<serde_json::Value>(text).ok().map(to_json)
}

fn has_member(v: &JsonValue, key: &str) -> bool {
    match v {
        JsonValue::Object(fs) => fs.iter().any(|(k, _)| k == key),
        _ => false,
    }
}

#[test]
fn testRequestHasUsageEnabledStreaming() {
    let body = br#"{"stream": true, "stream_options": {"include_usage": true}}"#;
    assert!(RequestHasUsageEnabled(parse(body).as_ref()));
}

#[test]
fn testRequestHasUsageDisabledStreaming() {
    let body = br#"{"stream": true, "stream_options": {"include_usage": false}}"#;
    assert!(!RequestHasUsageEnabled(parse(body).as_ref()));
}

#[test]
fn request_without_stream_options_has_no_usage() {
    assert!(!RequestHasUsageEnabled(parse(br#"{"stream": true}"#).as_ref()));
    assert!(!RequestHasUsageEnabled(parse(b"not json").as_ref()));
}

#[test]
fn testIsStreamingRequest() {
    let body = br#"{"stream": true, "messages": []}"#;
    assert!(IsStreamingRequest(parse(body).as_ref()));
    let body = br#"{"stream": false, "messages": []}"#;
    assert!(!IsStreamingRequest(parse(body).as_ref()));
    assert!(!IsStreamingRequest(None));
}

#[test]
fn testFilterUsageFromJson() {
    let json = r#"{"id":"test","usage":{"prompt_tokens":10,"completion_tokens":5}}"#;
    let value = parse(json.as_bytes()).unwrap();
    let filtered = FilterUsageFromJson(&value);
    assert!(!has_member(&filtered, "usage"));
    assert!(has_member(&filtered, "id"));
}

#[test]
fn filter_removes_nested_usage_and_is_idempotent() {
    let json = r#"{"choices":[{"usage":{"x":1},"text":"a"}],"usage":{}}"#;
    let value = parse(json.as_bytes()).unwrap();
    let once = FilterUsageFromJson(&value);
    match &once {
        JsonValue::Object(fs) => {
            assert_eq!(fs.len(), 1);
            match &fs[0].1 {
                JsonValue::Array(items) => assert!(!has_member(&items[0], "usage") && has_member(&items[0], "text")),
                other => panic!("unexpected {:?}", other),
            }
        }
        other => panic!("unexpected {:?}", other),
    }
    let twice = FilterUsageFromJson(&once);
    assert_eq!(format!("{:?}", twice), format!("{:?}", once));
}

#[test]
fn testParseUsageFromChunk() {
    let chunk = b"data: {\"usage\":{\"prompt_tokens\":10,\"completion_tokens\":5,\"total_tokens\":15}}";
    let text = chunk_json_text(std::str::from_utf8(chunk).unwrap()).unwrap();
    let usage = ParseUsageFromChunk(parse(text.as_bytes()).as_ref());
    assert!(usage.is_some());
    let u = usage.unwrap();
    assert_eq!(u.prompt_tokens, 10);
    assert_eq!(u.completion_tokens, 5);
    assert_eq!(u.total_tokens, 15);
}

#[test]
fn chunk_text_strips_data_prefix_and_done() {
    assert_eq!(chunk_json_text("data: {}").as_deref(), Some("{}"));
    assert_eq!(chunk_json_text("data:{}").as_deref(), Some("{}"));
    assert_eq!(chunk_json_text("data: [DONE]"), None);
    assert_eq!(chunk_json_text(" {} ").as_deref(), Some("{}"));
}

#[test]
fn non_streaming_usage_reads_the_body() {
    let body = br#"{"usage":{"prompt_tokens":3,"completion_tokens":4,"total_tokens":7}}"#;
    let u = non_streaming_usage(&parse(body).unwrap()).unwrap();
    assert_eq!((u.prompt_tokens, u.completion_tokens, u.total_tokens), (3, 4, 7));
    assert!(non_streaming_usage(&parse(br#"{"id":"x"}"#).unwrap()).is_none());
}

#[test]
fn usage_filter_splits_and_rejoins_data_lines() {
    assert_eq!(usage_line_parts("event: x"), None);
    assert_eq!(usage_line_parts("data: [DONE]"), None);
    assert_eq!(usage_line_parts("data: {\"a\":1} "), Some(("data: ".to_string(), "{\"a\":1}".to_string())));
    assert_eq!(usage_line_parts("data:{}"), Some(("data:".to_string(), "{}".to_string())));
    assert_eq!(usage_line_rejoin("data: ", "{}"), "data: {}\n");
}

#[test]
fn chunk_text_is_split_like_str_lines() {
    for text in ["", "a", "a\n", "a\r\nb", "a\n\nb\n", "\n", "x\r", "a\r\r\n"] {
        let expected: Vec<String> = text.lines().map(str::to_string).collect();
        assert_eq!(text_lines(text), expected, "{:?}", text);
    }
}

fn usage(n: u32) -> UsageInfo {
    UsageInfo { prompt_tokens: n, completion_tokens: 0, total_tokens: n, prompt_tokens_details: None }
}

#[test]
fn stream_state_keeps_the_first_usage_and_filters_lines() {
    let mut st = StreamUsageState::new(true, true);
    let lines = vec!["a".to_string(), "b".to_string()];
    let out = st.on_chunk(Some(&lines), &vec![None, Some(usage(5))], &vec![Some("A\n".to_string()), None], Some(usage(9)));
    assert_eq!(out, Some("A\n".to_string()));
    assert_eq!(st.usage.map(|u| u.prompt_tokens), Some(5));
    let out = st.on_chunk(None, &vec![], &vec![], Some(usage(7)));
    assert_eq!(out, None);
    assert_eq!(st.usage.map(|u| u.prompt_tokens), Some(5));

    let mut only_extract = StreamUsageState::new(false, true);
    assert_eq!(only_extract.on_chunk(Some(&lines), &vec![None, None], &vec![None, None], Some(usage(3))), None);
    assert_eq!(only_extract.usage.map(|u| u.prompt_tokens), Some(3));

    let mut neither = StreamUsageState::new(false, false);
    assert_eq!(neither.on_chunk(Some(&lines), &vec![Some(usage(1)), None], &vec![None, None], None), None);
    assert!(neither.usage.is_none());
}
